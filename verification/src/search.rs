//! File search: structured grep and glob.
//!
//! The directory walk and the reading of files happen outside. This module plans
//! a search, decides what becomes of each entry that the walk comes to, and puts
//! the results in order.

use crate::paths;
use crate::paths::FoundPath;
use crate::sort;
use crate::sort::Ordered;
use crate::text;
use vstd::prelude::*;
use vstd::string::*;

verus! {

/// `globset::GlobSet`, opaque.
#[verifier::external_type_specification]
#[verifier::external_body]
pub struct ExGlobSet(globset::GlobSet);

/// `grep::regex::RegexMatcher`, opaque.
#[verifier::external_type_specification]
#[verifier::external_body]
pub struct ExRegexMatcher(grep::regex::RegexMatcher);

/// `ignore::overrides::Override`, opaque.
#[verifier::external_type_specification]
#[verifier::external_body]
pub struct ExOverride(ignore::overrides::Override);

/// A length of time.
#[derive(Clone, Copy, Debug, PartialEq, Eq, Structural)]
pub struct Span {
    pub secs: u64,
    pub nanos: u32,
}

impl Span {
    /// The length in nanoseconds.
    pub open spec fn total(self) -> int {
        self.secs * 1_000_000_000 + self.nanos
    }

    /// The nanoseconds are less than a second.
    pub open spec fn normal(self) -> bool {
        self.nanos < 1_000_000_000
    }

    /// Whether this is longer than `other`.
    pub fn longer_than(self, other: Span) -> (r: bool)
        requires
            self.normal(),
            other.normal(),
        ensures
            r == (self.total() > other.total()),
    {
        self.secs > other.secs || (self.secs == other.secs && self.nanos > other.nanos)
    }

    /// The shorter of the two.
    pub fn shorter(self, other: Span) -> (r: Span)
        requires
            self.normal(),
            other.normal(),
        ensures
            r.total() == (if self.total() <= other.total() {
                self.total()
            } else {
                other.total()
            }),
            r == self || r == other,
    {
        if self.longer_than(other) {
            other
        } else {
            self
        }
    }
}

/// The text that std shows a length of time as.
pub uninterp spec fn span_shown(secs: u64, nanos: u32) -> Seq<char>;

/// `std::time::Duration` as its `Debug` shows it: the text depends on the length
/// alone.
#[verifier::external_body]
pub(crate) fn show_span(secs: u64, nanos: u32) -> (r: String)
    requires
        nanos < 1_000_000_000,
    ensures
        r@ == span_shown(secs, nanos),
{
    format!("{:?}", std::time::Duration::new(secs, nanos))
}

/// A line that was found.
#[derive(Clone, Debug, PartialEq, Eq)]
pub struct SearchMatch {
    pub file: String,
    pub line_number: usize,
    pub line_content: String,
}

/// Options for grep. By default ignore rules are respected, and hidden and binary files
/// are skipped.
#[derive(Clone, Debug, PartialEq, Eq)]
pub struct GrepOptions {
    /// A glob that file paths must match.
    pub glob_filter: Option<String>,
    /// At most how many matches are returned.
    pub max_results: Option<usize>,
    pub case_insensitive: bool,
    /// Search everything: what ignore rules leave out, and hidden files.
    pub no_ignore: bool,
    /// Search hidden files too.
    pub hidden: bool,
}

impl Default for GrepOptions {
    fn default() -> (r: GrepOptions)
        ensures
            r.glob_filter is None,
            r.max_results is None,
            !r.case_insensitive,
            !r.no_ignore,
            !r.hidden,
    {
        GrepOptions {
            glob_filter: None,
            max_results: None,
            case_insensitive: false,
            no_ignore: false,
            hidden: false,
        }
    }
}

/// Options for glob. By default ignore rules are respected, and hidden files are
/// skipped.
#[derive(Clone, Copy, Debug, PartialEq, Eq)]
pub struct GlobOptions {
    /// At most how many paths are returned; the walk stops once they are found.
    pub max_results: Option<usize>,
    /// How long the walk may take.
    pub deadline: Option<Span>,
    /// Walk everything: what ignore rules leave out, and hidden files.
    pub no_ignore: bool,
    /// Walk hidden files too. A pattern that names a hidden component asks for
    /// this by itself.
    pub hidden: bool,
}

impl Default for GlobOptions {
    fn default() -> (r: GlobOptions)
        ensures
            r.max_results is None,
            r.deadline is None,
            !r.no_ignore,
            !r.hidden,
    {
        GlobOptions { max_results: None, deadline: None, no_ignore: false, hidden: false }
    }
}

/// Why a search failed.
#[derive(Clone, Debug, PartialEq, Eq)]
pub enum SearchError {
    InvalidPattern(String),
    IoError(String),
    CommandFailed(String),
    /// The walk took longer than it may.
    Timeout(Span),
}

/// The message of an error.
pub open spec fn error_text(e: SearchError) -> Seq<char> {
    match e {
        SearchError::InvalidPattern(p) => "invalid pattern: "@ + p@,
        SearchError::IoError(m) => "I/O error: "@ + m@,
        SearchError::CommandFailed(m) => "command failed: "@ + m@,
        SearchError::Timeout(s) => "timed out after "@ + span_shown(s.secs, s.nanos),
    }
}

impl SearchError {
    /// A time in the error is a normal one.
    pub open spec fn normal(&self) -> bool {
        match self {
            SearchError::Timeout(s) => s.normal(),
            _ => true,
        }
    }

    /// The message of the error.
    pub fn message(&self) -> (r: String)
        requires
            self.normal(),
        ensures
            r@ == error_text(*self),
    {
        match self {
            SearchError::InvalidPattern(p) => text::cat("invalid pattern: ", p.as_str()),
            SearchError::IoError(m) => text::cat("I/O error: ", m.as_str()),
            SearchError::CommandFailed(m) => text::cat("command failed: ", m.as_str()),
            SearchError::Timeout(s) => {
                let shown = show_span(s.secs, s.nanos);
                text::cat("timed out after ", shown.as_str())
            },
        }
    }
}

// ─── Patterns ────────────────────────────────────────────────────────────────

/// A component of a glob pattern that has a metacharacter in it.
pub open spec fn has_meta(c: Seq<char>) -> bool {
    c.contains('*') || c.contains('?') || c.contains('[') || c.contains('{')
}

/// How many components stand before the first one with a metacharacter.
pub open spec fn literal_count(parts: Seq<Seq<char>>) -> int
    decreases parts.len(),
{
    if parts.len() == 0 || has_meta(parts[0]) {
        0
    } else {
        1 + literal_count(parts.skip(1))
    }
}

/// The leading components of a pattern before the first one with a metacharacter.
pub open spec fn prefix_of(pattern: Seq<char>) -> Seq<char> {
    let parts = paths::components(pattern);
    paths::assembled(parts.take(literal_count(parts)))
}

fn contains_meta(c: &str) -> (r: bool)
    ensures
        r == has_meta(c@),
{
    let v = text::chars_of(c);
    let mut i: usize = 0;
    while i < v.len()
        invariant
            i <= v@.len(),
            v@ == c@,
            forall|j: int|
                0 <= j < i ==> v@[j] != '*' && v@[j] != '?' && v@[j] != '[' && v@[j] != '{',
        decreases v@.len() - i,
    {
        if v[i] == '*' || v[i] == '?' || v[i] == '[' || v[i] == '{' {
            assert(c@.contains(v@[i as int]));
            return true;
        }
        i = i + 1;
    }
    false
}

/// The directory that the walk for a pattern needs to start from: its leading
/// components before the first one with a metacharacter.
pub fn literal_prefix(pattern: &str) -> (r: String)
    ensures
        r@ == prefix_of(pattern@),
{
    let parts = paths::split_path(pattern);
    let ghost all = text::views(parts@);
    let mut n: usize = 0;
    assert(all.skip(0) =~= all);
    while n < parts.len() && !contains_meta(parts[n].as_str())
        invariant
            n <= parts@.len(),
            all == text::views(parts@),
            literal_count(all) == n + literal_count(all.skip(n as int)),
        decreases parts@.len() - n,
    {
        assert(all.skip(n as int)[0] == parts@[n as int]@);
        assert(all.skip(n as int).skip(1) =~= all.skip(n + 1));
        n = n + 1;
    }
    proof {
        if n < parts@.len() {
            assert(all.skip(n as int)[0] == parts@[n as int]@);
        }
    }
    paths::assemble(&parts, n)
}

/// A component that is the name of something hidden.
pub open spec fn hidden_name(c: Seq<char>) -> bool {
    c.len() > 0 && c[0] == '.' && c != "."@ && c != ".."@
}

/// A pattern that names something hidden.
pub open spec fn names_hidden(pattern: Seq<char>) -> bool {
    exists|i: int|
        0 <= i < paths::components(pattern).len() && hidden_name(
            #[trigger] paths::components(pattern)[i],
        )
}

/// Whether a pattern names something hidden.
pub fn pattern_names_hidden(pattern: &str) -> (r: bool)
    ensures
        r == names_hidden(pattern@),
{
    let parts = paths::split_path(pattern);
    let ghost all = text::views(parts@);
    let mut i: usize = 0;
    while i < parts.len()
        invariant
            i <= parts@.len(),
            all == text::views(parts@),
            all == paths::components(pattern@),
            forall|j: int| 0 <= j < i ==> !hidden_name(#[trigger] all[j]),
        decreases parts@.len() - i,
    {
        let c = parts[i].as_str();
        let v = text::chars_of(c);
        assert(all[i as int] == parts@[i as int]@);
        if v.len() > 0 && v[0] == '.' && !text::same(c, ".") && !text::same(c, "..") {
            assert(hidden_name(paths::components(pattern@)[i as int]));
            return true;
        }
        i = i + 1;
    }
    false
}

/// The paths that a compiled glob matches.
pub uninterp spec fn glob_members(set: globset::GlobSet) -> Set<Seq<char>>;

/// The paths that a glob pattern matches; nothing where the pattern is invalid. With a
/// literal separator `*` and `?` do not cross a `/`.
pub uninterp spec fn glob_language(pattern: Seq<char>, literal_separator: bool) -> Option<Set<Seq<char>>>;

/// What `globset` says of an invalid pattern.
pub uninterp spec fn glob_complaint(pattern: Seq<char>, literal_separator: bool) -> Seq<char>;

/// `globset::GlobBuilder`, compiled by `globset::GlobSetBuilder`: whether the pattern is
/// valid, what it matches and what is wrong with it depend on the pattern and on whether
/// the separator is literal.
#[verifier::external_body]
fn compile_glob(pattern: &str, literal_separator: bool) -> (r: Result<globset::GlobSet, String>)
    ensures
        match r {
            Ok(set) => glob_language(pattern@, literal_separator) == Some(glob_members(set)),
            Err(m) => glob_language(pattern@, literal_separator) is None && m@ == glob_complaint(
                pattern@,
                literal_separator,
            ),
        },
{
    globset::GlobBuilder::new(pattern)
        .literal_separator(literal_separator)
        .build()
        .and_then(|glob| globset::GlobSetBuilder::new().add(glob).build())
        .map_err(|e| e.to_string())
}

/// `globset::GlobSet::is_match`: whether the path is among those that the set
/// matches.
#[verifier::external_body]
fn glob_is_match(set: &globset::GlobSet, path: &str) -> (r: bool)
    ensures
        r == glob_members(*set).contains(path@),
{
    set.is_match(path)
}

/// The lines that a compiled regex finds a match in.
pub uninterp spec fn regex_members(matcher: grep::regex::RegexMatcher) -> Set<Seq<u8>>;

/// The lines that a regex finds a match in, where lines end with `line_end`; nothing where
/// the regex is invalid.
pub uninterp spec fn regex_language(
    pattern: Seq<char>,
    case_insensitive: bool,
    line_end: u8,
) -> Option<Set<Seq<u8>>>;

/// What the regex compiler says of an invalid regex.
pub uninterp spec fn regex_complaint(
    pattern: Seq<char>,
    case_insensitive: bool,
    line_end: u8,
) -> Seq<char>;

/// `grep::regex::RegexMatcherBuilder` for lines: whether the regex is valid, what it
/// matches and what is wrong with it depend on the regex, on its case sensitivity and on
/// how lines end.
#[verifier::external_body]
fn compile_regex(pattern: &str, case_insensitive: bool, line_end: u8) -> (r: Result<
    grep::regex::RegexMatcher,
    String,
>)
    ensures
        match r {
            Ok(m) => regex_language(pattern@, case_insensitive, line_end) == Some(regex_members(m)),
            Err(m) => regex_language(pattern@, case_insensitive, line_end) is None && m@
                == regex_complaint(pattern@, case_insensitive, line_end),
        },
{
    grep::regex::RegexMatcherBuilder::new()
        .case_insensitive(case_insensitive)
        .line_terminator(Some(line_end))
        .build(pattern)
        .map_err(|e| e.to_string())
}

/// The paths that a compiled filter lets through, each with whether it is a directory.
pub uninterp spec fn filter_members(filter: ignore::overrides::Override) -> Set<(Seq<char>, bool)>;

/// The paths that a filter with one glob lets through under a root; nothing where the glob
/// is invalid.
pub uninterp spec fn filter_language(root: Seq<char>, glob: Seq<char>) -> Option<Set<(Seq<char>, bool)>>;

/// What `ignore` says of an invalid filter.
pub uninterp spec fn filter_complaint(root: Seq<char>, glob: Seq<char>) -> Seq<char>;

/// `ignore::overrides::OverrideBuilder` with one glob: whether the glob is valid, what it
/// lets through and what is wrong with it depend on the root and on the glob.
#[verifier::external_body]
fn compile_filter(root: &str, glob: &str) -> (r: Result<ignore::overrides::Override, String>)
    ensures
        match r {
            Ok(f) => filter_language(root@, glob@) == Some(filter_members(f)),
            Err(m) => filter_language(root@, glob@) is None && m@ == filter_complaint(root@, glob@),
        },
{
    let mut builder = ignore::overrides::OverrideBuilder::new(root);
    builder.add(glob).map_err(|e| e.to_string())?;
    builder.build().map_err(|e| e.to_string())
}

// ─── Glob ────────────────────────────────────────────────────────────────────

/// Whether the walk goes on.
#[derive(Clone, Copy, Debug, PartialEq, Eq, Structural)]
pub enum WalkState {
    Continue,
    Quit,
}

/// How the walk for a glob is to be done.
pub struct GlobPlan {
    /// What entries must match.
    pub matcher: globset::GlobSet,
    /// Where the walk starts.
    pub root: String,
    /// Whether hidden files are walked.
    pub hidden: bool,
    /// Whether ignore rules are left out.
    pub no_ignore: bool,
    pub max_results: Option<usize>,
    pub deadline: Option<Span>,
}

/// Plans the walk for a pattern, seen from a directory. It starts at the literal
/// prefix of the pattern.
pub fn plan_glob(pattern: &str, base_dir: &str, opts: &GlobOptions) -> (r: Result<
    GlobPlan,
    SearchError,
>)
    ensures
        ({
            let full = paths::joined_path(base_dir@, pattern@);
            match glob_language(full, true) {
                Some(language) => {
                    &&& r matches Ok(plan)
                    &&& glob_members(plan.matcher) == language
                    &&& plan.root@ == prefix_of(full)
                    &&& plan.hidden == (opts.hidden || opts.no_ignore || names_hidden(pattern@))
                    &&& plan.no_ignore == opts.no_ignore
                    &&& plan.max_results == opts.max_results
                    &&& plan.deadline == opts.deadline
                },
                None => r matches Err(SearchError::InvalidPattern(m)) && m@ == glob_complaint(full, true),
            }
        }),
{
    let full = paths::join_path(base_dir, pattern);
    match compile_glob(full.as_str(), true) {
        Ok(matcher) => Ok(
            GlobPlan {
                matcher,
                root: literal_prefix(full.as_str()),
                hidden: opts.hidden || opts.no_ignore || pattern_names_hidden(pattern),
                no_ignore: opts.no_ignore,
                max_results: opts.max_results,
                deadline: opts.deadline,
            },
        ),
        Err(m) => Err(SearchError::InvalidPattern(m)),
    }
}

/// What the walk for a glob has found so far.
#[derive(Clone, Debug, PartialEq, Eq)]
pub struct GlobWalk {
    pub found: Vec<FoundPath>,
    pub timed_out: bool,
}

/// Whether as many results are there as may be.
pub open spec fn enough(n: int, max: Option<usize>) -> bool {
    match max {
        Some(m) => n >= m,
        None => false,
    }
}

/// Whether the walk has taken longer than it may.
pub open spec fn overdue(elapsed: Span, deadline: Option<Span>) -> bool {
    match deadline {
        Some(d) => elapsed.total() > d.total(),
        None => false,
    }
}

/// A deadline, where there is one, is a normal time.
pub open spec fn deadline_normal(deadline: Option<Span>) -> bool {
    match deadline {
        Some(d) => d.normal(),
        None => true,
    }
}

/// How many of `n` results are returned.
pub open spec fn limited(n: int, max: Option<usize>) -> int {
    match max {
        Some(m) => if n > m {
            m as int
        } else {
            n
        },
        None => n,
    }
}

/// What is found after an entry, and whether to go on: a path that matches is found,
/// and the walk quits when enough was. `None` is an entry that could not be read.
pub open spec fn visited(
    members: Set<Seq<char>>,
    max: Option<usize>,
    found: Seq<FoundPath>,
    entry: Option<String>,
) -> (Seq<FoundPath>, WalkState) {
    match entry {
        Some(path) => if members.contains(path@) {
            (
                found.push(FoundPath { path }),
                if enough((found.len() + 1) as int, max) {
                    WalkState::Quit
                } else {
                    WalkState::Continue
                },
            )
        } else {
            (found, WalkState::Continue)
        },
        None => (found, WalkState::Continue),
    }
}

/// What is returned of what was found: it in the order of paths, and at most as much of
/// it as may be.
pub open spec fn selected(found: Seq<FoundPath>, max: Option<usize>, r: Seq<FoundPath>) -> bool {
    &&& r.len() == limited(found.len() as int, max)
    &&& sort::in_order(r)
    &&& exists|all: Seq<FoundPath>| #[trigger]
        sort::in_order(all) && all.to_multiset() == found.to_multiset() && r == all.take(
            r.len() as int,
        )
}

impl GlobWalk {
    /// A walk that has found nothing.
    pub fn new() -> (r: GlobWalk)
        ensures
            r.found@.len() == 0,
            !r.timed_out,
    {
        GlobWalk { found: Vec::new(), timed_out: false }
    }

    /// Everything that was found matches.
    pub open spec fn only_matches(&self, plan: &GlobPlan) -> bool {
        forall|i: int|
            0 <= i < self.found@.len() ==> glob_members(plan.matcher).contains(
                (#[trigger] self.found@[i]).path@,
            )
    }

    /// The walk has come to an entry; `None` is one that could not be read. The
    /// walk quits when its time is over and when enough was found.
    pub fn visit(&mut self, plan: &GlobPlan, elapsed: Span, entry: Option<String>) -> (r: WalkState)
        requires
            elapsed.normal(),
            deadline_normal(plan.deadline),
        ensures
            overdue(elapsed, plan.deadline) ==> {
                &&& final(self).timed_out
                &&& final(self).found == old(self).found
                &&& r == WalkState::Quit
            },
            !overdue(elapsed, plan.deadline) ==> {
                &&& final(self).timed_out == old(self).timed_out
                &&& (final(self).found@, r) == visited(
                    glob_members(plan.matcher),
                    plan.max_results,
                    old(self).found@,
                    entry,
                )
            },
            old(self).only_matches(plan) ==> final(self).only_matches(plan),
    {
        if let Some(deadline) = plan.deadline {
            if elapsed.longer_than(deadline) {
                self.timed_out = true;
                return WalkState::Quit;
            }
        }
        match entry {
            Some(path) => {
                if !glob_is_match(&plan.matcher, path.as_str()) {
                    return WalkState::Continue;
                }
                self.found.push(FoundPath { path });
                if let Some(max) = plan.max_results {
                    if self.found.len() >= max {
                        return WalkState::Quit;
                    }
                }
                WalkState::Continue
            },
            None => WalkState::Continue,
        }
    }

    /// The result of the walk: what was found, in the order of paths, and at most
    /// as much as may be; an error where the time was over.
    pub fn finish(self, plan: &GlobPlan, elapsed: Span) -> (r: Result<Vec<FoundPath>, SearchError>)
        ensures
            self.timed_out ==> r == Err::<Vec<FoundPath>, SearchError>(
                SearchError::Timeout(
                    match plan.deadline {
                        Some(d) => d,
                        None => elapsed,
                    },
                ),
            ),
            !self.timed_out ==> {
                &&& r matches Ok(found)
                &&& selected(self.found@, plan.max_results, found@)
            },
            self.only_matches(plan) ==> (r matches Ok(found) ==> forall|i: int|
                0 <= i < found@.len() ==> glob_members(plan.matcher).contains(
                    (#[trigger] found@[i]).path@,
                )),
    {
        if self.timed_out {
            let budget = match plan.deadline {
                Some(d) => d,
                None => elapsed,
            };
            return Err(SearchError::Timeout(budget));
        }
        let mut found = sort::sort(self.found);
        let ghost all = found@;
        if let Some(max) = plan.max_results {
            found.truncate(max);
        }
        proof {
            assert(found@ =~= all.take(found@.len() as int));
            assert(sort::in_order(all));
            if self.only_matches(plan) {
                assert forall|i: int| 0 <= i < found@.len() implies glob_members(
                    plan.matcher,
                ).contains((#[trigger] found@[i]).path@) by {
                    broadcast use vstd::seq_lib::group_to_multiset_ensures;

                    assert(found@[i] == all[i]);
                    assert(all.contains(all[i]));
                    assert(all.to_multiset().count(all[i]) > 0);
                    assert(self.found@.to_multiset().count(all[i]) > 0);
                    assert(self.found@.contains(all[i]));
                }
            }
        }
        Ok(found)
    }
}

// ─── Grep ────────────────────────────────────────────────────────────────────

impl Ordered for SearchMatch {
    open spec fn before(&self, other: &SearchMatch) -> bool {
        if paths::components(self.file@) == paths::components(other.file@) {
            self.line_number <= other.line_number
        } else {
            paths::path_le(self.file@, other.file@)
        }
    }

    proof fn before_is_total(a: &SearchMatch, b: &SearchMatch) {
        paths::path_order_is_total(a.file@, b.file@);
    }

    proof fn before_is_transitive(a: &SearchMatch, b: &SearchMatch, c: &SearchMatch) {
        let x = paths::components(a.file@);
        let y = paths::components(b.file@);
        let z = paths::components(c.file@);
        if x != y && y != z {
            paths::path_order_is_transitive(a.file@, b.file@, c.file@);
            if x == z {
                paths::path_order_is_antisymmetric(a.file@, b.file@);
            }
        }
    }

    fn goes_before(&self, other: &SearchMatch) -> (r: bool) {
        if paths::same_path(self.file.as_str(), other.file.as_str()) {
            self.line_number <= other.line_number
        } else {
            paths::path_goes_before(self.file.as_str(), other.file.as_str())
        }
    }
}

/// How lines end.
pub const LINE_END: u8 = 10;

/// The byte that tells a binary file.
pub const BINARY_MARK: u8 = 0;

/// How the walk for a grep is to be done.
pub struct GrepPlan {
    /// What lines must match.
    pub matcher: grep::regex::RegexMatcher,
    /// Which files are searched.
    pub filter: Option<ignore::overrides::Override>,
    /// Whether hidden files are walked.
    pub hidden: bool,
    /// Whether ignore rules are left out.
    pub no_ignore: bool,
    /// The byte at which the search of a file ends: from there on it is binary.
    pub binary_mark: u8,
    pub max_results: Option<usize>,
}

/// Plans the search for a regex under a path.
pub fn plan_grep(pattern: &str, path: &str, opts: &GrepOptions) -> (r: Result<
    GrepPlan,
    SearchError,
>)
    ensures
        match regex_language(pattern@, opts.case_insensitive, LINE_END) {
            None => r matches Err(SearchError::InvalidPattern(m)) && m@ == regex_complaint(
                pattern@,
                opts.case_insensitive,
                LINE_END,
            ),
            Some(lines) => match opts.glob_filter {
                None => {
                    &&& r matches Ok(plan)
                    &&& regex_members(plan.matcher) == lines
                    &&& plan.filter is None
                    &&& plan.hidden == (opts.hidden || opts.no_ignore)
                    &&& plan.no_ignore == opts.no_ignore
                    &&& plan.binary_mark == BINARY_MARK
                    &&& plan.max_results == opts.max_results
                },
                Some(g) => match filter_language(path@, g@) {
                    None => r matches Err(SearchError::InvalidPattern(m)) && m@
                        == filter_complaint(path@, g@),
                    Some(files) => {
                        &&& r matches Ok(plan)
                        &&& regex_members(plan.matcher) == lines
                        &&& plan.filter matches Some(f) && filter_members(f) == files
                        &&& plan.hidden == (opts.hidden || opts.no_ignore)
                        &&& plan.no_ignore == opts.no_ignore
                        &&& plan.binary_mark == BINARY_MARK
                        &&& plan.max_results == opts.max_results
                    },
                },
            },
        },
{
    let matcher = match compile_regex(pattern, opts.case_insensitive, LINE_END) {
        Ok(m) => m,
        Err(m) => {
            return Err(SearchError::InvalidPattern(m));
        },
    };
    let filter = match &opts.glob_filter {
        Some(g) => match compile_filter(path, g.as_str()) {
            Ok(f) => Some(f),
            Err(m) => {
                return Err(SearchError::InvalidPattern(m));
            },
        },
        None => None,
    };
    Ok(
        GrepPlan {
            matcher,
            filter,
            hidden: opts.hidden || opts.no_ignore,
            no_ignore: opts.no_ignore,
            binary_mark: BINARY_MARK,
            max_results: opts.max_results,
        },
    )
}

/// A line without the line feeds and carriage returns at its end.
pub open spec fn without_line_end(s: Seq<char>) -> Seq<char>
    decreases s.len(),
{
    if s.len() > 0 && (s.last() == '\n' || s.last() == '\r') {
        without_line_end(s.drop_last())
    } else {
        s
    }
}

/// The match for a line of a file.
pub fn line_match(file: &str, line_number: u64, line: &str) -> (r: SearchMatch)
    ensures
        r.file@ == file@,
        r.line_number == line_number as usize,
        r.line_content@ == without_line_end(line@),
{
    let v = text::chars_of(line);
    let mut n: usize = v.len();
    assert(v@.take(n as int) =~= v@);
    while n > 0 && (v[n - 1] == '\n' || v[n - 1] == '\r')
        invariant
            n <= v@.len(),
            without_line_end(line@) == without_line_end(v@.take(n as int)),
        decreases n,
    {
        assert(v@.take(n as int).drop_last() =~= v@.take(n - 1));
        n = n - 1;
    }
    assert(v@.subrange(0, n as int) =~= v@.take(n as int));
    SearchMatch {
        file: file.to_string(),
        line_number: line_number as usize,
        line_content: text::string_of(&v, 0, n),
    }
}

/// What the walk for a grep has found so far.
#[derive(Clone, Debug, PartialEq, Eq)]
pub struct GrepWalk {
    pub found: Vec<SearchMatch>,
}

impl GrepWalk {
    /// A walk that has found nothing.
    pub fn new() -> (r: GrepWalk)
        ensures
            r.found@.len() == 0,
    {
        GrepWalk { found: Vec::new() }
    }

    /// A file was searched. What was found counts unless the file could not be
    /// read to its end; the walk quits when enough was found.
    pub fn visit(&mut self, max_results: Option<usize>, matches: Vec<SearchMatch>, failed: bool) -> (r:
        WalkState)
        ensures
            if failed || matches@.len() == 0 {
                final(self).found == old(self).found && r == WalkState::Continue
            } else {
                &&& final(self).found@ == old(self).found@ + matches@
                &&& r == (if enough(final(self).found@.len() as int, max_results) {
                    WalkState::Quit
                } else {
                    WalkState::Continue
                })
            },
    {
        if failed || matches.len() == 0 {
            return WalkState::Continue;
        }
        let mut more = matches;
        self.found.append(&mut more);
        if let Some(max) = max_results {
            if self.found.len() >= max {
                return WalkState::Quit;
            }
        }
        WalkState::Continue
    }

    /// The result of the walk: what was found, in the order of files and lines, and
    /// at most as much as may be.
    pub fn finish(self, max_results: Option<usize>) -> (r: Vec<SearchMatch>)
        ensures
            r@.len() == limited(self.found@.len() as int, max_results),
            sort::in_order(r@),
            exists|all: Seq<SearchMatch>| #[trigger]
                sort::in_order(all) && all.to_multiset() == self.found@.to_multiset() && r@
                    == all.take(r@.len() as int),
    {
        let mut found = sort::sort(self.found);
        let ghost all = found@;
        if let Some(max) = max_results {
            found.truncate(max);
        }
        proof {
            assert(found@ =~= all.take(found@.len() as int));
            assert(sort::in_order(all));
        }
        found
    }
}

/// What a walk finds that comes to these entries one after another, after `found`, up to
/// where it quits.
pub open spec fn walked(
    members: Set<Seq<char>>,
    max: Option<usize>,
    found: Seq<FoundPath>,
    entries: Seq<Option<String>>,
) -> Seq<FoundPath>
    decreases entries.len(),
{
    if entries.len() == 0 {
        found
    } else {
        let next = visited(members, max, found, entries[0]);
        if next.1 == WalkState::Quit {
            next.0
        } else {
            walked(members, max, next.0, entries.drop_first())
        }
    }
}

/// No path comes twice.
pub open spec fn all_differ(s: Seq<FoundPath>) -> bool {
    forall|i: int, j: int|
        #![trigger s[i], s[j]]
        0 <= i < j < s.len() ==> s[i].path@ != s[j].path@
}

/// No entry comes twice.
pub open spec fn entries_differ(entries: Seq<Option<String>>) -> bool {
    forall|i: int, j: int|
        #![trigger entries[i], entries[j]]
        0 <= i < j < entries.len() && entries[i] is Some && entries[j] is Some
            ==> entries[i]->0@ != entries[j]->0@
}

proof fn lemma_walk_extends(
    members: Set<Seq<char>>,
    max: Option<usize>,
    found: Seq<FoundPath>,
    entries: Seq<Option<String>>,
)
    ensures
        found.is_prefix_of(walked(members, max, found, entries)),
    decreases entries.len(),
{
    if entries.len() > 0 {
        let next = visited(members, max, found, entries[0]);
        assert(found.is_prefix_of(next.0));
        lemma_walk_extends(members, max, next.0, entries.drop_first());
    }
}

proof fn lemma_limited_walk(
    members: Set<Seq<char>>,
    m: usize,
    found: Seq<FoundPath>,
    entries: Seq<Option<String>>,
)
    requires
        found.len() == 0 || found.len() < m,
    ensures
        ({
            let all = walked(members, None, found, entries);
            let most = if m == 0 {
                1
            } else {
                m as int
            };
            walked(members, Some(m), found, entries) == all.take(
                if all.len() < most {
                    all.len() as int
                } else {
                    most
                },
            )
        }),
    decreases entries.len(),
{
    let all = walked(members, None, found, entries);
    lemma_walk_extends(members, None, found, entries);
    if entries.len() == 0 {
        assert(all.take(all.len() as int) =~= all);
    } else {
        let next = visited(members, Some(m), found, entries[0]);
        let free = visited(members, None, found, entries[0]);
        assert(next.0 == free.0);
        lemma_walk_extends(members, None, next.0, entries.drop_first());
        if next.1 == WalkState::Quit {
            assert(all.take(next.0.len() as int) =~= next.0);
        } else {
            lemma_limited_walk(members, m, next.0, entries.drop_first());
        }
    }
}

proof fn lemma_walk_differs(
    members: Set<Seq<char>>,
    found: Seq<FoundPath>,
    entries: Seq<Option<String>>,
)
    requires
        all_differ(found),
        entries_differ(entries),
        forall|i: int, j: int|
            #![trigger found[i], entries[j]]
            0 <= i < found.len() && 0 <= j < entries.len() && entries[j] is Some
                ==> found[i].path@ != entries[j]->0@,
    ensures
        all_differ(walked(members, None, found, entries)),
    decreases entries.len(),
{
    if entries.len() > 0 {
        let rest = entries.drop_first();
        let next = visited(members, None, found, entries[0]).0;
        assert forall|i: int, j: int|
            #![trigger rest[i], rest[j]]
            0 <= i < j < rest.len() && rest[i] is Some && rest[j] is Some implies rest[i]->0@
            != rest[j]->0@ by {
            assert(rest[i] == entries[i + 1] && rest[j] == entries[j + 1]);
        }
        assert forall|i: int, j: int|
            #![trigger next[i], rest[j]]
            0 <= i < next.len() && 0 <= j < rest.len() && rest[j] is Some implies next[i].path@
            != rest[j]->0@ by {
            assert(rest[j] == entries[j + 1]);
            if i < found.len() {
                assert(next[i] == found[i]);
            } else {
                assert(entries[0] is Some && next[i].path@ == entries[0]->0@);
            }
        }
        assert forall|i: int, j: int|
            #![trigger next[i], next[j]]
            0 <= i < j < next.len() implies next[i].path@ != next[j].path@ by {
            assert(next[i] == found[i]);
            if j < found.len() {
                assert(next[j] == found[j]);
            } else {
                assert(entries[0] is Some && next[j].path@ == entries[0]->0@);
            }
        }
        lemma_walk_differs(members, next, rest);
    }
}

/// Ordering what differs gives what differs, with the same elements.
proof fn lemma_reordered(a: Seq<FoundPath>, b: Seq<FoundPath>)
    requires
        a.to_multiset() == b.to_multiset(),
    ensures
        a.len() == b.len(),
        forall|i: int| 0 <= i < a.len() ==> b.contains(#[trigger] a[i]),
        all_differ(b) ==> all_differ(a),
{
    broadcast use vstd::seq_lib::group_to_multiset_ensures;

    assert(a.to_multiset().len() == a.len() && b.to_multiset().len() == b.len());
    assert forall|i: int| 0 <= i < a.len() implies b.contains(#[trigger] a[i]) by {
        assert(a.contains(a[i]));
        assert(a.to_multiset().count(a[i]) > 0);
        assert(b.to_multiset().count(a[i]) > 0);
    }
    if all_differ(b) {
        assert forall|i: int, j: int| 0 <= i < b.len() && 0 <= j < b.len() && i != j implies b[i]
            != b[j] by {
            if i < j {
                assert(b[i].path@ != b[j].path@);
            } else {
                assert(b[j].path@ != b[i].path@);
            }
        }
        b.lemma_multiset_has_no_duplicates();
        a.lemma_multiset_has_no_duplicates_conv();
        assert forall|i: int, j: int|
            #![trigger a[i], a[j]]
            0 <= i < j < a.len() implies a[i].path@ != a[j].path@ by {
            let x = choose|x: int| 0 <= x < b.len() && b[x] == a[i];
            let y = choose|y: int| 0 <= y < b.len() && b[y] == a[j];
            assert(a[i] != a[j]);
            assert(x != y);
            if x < y {
                assert(b[x].path@ != b[y].path@);
            } else {
                assert(b[y].path@ != b[x].path@);
            }
        }
    }
}

/// A path is among entries.
pub open spec fn listed(entries: Seq<Option<String>>, path: Seq<char>) -> bool {
    exists|i: int|
        0 <= i < entries.len() && (#[trigger] entries[i]) is Some && entries[i]->0@ == path
}

/// A path is among those that were found.
pub open spec fn has_path(found: Seq<FoundPath>, path: Seq<char>) -> bool {
    exists|i: int| 0 <= i < found.len() && (#[trigger] found[i]).path@ == path
}

proof fn lemma_walk_finds(
    members: Set<Seq<char>>,
    found: Seq<FoundPath>,
    entries: Seq<Option<String>>,
    path: Seq<char>,
)
    ensures
        has_path(walked(members, None, found, entries), path) <==> has_path(found, path) || (
        members.contains(path) && listed(entries, path)),
    decreases entries.len(),
{
    if entries.len() > 0 {
        let rest = entries.drop_first();
        let next = visited(members, None, found, entries[0]).0;
        lemma_walk_finds(members, next, rest, path);
        assert(listed(entries, path) <==> (entries[0] is Some && entries[0]->0@ == path) || listed(
            rest,
            path,
        )) by {
            if listed(entries, path) {
                let i = choose|i: int|
                    0 <= i < entries.len() && (#[trigger] entries[i]) is Some && entries[i]->0@
                        == path;
                if i > 0 {
                    assert(rest[i - 1] == entries[i]);
                }
            }
            if listed(rest, path) {
                let i = choose|i: int|
                    0 <= i < rest.len() && (#[trigger] rest[i]) is Some && rest[i]->0@ == path;
                assert(entries[i + 1] == rest[i]);
            }
        }
        assert(has_path(next, path) <==> has_path(found, path) || (entries[0] is Some
            && entries[0]->0@ == path && members.contains(path))) by {
            if has_path(next, path) {
                let i = choose|i: int| 0 <= i < next.len() && (#[trigger] next[i]).path@ == path;
                if i < found.len() {
                    assert(found[i] == next[i]);
                }
            }
            if has_path(found, path) {
                let i = choose|i: int| 0 <= i < found.len() && (#[trigger] found[i]).path@ == path;
                assert(next[i] == found[i]);
            }
            if entries[0] is Some && entries[0]->0@ == path && members.contains(path) {
                assert(next[found.len() as int].path@ == path);
            }
        }
    }
}

/// A list of paths, none of them twice, is no longer than a list that has them all.
proof fn lemma_no_longer(a: Seq<FoundPath>, b: Seq<FoundPath>)
    requires
        all_differ(a),
        forall|path: Seq<char>| #[trigger] has_path(a, path) ==> has_path(b, path),
    ensures
        a.len() <= b.len(),
{
    let p = Seq::new(a.len(), |i: int| a[i].path@);
    let q = Seq::new(b.len(), |i: int| b[i].path@);
    assert forall|i: int, j: int| 0 <= i < p.len() && 0 <= j < p.len() && i != j implies p[i]
        != p[j] by {
        if i < j {
            assert(a[i].path@ != a[j].path@);
        } else {
            assert(a[j].path@ != a[i].path@);
        }
    }
    assert forall|path: Seq<char>| #[trigger] p.to_set().contains(path) implies q.to_set().contains(
        path,
    ) by {
        let i = choose|i: int| 0 <= i < p.len() && p[i] == path;
        assert(a[i].path@ == path);
        assert(has_path(a, path));
        let j = choose|j: int| 0 <= j < b.len() && (#[trigger] b[j]).path@ == path;
        assert(q[j] == path);
    }
    p.unique_seq_to_set();
    q.lemma_cardinality_of_set();
    vstd::seq_lib::seq_to_set_is_finite(q);
    vstd::set_lib::lemma_len_subset(p.to_set(), q.to_set());
}

/// What is returned of a part of what another walk found.
proof fn lemma_selected(
    all: Seq<FoundPath>,
    part: Seq<FoundPath>,
    m: usize,
    full: Seq<FoundPath>,
    some: Seq<FoundPath>,
)
    requires
        all_differ(part),
        forall|path: Seq<char>| #[trigger] has_path(part, path) ==> has_path(all, path),
        selected(all, None, full),
        selected(part, Some(m), some),
    ensures
        sort::in_order(some),
        all_differ(some),
        forall|i: int| 0 <= i < some.len() ==> has_path(full, (#[trigger] some[i]).path@),
        full.len() == all.len(),
        part.len() <= all.len(),
{
    lemma_no_longer(part, all);
    let sorted = choose|s: Seq<FoundPath>| #[trigger]
        sort::in_order(s) && s.to_multiset() == all.to_multiset() && full == s.take(
            full.len() as int,
        );
    lemma_reordered(sorted, all);
    lemma_reordered(all, sorted);
    assert(full =~= sorted);
    let kept = choose|s: Seq<FoundPath>| #[trigger]
        sort::in_order(s) && s.to_multiset() == part.to_multiset() && some == s.take(
            some.len() as int,
        );
    lemma_reordered(kept, part);
    assert forall|i: int| 0 <= i < some.len() implies has_path(
        full,
        (#[trigger] some[i]).path@,
    ) by {
        let path = some[i].path@;
        assert(some[i] == kept[i]);
        assert(part.contains(kept[i]));
        let k = choose|k: int| 0 <= k < part.len() && part[k] == kept[i];
        assert(part[k].path@ == path);
        assert(has_path(part, path));
        assert(has_path(all, path));
        let j = choose|j: int| 0 <= j < all.len() && (#[trigger] all[j]).path@ == path;
        assert(sorted.contains(all[j]));
        let n = choose|n: int| 0 <= n < sorted.len() && sorted[n] == all[j];
        assert(full[n].path@ == path);
    }
    assert forall|i: int, j: int|
        #![trigger some[i], some[j]]
        0 <= i < j < some.len() implies some[i].path@ != some[j].path@ by {
        assert(some[i] == kept[i] && some[j] == kept[j]);
    }
}

/// Two walks come to the same paths, each in an order of its own, and to none twice. The
/// one may return only so much, the other all: the first returns paths in their order,
/// no path twice, only paths that the other returns too, and as many of them as may be.
pub proof fn a_limit_picks_from_the_full_result(
    members: Set<Seq<char>>,
    entries: Seq<Option<String>>,
    others: Seq<Option<String>>,
    m: usize,
    full: Seq<FoundPath>,
    some: Seq<FoundPath>,
)
    requires
        entries_differ(entries),
        entries_differ(others),
        forall|path: Seq<char>| #[trigger] listed(entries, path) == listed(others, path),
        selected(walked(members, None, Seq::empty(), entries), None, full),
        selected(walked(members, Some(m), Seq::empty(), others), Some(m), some),
    ensures
        sort::in_order(some),
        all_differ(some),
        forall|i: int| 0 <= i < some.len() ==> has_path(full, (#[trigger] some[i]).path@),
        some.len() == if full.len() < m {
            full.len()
        } else {
            m as nat
        },
{
    let none = Seq::<FoundPath>::empty();
    let all = walked(members, None, none, entries);
    let again = walked(members, None, none, others);
    let part = walked(members, Some(m), none, others);
    lemma_limited_walk(members, m, none, others);
    lemma_walk_differs(members, none, entries);
    lemma_walk_differs(members, none, others);
    assert forall|path: Seq<char>| #[trigger] has_path(all, path) == has_path(again, path) by {
        lemma_walk_finds(members, none, entries, path);
        lemma_walk_finds(members, none, others, path);
        assert(listed(entries, path) == listed(others, path));
    }
    lemma_no_longer(all, again);
    lemma_no_longer(again, all);
    assert(all_differ(part));
    assert forall|path: Seq<char>| #[trigger] has_path(part, path) implies has_path(all, path) by {
        let k = choose|k: int| 0 <= k < part.len() && (#[trigger] part[k]).path@ == path;
        assert(again[k].path@ == path);
        assert(has_path(again, path));
    }
    lemma_selected(all, part, m, full, some);
}

/// The same of a walk of several threads, which may come to more entries after it was
/// told to quit: it came to entries of those that there are, to none twice, and to all
/// of them unless enough was found.
pub proof fn a_limit_picks_from_what_was_seen(
    members: Set<Seq<char>>,
    entries: Seq<Option<String>>,
    seen: Seq<Option<String>>,
    m: usize,
    full: Seq<FoundPath>,
    some: Seq<FoundPath>,
)
    requires
        entries_differ(entries),
        entries_differ(seen),
        forall|path: Seq<char>| #[trigger] listed(seen, path) ==> listed(entries, path),
        enough(walked(members, None, Seq::empty(), seen).len() as int, Some(m)) || forall|
            path: Seq<char>,
        | #[trigger]
            listed(entries, path) ==> listed(seen, path),
        selected(walked(members, None, Seq::empty(), entries), None, full),
        selected(walked(members, None, Seq::empty(), seen), Some(m), some),
    ensures
        sort::in_order(some),
        all_differ(some),
        forall|i: int| 0 <= i < some.len() ==> has_path(full, (#[trigger] some[i]).path@),
        some.len() == if full.len() < m {
            full.len()
        } else {
            m as nat
        },
{
    let none = Seq::<FoundPath>::empty();
    let all = walked(members, None, none, entries);
    let part = walked(members, None, none, seen);
    lemma_walk_differs(members, none, entries);
    lemma_walk_differs(members, none, seen);
    assert forall|path: Seq<char>| #[trigger] has_path(part, path) implies has_path(all, path) by {
        lemma_walk_finds(members, none, entries, path);
        lemma_walk_finds(members, none, seen, path);
    }
    lemma_selected(all, part, m, full, some);
    if !enough(part.len() as int, Some(m)) {
        assert forall|path: Seq<char>| #[trigger] has_path(all, path) implies has_path(
            part,
            path,
        ) by {
            lemma_walk_finds(members, none, entries, path);
            lemma_walk_finds(members, none, seen, path);
            assert(listed(entries, path) ==> listed(seen, path));
        }
        lemma_no_longer(all, part);
    }
}

/// The prefix of a pattern has no metacharacter in any of its components.
pub proof fn literal_prefix_is_literal(pattern: Seq<char>, i: int)
    requires
        0 <= i < literal_count(paths::components(pattern)),
    ensures
        i < paths::components(pattern).len(),
        !has_meta(paths::components(pattern)[i]),
{
    lemma_literal_count(paths::components(pattern), i);
}

proof fn lemma_literal_count(parts: Seq<Seq<char>>, i: int)
    requires
        0 <= i < literal_count(parts),
    ensures
        i < parts.len(),
        !has_meta(parts[i]),
    decreases parts.len(),
{
    if i > 0 {
        lemma_literal_count(parts.skip(1), i - 1);
        assert(parts.skip(1)[i - 1] == parts[i]);
    }
}

proof fn lemma_literal_count_at(parts: Seq<Seq<char>>, n: int)
    requires
        0 <= n <= parts.len(),
        forall|i: int| 0 <= i < n ==> !has_meta(#[trigger] parts[i]),
        n < parts.len() ==> has_meta(parts[n]),
    ensures
        literal_count(parts) == n,
    decreases parts.len(),
{
    if n > 0 {
        let rest = parts.skip(1);
        assert(!has_meta(parts[0]));
        assert forall|i: int| 0 <= i < n - 1 implies !has_meta(#[trigger] rest[i]) by {
            assert(rest[i] == parts[i + 1]);
        }
        if n < parts.len() {
            assert(rest[n - 1] == parts[n]);
        }
        lemma_literal_count_at(rest, n - 1);
    }
}

/// A character that means more than itself in a glob.
pub open spec fn is_meta(c: char) -> bool {
    c == '*' || c == '?' || c == '[' || c == '{'
}

/// The walk for a pattern starts at the components before the first one that has a
/// character in it that means more than itself.
pub proof fn walks_start_at_the_literal_components(pattern: Seq<char>, n: int, at: int)
    requires
        0 <= n <= paths::components(pattern).len(),
        forall|i: int, j: int|
            #![trigger paths::components(pattern)[i][j]]
            0 <= i < n && 0 <= j < paths::components(pattern)[i].len() ==> !is_meta(
                paths::components(pattern)[i][j],
            ),
        n < paths::components(pattern).len() ==> 0 <= at < paths::components(pattern)[n].len()
            && is_meta(paths::components(pattern)[n][at]),
    ensures
        prefix_of(pattern) == paths::assembled(paths::components(pattern).take(n)),
{
    let parts = paths::components(pattern);
    assert forall|i: int| 0 <= i < n implies !has_meta(#[trigger] parts[i]) by {
        if has_meta(parts[i]) {
            let c = if parts[i].contains('*') {
                '*'
            } else if parts[i].contains('?') {
                '?'
            } else if parts[i].contains('[') {
                '['
            } else {
                '{'
            };
            let j = choose|j: int| 0 <= j < parts[i].len() && parts[i][j] == c;
            assert(!is_meta(parts[i][j]));
        }
    }
    if n < parts.len() {
        assert(parts[n].contains(parts[n][at]));
    }
    lemma_literal_count_at(parts, n);
}

/// Something hidden has a name that starts with a dot; the directory itself and the one
/// above it are not hidden. A pattern names something hidden where one of its components
/// does.
pub proof fn hidden_names_start_with_a_dot(pattern: Seq<char>, rest: Seq<char>, i: int)
    ensures
        rest.len() > 0 && rest != seq!['.'] ==> hidden_name(seq!['.'] + rest),
        rest.len() > 0 && rest[0] != '.' ==> !hidden_name(rest),
        !hidden_name(seq!['.']) && !hidden_name(seq!['.', '.']),
        0 <= i < paths::components(pattern).len() && hidden_name(paths::components(pattern)[i])
            ==> names_hidden(pattern),
        names_hidden(pattern) ==> exists|k: int|
            0 <= k < paths::components(pattern).len() && hidden_name(
                #[trigger] paths::components(pattern)[k],
            ),
{
    reveal_strlit(".");
    reveal_strlit("..");
    assert("."@ =~= seq!['.']);
    assert(".."@ =~= seq!['.', '.']);
    let dotted = seq!['.'] + rest;
    if rest.len() > 0 && rest != seq!['.'] {
        assert(dotted.len() == rest.len() + 1);
        if dotted == ".."@ {
            assert(rest =~= seq!['.']);
        }
    }
}

/// What is found of a line is the line without the line feeds and carriage returns at its
/// end, and with everything else.
pub proof fn lines_lose_only_their_ends(s: Seq<char>)
    ensures
        ({
            let t = without_line_end(s);
            &&& t.len() <= s.len()
            &&& s.take(t.len() as int) == t
            &&& forall|i: int|
                t.len() <= i < s.len() ==> #[trigger] s[i] == '\n' || s[i] == '\r'
            &&& t.len() > 0 ==> t.last() != '\n' && t.last() != '\r'
        }),
    decreases s.len(),
{
    if s.len() > 0 && (s.last() == '\n' || s.last() == '\r') {
        let rest = s.drop_last();
        lines_lose_only_their_ends(rest);
        let t = without_line_end(s);
        assert(s.take(t.len() as int) =~= rest.take(t.len() as int));
        assert forall|i: int| t.len() <= i < s.len() implies #[trigger] s[i] == '\n' || s[i]
            == '\r' by {
            if i < rest.len() {
                assert(s[i] == rest[i]);
            }
        }
    } else {
        assert(s.take(s.len() as int) =~= s);
    }
}

/// An entry that could not be read or does not match is passed over; one that matches is
/// found, behind what was found before, and the walk quits with it where enough was found.
pub proof fn entries_that_match_are_found(
    members: Set<Seq<char>>,
    max: Option<usize>,
    found: Seq<FoundPath>,
    path: String,
)
    ensures
        visited(members, max, found, None) == (found, WalkState::Continue),
        !members.contains(path@) ==> visited(members, max, found, Some(path)) == (
            found,
            WalkState::Continue,
        ),
        members.contains(path@) ==> visited(members, max, found, Some(path)).0 == found.push(
            FoundPath { path },
        ),
        members.contains(path@) && max is Some && found.len() + 1 >= max->0 ==> visited(
            members,
            max,
            found,
            Some(path),
        ).1 == WalkState::Quit,
        members.contains(path@) && (max is None || found.len() + 1 < max->0) ==> visited(
            members,
            max,
            found,
            Some(path),
        ).1 == WalkState::Continue,
{
}

/// A walk may take as long as its deadline says, and as long as it likes where there is
/// none. Times are counted in nanoseconds.
pub proof fn walks_may_take_their_time(elapsed: Span, deadline: Span)
    ensures
        overdue(elapsed, Some(deadline)) <==> elapsed.secs * 1_000_000_000 + elapsed.nanos
            > deadline.secs * 1_000_000_000 + deadline.nanos,
        !overdue(elapsed, None),
        elapsed.normal() <==> elapsed.nanos < 1_000_000_000,
{
}

/// At most as many results are returned as may be, and all where there is no limit; enough
/// was found where as many were found.
pub proof fn limits_cut_results_short(n: int, max: usize)
    requires
        0 <= n,
    ensures
        n <= max ==> limited(n, Some(max)) == n,
        n > max ==> limited(n, Some(max)) == max,
        limited(n, None) == n,
        enough(n, Some(max)) <==> n >= max,
        !enough(n, None),
{
}

/// What is returned of what was found is in order, holds nothing else, and all of it where
/// there is no limit.
pub proof fn what_is_returned_was_found(
    found: Seq<FoundPath>,
    max: Option<usize>,
    r: Seq<FoundPath>,
    i: int,
)
    requires
        selected(found, max, r),
    ensures
        0 <= i < r.len() ==> found.contains(r[i]),
        max is None ==> r.to_multiset() == found.to_multiset(),
        0 <= i < r.len() - 1 ==> paths::path_le(r[i].path@, r[i + 1].path@),
{
    broadcast use vstd::seq_lib::group_to_multiset_ensures;

    let all = choose|all: Seq<FoundPath>| #[trigger]
        sort::in_order(all) && all.to_multiset() == found.to_multiset() && r == all.take(
            r.len() as int,
        );
    assert(all.to_multiset().len() == found.to_multiset().len());
    assert(all.len() == found.len());
    if max is None {
        assert(all.take(r.len() as int) =~= all);
    }
    if 0 <= i < r.len() {
        assert(r[i] == all[i]);
        assert(all.contains(all[i]));
        assert(all.to_multiset().count(all[i]) > 0);
        assert(found.contains(all[i]));
    }
    if 0 <= i < r.len() - 1 {
        assert(r[i].before(&r[i + 1]));
    }
}

/// The matches of a search are in the order of their files, and within a file in that of
/// their lines.
pub proof fn matches_are_ordered_by_file_and_line(a: SearchMatch, b: SearchMatch)
    ensures
        a.file@ == b.file@ ==> (a.before(&b) <==> a.line_number <= b.line_number),
        paths::components(a.file@) != paths::components(b.file@) ==> (a.before(&b)
            <==> paths::path_le(a.file@, b.file@)),
{
}

/// An error says what kind it is and what went wrong.
pub proof fn errors_say_what_went_wrong(m: String, span: Span)
    ensures
        error_text(SearchError::InvalidPattern(m)) == "invalid pattern: "@ + m@,
        error_text(SearchError::IoError(m)) == "I/O error: "@ + m@,
        error_text(SearchError::CommandFailed(m)) == "command failed: "@ + m@,
        error_text(SearchError::Timeout(span)) == "timed out after "@ + span_shown(
            span.secs,
            span.nanos,
        ),
{
}

/// The walk for a pattern starts at its literal components, seen from the directory. Hidden
/// files are walked where they are asked for, where ignore rules are left out, or where the
/// pattern names one.
pub proof fn globs_are_planned_by_their_pattern(
    pattern: &str,
    base_dir: &str,
    opts: &GlobOptions,
    r: Result<GlobPlan, SearchError>,
)
    requires
        call_ensures(plan_glob, (pattern, base_dir, opts), r),
        r is Ok,
    ensures
        ({
            let plan = r->Ok_0;
            let full = paths::joined_path(base_dir@, pattern@);
            &&& Some(glob_members(plan.matcher)) == glob_language(full, true)
            &&& plan.root@ == prefix_of(full)
            &&& opts.hidden ==> plan.hidden
            &&& opts.no_ignore ==> plan.hidden && plan.no_ignore
            &&& names_hidden(pattern@) ==> plan.hidden
            &&& !opts.hidden && !opts.no_ignore && !names_hidden(pattern@) ==> !plan.hidden
            &&& !opts.no_ignore ==> !plan.no_ignore
            &&& plan.max_results == opts.max_results
            &&& plan.deadline == opts.deadline
        }),
{
}

/// A search for a regex is planned with its case sensitivity, line by line, over text files
/// and with the filter of the options.
pub proof fn searches_are_planned_by_their_options(
    pattern: &str,
    path: &str,
    opts: &GrepOptions,
    r: Result<GrepPlan, SearchError>,
)
    requires
        call_ensures(plan_grep, (pattern, path, opts), r),
        r is Ok,
    ensures
        ({
            let plan = r->Ok_0;
            &&& Some(regex_members(plan.matcher)) == regex_language(
                pattern@,
                opts.case_insensitive,
                10u8,
            )
            &&& opts.glob_filter is Some ==> plan.filter is Some && Some(
                filter_members(plan.filter->0),
            ) == filter_language(path@, opts.glob_filter->0@)
            &&& opts.glob_filter is None ==> plan.filter is None
            &&& opts.hidden || opts.no_ignore ==> plan.hidden
            &&& !opts.hidden && !opts.no_ignore ==> !plan.hidden
            &&& plan.no_ignore == opts.no_ignore
            &&& plan.binary_mark == 0
            &&& plan.max_results == opts.max_results
        }),
{
}

/// A match names its file, its line and what stands in it.
pub proof fn matches_name_their_line(file: &str, line_number: u64, line: &str, r: SearchMatch)
    requires
        call_ensures(line_match, (file, line_number, line), r),
        line_number <= usize::MAX,
    ensures
        r.file@ == file@,
        r.line_number == line_number,
        r.line_content@ == without_line_end(line@),
{
}

/// What was found in a file counts unless the file could not be read to its end.
pub proof fn files_count_that_were_read(
    walk: &mut GrepWalk,
    max: Option<usize>,
    matches: Vec<SearchMatch>,
    read: WalkState,
    unread: WalkState,
)
    ensures
        call_ensures(GrepWalk::visit, (walk, max, matches, false), read)
            ==> final(walk).found@ == old(walk).found@ + matches@,
        call_ensures(GrepWalk::visit, (walk, max, matches, true), unread) ==> final(walk).found@
            == old(walk).found@ && unread == WalkState::Continue,
{
    if call_ensures(GrepWalk::visit, (walk, max, matches, false), read) && matches@.len() == 0 {
        assert(old(walk).found@ + matches@ =~= old(walk).found@);
    }
}

} // verus!
