//! Paths as texts with `/` between their components.

use crate::sort;
use crate::sort::Ordered;
use crate::text;
use vstd::prelude::*;
use vstd::string::*;

verus! {

/// A path from the root.
pub open spec fn absolute(path: Seq<char>) -> bool {
    path.len() > 0 && path[0] == '/'
}

/// The pieces of a path that count as components: none that is empty, and no "."
/// but at the start of a relative path.
pub open spec fn kept(parts: Seq<Seq<char>>, relative: bool) -> Seq<Seq<char>>
    decreases parts.len(),
{
    if parts.len() == 0 {
        Seq::empty()
    } else {
        let before = kept(parts.drop_last(), relative);
        let p = parts.last();
        if p.len() == 0 || (p == "."@ && !(relative && parts.len() == 1)) {
            before
        } else {
            before.push(p)
        }
    }
}

/// The components of a path; the first of an absolute path is "/".
pub open spec fn components(path: Seq<char>) -> Seq<Seq<char>> {
    let k = kept(text::pieces(path, '/'), !absolute(path));
    if absolute(path) {
        seq!["/"@] + k
    } else {
        k
    }
}

/// The path with these components.
pub open spec fn assembled(parts: Seq<Seq<char>>) -> Seq<char> {
    if parts.len() > 0 && parts[0] == "/"@ {
        "/"@ + text::joined(parts.skip(1), "/"@)
    } else {
        text::joined(parts, "/"@)
    }
}

/// `path` seen from `base`: an absolute path replaces the base.
pub open spec fn joined_path(base: Seq<char>, path: Seq<char>) -> Seq<char> {
    if absolute(path) || base.len() == 0 {
        path
    } else if base.last() == '/' {
        base + path
    } else {
        base + "/"@ + path
    }
}

/// A piece of a path that leads nowhere.
pub open spec fn idle(piece: Seq<char>) -> bool {
    piece.len() == 0 || piece == "."@
}

/// The pieces up to the last that leads somewhere. The "." at the start of a relative path
/// stays.
pub open spec fn without_idle_end(parts: Seq<Seq<char>>, relative: bool) -> Seq<Seq<char>>
    decreases parts.len(),
{
    if parts.len() > 0 && idle(parts.last()) && !(relative && parts.len() == 1 && parts.last()
        == "."@) {
        without_idle_end(parts.drop_last(), relative)
    } else {
        parts
    }
}

/// The pieces of a path after its root.
pub open spec fn body_of(path: Seq<char>) -> Seq<Seq<char>> {
    if absolute(path) {
        text::pieces(path, '/').skip(1)
    } else {
        text::pieces(path, '/')
    }
}

/// The directory that a path is in: the path as it is written, up to its last component.
/// The root and the empty path have none.
pub open spec fn parent_of(path: Seq<char>) -> Option<Seq<char>> {
    let parts = without_idle_end(body_of(path), !absolute(path));
    if parts.len() == 0 {
        None
    } else {
        let above = text::joined(without_idle_end(parts.drop_last(), !absolute(path)), "/"@);
        Some(
            if absolute(path) {
                "/"@ + above
            } else {
                above
            },
        )
    }
}

/// Whether a path starts at the root.
pub fn is_absolute(path: &str) -> (r: bool)
    ensures
        r == absolute(path@),
{
    let v = text::chars_of(path);
    v.len() > 0 && v[0] == '/'
}

/// `path` seen from `base`.
pub fn join_path(base: &str, path: &str) -> (r: String)
    ensures
        r@ == joined_path(base@, path@),
{
    let v = text::chars_of(base);
    if is_absolute(path) || v.len() == 0 {
        path.to_string()
    } else if v[v.len() - 1] == '/' {
        text::cat(base, path)
    } else {
        text::cat3(base, "/", path)
    }
}

/// Whether a piece of a path leads nowhere.
pub fn is_idle(piece: &str) -> (r: bool)
    ensures
        r == idle(piece@),
{
    text::chars_of(piece).len() == 0 || text::same(piece, ".")
}

/// Where the pieces `parts[lo..hi]` end once idle ones at the end are left out.
fn busy_end(parts: &Vec<String>, lo: usize, hi: usize, relative: bool) -> (r: usize)
    requires
        lo <= hi <= parts@.len(),
    ensures
        lo <= r <= hi,
        text::views(parts@).subrange(lo as int, r as int) == without_idle_end(
            text::views(parts@).subrange(lo as int, hi as int),
            relative,
        ),
{
    let ghost all = text::views(parts@);
    let mut n: usize = hi;
    while n > lo && is_idle(parts[n - 1].as_str()) && !(relative && n - lo == 1 && text::same(
        parts[n - 1].as_str(),
        ".",
    ))
        invariant
            lo <= n <= hi <= parts@.len(),
            all == text::views(parts@),
            without_idle_end(all.subrange(lo as int, hi as int), relative) == without_idle_end(
                all.subrange(lo as int, n as int),
                relative,
            ),
        decreases n,
    {
        assert(all.subrange(lo as int, n as int).last() == parts@[n - 1]@);
        assert(all.subrange(lo as int, n as int).drop_last() =~= all.subrange(lo as int, n - 1));
        n = n - 1;
    }
    proof {
        if n > lo {
            assert(all.subrange(lo as int, n as int).last() == parts@[n - 1]@);
        }
    }
    n
}

/// The directory that a path is in.
pub fn parent_path(path: &str) -> (r: Option<String>)
    ensures
        match r {
            Some(p) => parent_of(path@) == Some(p@),
            None => parent_of(path@) is None,
        },
{
    let parts = text::split(path, '/');
    let ghost all = text::views(parts@);
    let relative = !is_absolute(path);
    let lo: usize = if relative || parts.len() == 0 {
        0
    } else {
        1
    };
    assert(all.subrange(lo as int, all.len() as int) =~= body_of(path@));
    let hi = busy_end(&parts, lo, parts.len(), relative);
    if hi == lo {
        return None;
    }
    assert(all.subrange(lo as int, hi as int).drop_last() =~= all.subrange(lo as int, hi - 1));
    let end = busy_end(&parts, lo, hi - 1, relative);
    let above = text::join_range(&parts, lo, end, "/");
    Some(
        if relative {
            above
        } else {
            text::cat("/", above.as_str())
        },
    )
}

/// The components of a path.
pub fn split_path(path: &str) -> (r: Vec<String>)
    ensures
        text::views(r@) == components(path@),
{
    let relative = !is_absolute(path);
    let parts = text::split(path, '/');
    let ghost all = text::views(parts@);
    let mut out: Vec<String> = Vec::new();
    if !relative {
        out.push("/".to_string());
    }
    let ghost start: Seq<Seq<char>> = if relative {
        Seq::empty()
    } else {
        seq!["/"@]
    };
    assert(text::views(out@) =~= start);
    let mut i: usize = 0;
    assert(start + kept(all.take(0), relative) =~= start);
    while i < parts.len()
        invariant
            i <= parts@.len(),
            all == text::views(parts@),
            text::views(out@) == start + kept(all.take(i as int), relative),
        decreases parts@.len() - i,
    {
        assert(all.take(i + 1).drop_last() =~= all.take(i as int));
        assert(all.take(i + 1).last() == parts@[i as int]@);
        let p = parts[i].as_str();
        let empty = text::chars_of(p).len() == 0;
        if !(empty || (text::same(p, ".") && !(relative && i == 0))) {
            let ghost before = out@;
            out.push(parts[i].clone());
            assert(text::views(out@) =~= text::views(before).push(parts@[i as int]@));
            assert(text::views(out@) =~= start + kept(all.take(i as int), relative).push(
                parts@[i as int]@,
            ));
        }
        i = i + 1;
    }
    assert(all.take(i as int) =~= all);
    out
}

/// The path with the components `parts[..n]`.
pub fn assemble(parts: &Vec<String>, n: usize) -> (r: String)
    requires
        n <= parts@.len(),
    ensures
        r@ == assembled(text::views(parts@).take(n as int)),
{
    let ghost all = text::views(parts@).take(n as int);
    if n > 0 && text::same(parts[0].as_str(), "/") {
        let rest = text::join_range(parts, 1, n, "/");
        assert(text::views(parts@).subrange(1, n as int) =~= all.skip(1));
        text::cat("/", rest.as_str())
    } else {
        let r = text::join_range(parts, 0, n, "/");
        assert(text::views(parts@).subrange(0, n as int) =~= all);
        r
    }
}

/// Where a component stands among components of other kinds: the root, then ".",
/// then "..", then names.
pub open spec fn rank(c: Seq<char>) -> int {
    if c == "/"@ {
        1
    } else if c == "."@ {
        2
    } else if c == ".."@ {
        3
    } else {
        4
    }
}

/// The order of texts, character by character.
pub open spec fn text_le(a: Seq<char>, b: Seq<char>) -> bool
    decreases a.len(),
{
    if a.len() == 0 {
        true
    } else if b.len() == 0 {
        false
    } else if a[0] == b[0] {
        text_le(a.skip(1), b.skip(1))
    } else {
        (a[0] as u32) < (b[0] as u32)
    }
}

/// The order of components.
pub open spec fn component_le(a: Seq<char>, b: Seq<char>) -> bool {
    rank(a) < rank(b) || (rank(a) == rank(b) && text_le(a, b))
}

/// The order of paths, component by component.
pub open spec fn parts_le(a: Seq<Seq<char>>, b: Seq<Seq<char>>) -> bool
    decreases a.len(),
{
    if a.len() == 0 {
        true
    } else if b.len() == 0 {
        false
    } else if a[0] == b[0] {
        parts_le(a.skip(1), b.skip(1))
    } else {
        component_le(a[0], b[0])
    }
}

/// The order of paths.
pub open spec fn path_le(a: Seq<char>, b: Seq<char>) -> bool {
    parts_le(components(a), components(b))
}

proof fn lemma_char_code(a: char, b: char)
    ensures
        a as u32 == b as u32 <==> a == b,
{
}

proof fn lemma_text_le_total(a: Seq<char>, b: Seq<char>)
    ensures
        text_le(a, b) || text_le(b, a),
        text_le(a, b) && text_le(b, a) ==> a == b,
    decreases a.len(),
{
    if a.len() > 0 && b.len() > 0 {
        lemma_char_code(a[0], b[0]);
        if a[0] == b[0] {
            lemma_text_le_total(a.skip(1), b.skip(1));
            if text_le(a, b) && text_le(b, a) {
                assert(a =~= seq![a[0]] + a.skip(1));
                assert(b =~= seq![b[0]] + b.skip(1));
            }
        }
    } else if a.len() == 0 && b.len() == 0 {
        assert(a =~= b);
    }
}

proof fn lemma_text_le_transitive(a: Seq<char>, b: Seq<char>, c: Seq<char>)
    requires
        text_le(a, b),
        text_le(b, c),
    ensures
        text_le(a, c),
    decreases a.len(),
{
    if a.len() > 0 {
        lemma_char_code(a[0], b[0]);
        lemma_char_code(b[0], c[0]);
        lemma_char_code(a[0], c[0]);
        if a[0] == b[0] && b[0] == c[0] {
            lemma_text_le_transitive(a.skip(1), b.skip(1), c.skip(1));
        }
    }
}

proof fn lemma_component_le(a: Seq<char>, b: Seq<char>, c: Seq<char>)
    ensures
        component_le(a, b) || component_le(b, a),
        component_le(a, b) && component_le(b, a) ==> a == b,
        component_le(a, b) && component_le(b, c) ==> component_le(a, c),
{
    lemma_text_le_total(a, b);
    if component_le(a, b) && component_le(b, c) && rank(a) == rank(b) && rank(b) == rank(c) {
        lemma_text_le_transitive(a, b, c);
    }
}

proof fn lemma_parts_le_total(a: Seq<Seq<char>>, b: Seq<Seq<char>>)
    ensures
        parts_le(a, b) || parts_le(b, a),
    decreases a.len(),
{
    if a.len() > 0 && b.len() > 0 {
        if a[0] == b[0] {
            lemma_parts_le_total(a.skip(1), b.skip(1));
        } else {
            lemma_component_le(a[0], b[0], b[0]);
        }
    }
}

pub(crate) proof fn lemma_parts_le_antisymmetric(a: Seq<Seq<char>>, b: Seq<Seq<char>>)
    requires
        parts_le(a, b),
        parts_le(b, a),
    ensures
        a == b,
    decreases a.len(),
{
    if a.len() > 0 && b.len() > 0 {
        lemma_component_le(a[0], b[0], b[0]);
        if a[0] == b[0] {
            lemma_parts_le_antisymmetric(a.skip(1), b.skip(1));
            assert(a =~= seq![a[0]] + a.skip(1));
            assert(b =~= seq![b[0]] + b.skip(1));
        }
    } else {
        assert(a =~= b);
    }
}

proof fn lemma_parts_le_transitive(a: Seq<Seq<char>>, b: Seq<Seq<char>>, c: Seq<Seq<char>>)
    requires
        parts_le(a, b),
        parts_le(b, c),
    ensures
        parts_le(a, c),
    decreases a.len(),
{
    if a.len() > 0 {
        lemma_component_le(a[0], b[0], c[0]);
        lemma_component_le(b[0], a[0], a[0]);
        if a[0] == b[0] && b[0] == c[0] {
            lemma_parts_le_transitive(a.skip(1), b.skip(1), c.skip(1));
        }
    }
}

fn compare_texts(a: &str, b: &str) -> (r: bool)
    ensures
        r == text_le(a@, b@),
{
    let x = text::chars_of(a);
    let y = text::chars_of(b);
    let mut i: usize = 0;
    assert(x@.skip(0) =~= a@);
    assert(y@.skip(0) =~= b@);
    while i < x.len() && i < y.len()
        invariant
            i <= x@.len(),
            i <= y@.len(),
            text_le(a@, b@) == text_le(x@.skip(i as int), y@.skip(i as int)),
        decreases x@.len() - i,
    {
        let c: char = x[i];
        let d: char = y[i];
        proof {
            lemma_char_code(c, d);
            assert(x@.skip(i as int).skip(1) =~= x@.skip(i + 1));
            assert(y@.skip(i as int).skip(1) =~= y@.skip(i + 1));
        }
        if c != d {
            return (c as u32) < (d as u32);
        }
        i = i + 1;
    }
    i == x.len()
}

fn component_rank(c: &str) -> (r: u8)
    ensures
        r == rank(c@),
{
    if text::same(c, "/") {
        1
    } else if text::same(c, ".") {
        2
    } else if text::same(c, "..") {
        3
    } else {
        4
    }
}

/// Whether one path may stand before another.
pub fn path_goes_before(a: &str, b: &str) -> (r: bool)
    ensures
        r == path_le(a@, b@),
{
    let x = split_path(a);
    let y = split_path(b);
    let ghost xs = text::views(x@);
    let ghost ys = text::views(y@);
    let mut i: usize = 0;
    assert(xs.skip(0) =~= xs);
    assert(ys.skip(0) =~= ys);
    while i < x.len() && i < y.len()
        invariant
            i <= x@.len(),
            i <= y@.len(),
            xs == text::views(x@),
            ys == text::views(y@),
            path_le(a@, b@) == parts_le(xs.skip(i as int), ys.skip(i as int)),
        decreases x@.len() - i,
    {
        proof {
            assert(xs.skip(i as int).skip(1) =~= xs.skip(i + 1));
            assert(ys.skip(i as int).skip(1) =~= ys.skip(i + 1));
        }
        let c = x[i].as_str();
        let d = y[i].as_str();
        if !text::same(c, d) {
            let p = component_rank(c);
            let q = component_rank(d);
            return p < q || (p == q && compare_texts(c, d));
        }
        i = i + 1;
    }
    i == x.len()
}

/// A path that was found.
#[derive(Clone, Debug, PartialEq, Eq)]
pub struct FoundPath {
    pub path: String,
}

impl Ordered for FoundPath {
    open spec fn before(&self, other: &FoundPath) -> bool {
        path_le(self.path@, other.path@)
    }

    proof fn before_is_total(a: &FoundPath, b: &FoundPath) {
        lemma_parts_le_total(components(a.path@), components(b.path@));
    }

    proof fn before_is_transitive(a: &FoundPath, b: &FoundPath, c: &FoundPath) {
        lemma_parts_le_transitive(components(a.path@), components(b.path@), components(c.path@));
    }

    fn goes_before(&self, other: &FoundPath) -> (r: bool) {
        path_goes_before(self.path.as_str(), other.path.as_str())
    }
}

/// Whether two paths have the same components.
pub fn same_path(a: &str, b: &str) -> (r: bool)
    ensures
        r == (components(a@) == components(b@)),
{
    let forth = path_goes_before(a, b);
    let back = path_goes_before(b, a);
    proof {
        lemma_parts_le_total(components(a@), components(b@));
        if forth && back {
            lemma_parts_le_antisymmetric(components(a@), components(b@));
        }
    }
    forth && back
}

/// Two paths that may each stand before the other have the same components.
pub proof fn path_order_is_antisymmetric(a: Seq<char>, b: Seq<char>)
    requires
        path_le(a, b),
        path_le(b, a),
    ensures
        components(a) == components(b),
{
    lemma_parts_le_antisymmetric(components(a), components(b));
}

/// The order of paths is total.
pub proof fn path_order_is_total(a: Seq<char>, b: Seq<char>)
    ensures
        path_le(a, b) || path_le(b, a),
{
    lemma_parts_le_total(components(a), components(b));
}

/// The order of paths is transitive.
pub proof fn path_order_is_transitive(a: Seq<char>, b: Seq<char>, c: Seq<char>)
    requires
        path_le(a, b),
        path_le(b, c),
    ensures
        path_le(a, c),
{
    lemma_parts_le_transitive(components(a), components(b), components(c));
}

/// A path seen from a base stands behind it, with one slash between them; a path from the
/// root replaces the base.
pub proof fn paths_are_seen_from_their_base(base: Seq<char>, path: Seq<char>)
    ensures
        path.len() > 0 && path[0] == '/' ==> joined_path(base, path) == path,
        !(path.len() > 0 && path[0] == '/') && base.len() > 0 && base.last() != '/'
            ==> joined_path(base, path) == base + seq!['/'] + path,
        !(path.len() > 0 && path[0] == '/') ==> joined_path(base.push('/'), path) == base
            + seq!['/'] + path,
        joined_path(Seq::empty(), path) == path,
{
    reveal_strlit("/");
    assert("/"@ =~= seq!['/']);
    assert(base.push('/') + path =~= base + seq!['/'] + path);
}

/// The name of something in a directory: not empty, no slash in it, and not ".".
pub open spec fn is_name(c: Seq<char>) -> bool {
    c.len() > 0 && !c.contains('/') && c != seq!['.']
}

proof fn lemma_names_are_kept(parts: Seq<Seq<char>>, relative: bool)
    requires
        forall|i: int| 0 <= i < parts.len() ==> is_name(#[trigger] parts[i]),
    ensures
        kept(parts, relative) == parts,
    decreases parts.len(),
{
    reveal_strlit(".");
    assert("."@ =~= seq!['.']);
    if parts.len() > 0 {
        let before = parts.drop_last();
        assert forall|i: int| 0 <= i < before.len() implies is_name(#[trigger] before[i]) by {
            assert(before[i] == parts[i]);
        }
        lemma_names_are_kept(before, relative);
        assert(is_name(parts[parts.len() - 1]));
        assert(before.push(parts.last()) =~= parts);
    } else {
        assert(kept(parts, relative) =~= parts);
    }
}

proof fn lemma_kept_behind_nothing(parts: Seq<Seq<char>>)
    ensures
        kept(seq![Seq::<char>::empty()] + parts, false) == kept(parts, false),
    decreases parts.len(),
{
    let all = seq![Seq::<char>::empty()] + parts;
    if parts.len() > 0 {
        lemma_kept_behind_nothing(parts.drop_last());
        assert(all.drop_last() =~= seq![Seq::<char>::empty()] + parts.drop_last());
        assert(all.last() == parts.last());
    } else {
        assert(all.drop_last() =~= Seq::<Seq<char>>::empty());
        assert(kept(all.drop_last(), false) =~= Seq::<Seq<char>>::empty());
    }
}

/// A path that is put together out of names has these names as its components, behind the
/// root where it starts there; and it is put together out of its components again.
pub proof fn paths_are_made_of_their_components(names: Seq<Seq<char>>)
    requires
        names.len() > 0,
        forall|i: int| 0 <= i < names.len() ==> is_name(#[trigger] names[i]),
    ensures
        ({
            let path = text::joined(names, seq!['/']);
            &&& components(path) == names
            &&& components(seq!['/'] + path) == seq![seq!['/']] + names
            &&& assembled(names) == path
            &&& assembled(seq![seq!['/']] + names) == seq!['/'] + path
        }),
{
    reveal_strlit("/");
    assert("/"@ =~= seq!['/']);
    let path = text::joined(names, seq!['/']);
    let nothing = Seq::<char>::empty();
    assert forall|i: int| 0 <= i < names.len() implies !(#[trigger] names[i]).contains('/') by {
        assert(is_name(names[i]));
    }
    text::joined_texts_come_apart(names, '/');
    assert(is_name(names[0]));
    if names.len() > 1 {
        assert(seq![names[0]] + names.skip(1) =~= names);
        text::texts_are_joined_in_order(seq![names[0]], names.skip(1), seq!['/']);
    }
    assert(path[0] == names[0][0]);
    assert(names[0].contains(names[0][0]));
    assert(!absolute(path));
    lemma_names_are_kept(names, true);
    lemma_names_are_kept(names, false);
    let rooted = seq![nothing] + names;
    assert forall|i: int| 0 <= i < rooted.len() implies !(#[trigger] rooted[i]).contains('/') by {
        if i > 0 {
            assert(rooted[i] == names[i - 1]);
        }
    }
    text::joined_texts_come_apart(rooted, '/');
    text::texts_are_joined_in_order(seq![nothing], names, seq!['/']);
    assert(text::joined(rooted, seq!['/']) =~= seq!['/'] + path);
    lemma_kept_behind_nothing(names);
    assert(names[0] != "/"@) by {
        assert("/"@[0] == '/');
        assert("/"@.contains('/'));
    }
    assert((seq![seq!['/']] + names).skip(1) =~= names);
}

/// The directory that a file is in is the path that the file's name was put behind.
pub proof fn the_parent_is_what_the_name_stands_behind(dir: Seq<char>, name: Seq<char>)
    requires
        is_name(name),
        dir.len() > 0,
        is_name(text::pieces(dir, '/').last()),
    ensures
        parent_of(dir + seq!['/'] + name) == Some(dir),
{
    reveal_strlit("/");
    reveal_strlit(".");
    assert("/"@ =~= seq!['/']);
    assert("."@ =~= seq!['.']);
    let path = dir + seq!['/'] + name;
    let above = text::pieces(dir, '/');
    text::pieces_join_to_the_text(dir, '/');
    let parts = above.push(name);
    assert(parts =~= above + seq![name]);
    text::texts_are_joined_in_order(above, seq![name], seq!['/']);
    assert forall|i: int| 0 <= i < parts.len() implies !(#[trigger] parts[i]).contains('/') by {
        if i < above.len() {
            assert(parts[i] == above[i]);
        }
    }
    text::joined_texts_come_apart(parts, '/');
    assert(text::pieces(path, '/') == parts);
    assert(path[0] == dir[0]);
    if absolute(path) {
        text::lemma_first_of_at(dir, '/', 0);
        assert(above[0] == dir.take(0));
        assert(above[0] =~= Seq::<char>::empty());
        let body = above.skip(1);
        assert(above.len() > 1);
        assert(parts.skip(1) =~= body.push(name));
        assert(body.push(name).drop_last() =~= body);
        assert(body.last() == above.last());
        assert(above =~= seq![above[0]] + body);
        text::texts_are_joined_in_order(seq![above[0]], body, seq!['/']);
        assert(dir =~= seq!['/'] + text::joined(body, seq!['/']));
    } else {
        assert(parts.drop_last() =~= above);
    }
}

/// Texts are ordered by the first character in which they differ, and a text stands before
/// what it is the beginning of.
pub proof fn texts_are_ordered_by_their_first_difference(
    common: Seq<char>,
    a: Seq<char>,
    b: Seq<char>,
)
    ensures
        text_le(common, common + b),
        a.len() > 0 && b.len() > 0 && a[0] != b[0] ==> (text_le(common + a, common + b) <==> (
        a[0] as u32) < (b[0] as u32)),
        b.len() > 0 ==> !text_le(common + b, common),
    decreases common.len(),
{
    if common.len() > 0 {
        let rest = common.skip(1);
        texts_are_ordered_by_their_first_difference(rest, a, b);
        assert((common + a).skip(1) =~= rest + a);
        assert((common + b).skip(1) =~= rest + b);
    } else {
        assert(common + a =~= a);
        assert(common + b =~= b);
    }
}

/// Paths are ordered by the first component in which they differ, names by their texts, and
/// a directory stands before what is in it.
pub proof fn paths_are_ordered_by_their_first_difference(
    a: Seq<char>,
    b: Seq<char>,
    n: int,
)
    requires
        0 <= n <= components(a).len(),
        n <= components(b).len(),
        forall|i: int| 0 <= i < n ==> #[trigger] components(a)[i] == components(b)[i],
    ensures
        n == components(a).len() ==> path_le(a, b),
        n == components(b).len() && n < components(a).len() ==> !path_le(a, b),
        n < components(a).len() && n < components(b).len() && components(a)[n] != components(b)[n]
            && is_name(components(a)[n]) && is_name(components(b)[n]) && components(a)[n]
            != seq!['.', '.'] && components(b)[n] != seq!['.', '.'] ==> (path_le(a, b) <==> text_le(
            components(a)[n],
            components(b)[n],
        )),
{
    reveal_strlit("/");
    reveal_strlit(".");
    reveal_strlit("..");
    assert("/"@ =~= seq!['/']);
    assert("."@ =~= seq!['.']);
    assert(".."@ =~= seq!['.', '.']);
    assert("/"@[0] == '/');
    assert("/"@.contains('/'));
    lemma_parts_differ(components(a), components(b), n);
}

proof fn lemma_parts_differ(a: Seq<Seq<char>>, b: Seq<Seq<char>>, n: int)
    requires
        0 <= n <= a.len(),
        n <= b.len(),
        forall|i: int| 0 <= i < n ==> #[trigger] a[i] == b[i],
    ensures
        n == a.len() ==> parts_le(a, b),
        n == b.len() && n < a.len() ==> !parts_le(a, b),
        n < a.len() && n < b.len() && a[n] != b[n] ==> (parts_le(a, b) <==> component_le(
            a[n],
            b[n],
        )),
    decreases n,
{
    if n > 0 {
        let x = a.skip(1);
        let y = b.skip(1);
        assert(a[0] == b[0]);
        assert forall|i: int| 0 <= i < n - 1 implies #[trigger] x[i] == y[i] by {
            assert(a[i + 1] == b[i + 1]);
        }
        lemma_parts_differ(x, y, n - 1);
    }
}

} // verus!
