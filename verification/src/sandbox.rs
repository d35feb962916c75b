//! What the sandbox back ends share: requests and their output, shell quoting,
//! names and time limits.

use crate::search;
use crate::search::Span;
use crate::text;
use vstd::prelude::*;
use vstd::string::*;

verus! {

/// The prefix of the names that sandboxes have on a server.
pub const NAME_PREFIX: &'static str = "cersei-vm-";

/// How long a command may take that names no limit, in seconds.
pub const DEFAULT_TIMEOUT_SECS: u64 = 120;

/// How long a command may take at most, in seconds.
pub const MAX_TIMEOUT_SECS: u64 = 600;

/// Why an operation on a sandbox failed.
#[derive(Clone, Debug, PartialEq, Eq)]
pub enum VmError {
    Invalid(String),
    NotFound(String),
    Timeout(Span),
    Backend { backend: String, message: String },
    Snapshot(String),
    Lifecycle(String),
    Io(String),
}

/// The error by its texts.
#[verifier::ext_equal]
pub ghost enum VmFailure {
    Invalid(Seq<char>),
    NotFound(Seq<char>),
    Timeout(Span),
    Backend { backend: Seq<char>, message: Seq<char> },
    Snapshot(Seq<char>),
    Lifecycle(Seq<char>),
    Io(Seq<char>),
}

impl View for VmError {
    type V = VmFailure;

    open spec fn view(&self) -> VmFailure {
        match self {
            VmError::Invalid(m) => VmFailure::Invalid(m@),
            VmError::NotFound(m) => VmFailure::NotFound(m@),
            VmError::Timeout(s) => VmFailure::Timeout(*s),
            VmError::Backend { backend, message } => VmFailure::Backend {
                backend: backend@,
                message: message@,
            },
            VmError::Snapshot(m) => VmFailure::Snapshot(m@),
            VmError::Lifecycle(m) => VmFailure::Lifecycle(m@),
            VmError::Io(m) => VmFailure::Io(m@),
        }
    }
}

/// An error of a back end.
pub fn backend_error(backend: &str, message: String) -> (r: VmError)
    ensures
        r@ == (VmFailure::Backend { backend: backend@, message: message@ }),
{
    VmError::Backend { backend: backend.to_string(), message }
}

/// The state of a sandbox.
#[derive(Clone, Copy, Debug, PartialEq, Eq, Structural)]
pub enum SandboxStatus {
    Creating,
    Running,
    Paused,
    Exited,
    Killed,
    Failed,
}

/// What a back end can do.
#[derive(Clone, Copy, Debug, PartialEq, Eq, Structural)]
pub struct RuntimeCaps {
    pub snapshots: bool,
    pub pause_resume: bool,
    pub gpu: bool,
    pub network_isolation: bool,
    pub shared_volumes: bool,
    pub remote: bool,
}

/// A limit of processors: a whole number, or a fraction more.
#[derive(Clone, Copy, Debug, PartialEq, Eq, Structural)]
pub struct CpuLimit {
    pub whole: u32,
    pub fraction: bool,
}

impl CpuLimit {
    /// The limit rounded up, and at least one.
    pub open spec fn rounded(self) -> u32 {
        if self.fraction && self.whole < u32::MAX {
            (self.whole + 1) as u32
        } else if self.whole == 0 {
            1
        } else {
            self.whole
        }
    }

    /// The limit rounded up, and at least one.
    pub fn processors(self) -> (r: u32)
        ensures
            r == self.rounded(),
    {
        if self.fraction && self.whole < u32::MAX {
            self.whole + 1
        } else if self.whole == 0 {
            1
        } else {
            self.whole
        }
    }
}

/// Names with values, by their texts.
pub open spec fn pairs_view(p: Seq<(String, String)>) -> Seq<(Seq<char>, Seq<char>)> {
    Seq::new(p.len(), |i: int| (p[i].0@, p[i].1@))
}

/// How a sandbox is to be made.
#[derive(Clone, Debug, PartialEq, Eq)]
pub struct SandboxOpts {
    pub image: String,
    pub env: Vec<(String, String)>,
    pub labels: Vec<(String, String)>,
    pub workdir: Option<String>,
    pub volumes: Vec<String>,
    pub mem_limit: Option<u64>,
    pub cpu_limit: Option<CpuLimit>,
    pub from_snapshot: Option<String>,
}

/// A command to run in a sandbox.
#[derive(Clone, Debug, PartialEq, Eq)]
pub struct RunRequest {
    pub command: String,
    pub env: Vec<(String, String)>,
    pub workdir: Option<String>,
    pub timeout: Option<Span>,
    pub background: bool,
}

/// What a command gave back.
#[derive(Clone, Debug, PartialEq, Eq)]
pub struct RunOutput {
    pub stdout: String,
    pub stderr: String,
    pub exit_code: i32,
    pub timed_out: bool,
    pub pid: Option<u32>,
}

#[verifier::ext_equal]
pub ghost struct OutputView {
    pub stdout: Seq<char>,
    pub stderr: Seq<char>,
    pub exit_code: i32,
    pub timed_out: bool,
    pub pid: Option<u32>,
}

impl View for RunOutput {
    type V = OutputView;

    open spec fn view(&self) -> OutputView {
        OutputView {
            stdout: self.stdout@,
            stderr: self.stderr@,
            exit_code: self.exit_code,
            timed_out: self.timed_out,
            pid: self.pid,
        }
    }
}

/// A piece of the output of a command as it runs.
#[derive(Clone, Debug, PartialEq, Eq)]
pub enum StreamChunk {
    Started { pid: u32 },
    Stdout { data: String },
    Stderr { data: String },
    Exit { code: i32 },
    Error { message: String },
}

/// What an entry of a directory is.
#[derive(Clone, Copy, Debug, PartialEq, Eq, Structural)]
pub enum FileKind {
    File,
    Dir,
    Symlink,
}

/// An entry of a directory.
#[derive(Clone, Debug, PartialEq, Eq)]
pub struct FileEntry {
    pub path: String,
    pub kind: FileKind,
    pub size: u64,
    pub modified_unix_ms: i64,
}

#[verifier::ext_equal]
pub ghost struct EntryView {
    pub path: Seq<char>,
    pub kind: FileKind,
    pub size: u64,
    pub modified_unix_ms: i64,
}

impl View for FileEntry {
    type V = EntryView;

    open spec fn view(&self) -> EntryView {
        EntryView {
            path: self.path@,
            kind: self.kind,
            size: self.size,
            modified_unix_ms: self.modified_unix_ms,
        }
    }
}

/// The views of a list of entries.
pub open spec fn entries_view(s: Seq<FileEntry>) -> Seq<EntryView> {
    Seq::new(s.len(), |i: int| s[i]@)
}

// ─── Time limits ─────────────────────────────────────────────────────────────

/// The time limit of a request, in nanoseconds: its own or the default, and never
/// more than the maximum.
pub open spec fn time_limit(timeout: Option<Span>) -> int {
    let wanted = match timeout {
        Some(t) => t.total(),
        None => DEFAULT_TIMEOUT_SECS * 1_000_000_000,
    };
    if wanted <= MAX_TIMEOUT_SECS * 1_000_000_000 {
        wanted
    } else {
        MAX_TIMEOUT_SECS * 1_000_000_000
    }
}

/// The time limit of a request.
pub fn effective_timeout(timeout: Option<Span>) -> (r: Span)
    requires
        search::deadline_normal(timeout),
    ensures
        r.total() == time_limit(timeout),
        r.normal(),
{
    let wanted = match timeout {
        Some(t) => t,
        None => Span { secs: DEFAULT_TIMEOUT_SECS, nanos: 0 },
    };
    wanted.shorter(Span { secs: MAX_TIMEOUT_SECS, nanos: 0 })
}

/// The output of a command that took too long.
pub fn timed_out_output(timeout: Span) -> (r: RunOutput)
    requires
        timeout.normal(),
    ensures
        r@ == (OutputView {
            stdout: Seq::empty(),
            stderr: "timeout after "@ + search::span_shown(timeout.secs, timeout.nanos),
            exit_code: (-1) as i32,
            timed_out: true,
            pid: None,
        }),
{
    let shown = search::show_span(timeout.secs, timeout.nanos);
    RunOutput {
        stdout: String::new(),
        stderr: text::cat("timeout after ", shown.as_str()),
        exit_code: -1,
        timed_out: true,
        pid: None,
    }
}

// ─── Shell ───────────────────────────────────────────────────────────────────

/// A text inside single quotes: a single quote in it closes them, stands behind a
/// backslash, and opens them again.
pub open spec fn escaped(s: Seq<char>) -> Seq<char>
    decreases s.len(),
{
    if s.len() == 0 {
        Seq::empty()
    } else if s[0] == '\'' {
        seq!['\'', '\\', '\'', '\''] + escaped(s.skip(1))
    } else {
        seq![s[0]] + escaped(s.skip(1))
    }
}

/// A text as one word of a shell command.
pub open spec fn quoted(s: Seq<char>) -> Seq<char> {
    seq!['\''] + escaped(s) + seq!['\'']
}

/// Quotes a text for `sh -c`.
pub fn quote(s: &str) -> (r: String)
    ensures
        r@ == quoted(s@),
{
    let v = text::chars_of(s);
    let mut out = String::new();
    out.push('\'');
    let mut i: usize = 0;
    assert(v@.skip(0) =~= v@);
    assert(out@ + escaped(v@.skip(0)) =~= seq!['\''] + escaped(s@));
    while i < v.len()
        invariant
            i <= v@.len(),
            out@ + escaped(v@.skip(i as int)) == seq!['\''] + escaped(s@),
        decreases v@.len() - i,
    {
        let ghost before = out@;
        let ghost rest = v@.skip(i as int);
        assert(rest.skip(1) =~= v@.skip(i + 1));
        let c: char = v[i];
        if c == '\'' {
            out.push('\'');
            out.push('\\');
            out.push('\'');
            out.push('\'');
            assert(out@ =~= before + seq!['\'', '\\', '\'', '\'']);
            assert(out@ + escaped(rest.skip(1)) =~= before + (seq!['\'', '\\', '\'', '\'']
                + escaped(rest.skip(1))));
        } else {
            out.push(c);
            assert(out@ + escaped(rest.skip(1)) =~= before + (seq![c] + escaped(rest.skip(1))));
        }
        i = i + 1;
    }
    assert(out@ =~= seq!['\''] + escaped(s@));
    out.push('\'');
    assert(out@ =~= quoted(s@));
    out
}

/// The value of a shell word that is made of single-quoted parts and of characters
/// behind a backslash; nothing for any other word.
pub open spec fn word_value(w: Seq<char>, inside: bool) -> Option<Seq<char>>
    decreases w.len(),
{
    if w.len() == 0 {
        if inside {
            None
        } else {
            Some(Seq::empty())
        }
    } else if inside {
        if w[0] == '\'' {
            word_value(w.skip(1), false)
        } else {
            match word_value(w.skip(1), true) {
                Some(v) => Some(seq![w[0]] + v),
                None => None,
            }
        }
    } else if w[0] == '\'' {
        word_value(w.skip(1), true)
    } else if w[0] == '\\' && w.len() >= 2 {
        match word_value(w.skip(2), false) {
            Some(v) => Some(seq![w[1]] + v),
            None => None,
        }
    } else {
        None
    }
}

proof fn lemma_escaped_value(s: Seq<char>)
    ensures
        word_value(escaped(s) + seq!['\''], true) == Some(s),
    decreases s.len(),
{
    let end = seq!['\''];
    let w = escaped(s) + end;
    if s.len() == 0 {
        assert(w[0] == '\'');
        assert(w.skip(1) =~= Seq::<char>::empty());
        assert(word_value(w.skip(1), false) == Some(Seq::<char>::empty()));
        assert(s =~= Seq::<char>::empty());
    } else {
        let rest = s.skip(1);
        lemma_escaped_value(rest);
        let tail = escaped(rest) + end;
        assert(s =~= seq![s[0]] + rest);
        if s[0] == '\'' {
            let q = seq!['\'', '\\', '\'', '\''];
            assert(w =~= q + tail);
            let w1 = w.skip(1);
            let w3 = w1.skip(2);
            let w4 = w3.skip(1);
            assert(w1[0] == '\\' && w1[1] == '\'');
            assert(w3[0] == '\'');
            assert(w4 =~= tail);
            assert(word_value(w4, true) == Some(rest));
            assert(word_value(w3, false) == Some(rest));
            assert(word_value(w1, false) == Some(seq!['\''] + rest));
            assert(word_value(w, true) == Some(seq!['\''] + rest));
        } else {
            assert(w =~= seq![s[0]] + tail);
            assert(w[0] == s[0]);
            assert(w.skip(1) =~= tail);
            assert(word_value(w, true) == Some(seq![s[0]] + rest));
        }
    }
}

/// The shell undoes the quoting: a quoted text is one word, and its value is the
/// text.
pub proof fn shell_undoes_quoting(s: Seq<char>)
    ensures
        word_value(quoted(s), false) == Some(s),
{
    lemma_escaped_value(s);
    assert(quoted(s).skip(1) =~= escaped(s) + seq!['\'']);
    assert(quoted(s)[0] == '\'');
}

/// The script that runs a command in the background and prints its process id.
pub open spec fn detached(command: Seq<char>) -> Seq<char> {
    "nohup sh -c "@ + quoted(command) + " >/dev/null 2>&1 & echo $!"@
}

/// The script that runs a command in the background.
pub fn detach_script(command: &str) -> (r: String)
    ensures
        r@ == detached(command@),
{
    let q = quote(command);
    text::cat3("nohup sh -c ", q.as_str(), " >/dev/null 2>&1 & echo $!")
}

/// The process id that a text holds.
pub open spec fn pid_in(s: Seq<char>) -> Option<u32> {
    match text::number_in(text::trimmed(s), u32::MAX as nat) {
        Some(n) => Some(n as u32),
        None => None,
    }
}

/// The output of a command that was started in the background: its process id is
/// what the script printed.
pub fn background_output(stdout: &str, stderr: String, exit_code: i32) -> (r: RunOutput)
    ensures
        r@ == (OutputView {
            stdout: Seq::empty(),
            stderr: stderr@,
            exit_code,
            timed_out: false,
            pid: pid_in(stdout@),
        }),
{
    let t = text::trim(stdout);
    let pid = match text::parse_number(t.as_str(), u32::MAX as u64) {
        Some(n) => Some(n as u32),
        None => None,
    };
    RunOutput { stdout: String::new(), stderr, exit_code, timed_out: false, pid }
}

/// A signed number in decimal.
pub open spec fn signed_decimal(n: int) -> Seq<char> {
    if n < 0 {
        "-"@ + text::decimal((-n) as nat)
    } else {
        text::decimal(n as nat)
    }
}

/// Appends a signed number in decimal.
pub fn push_signed(s: &mut String, n: i32)
    ensures
        final(s)@ == old(s)@ + signed_decimal(n as int),
{
    let wide: i64 = n as i64;
    if wide < 0 {
        s.append("-");
        text::push_decimal(s, (-wide) as u64);
        assert(s@ =~= old(s)@ + signed_decimal(n as int));
    } else {
        text::push_decimal(s, wide as u64);
    }
}

/// The command that sends a signal.
pub open spec fn kill_text(signal: i32, pid: u32) -> Seq<char> {
    "kill -"@ + signed_decimal(signal as int) + " "@ + text::decimal(pid as nat)
}

/// The command that sends a signal to a process.
pub fn kill_command(signal: i32, pid: u32) -> (r: String)
    ensures
        r@ == kill_text(signal, pid),
{
    let mut s = "kill -".to_string();
    push_signed(&mut s, signal);
    s.append(" ");
    text::push_decimal(&mut s, pid as u64);
    s
}

/// Whether a signal was sent: an error where the command failed.
pub fn signal_outcome(signal: i32, pid: u32, succeeded: bool, stderr: &str) -> (r: Result<
    (),
    VmError,
>)
    ensures
        succeeded ==> r is Ok,
        !succeeded ==> (r matches Err(e) && e@ == VmFailure::Lifecycle(
            kill_text(signal, pid) + ": "@ + text::trimmed(stderr@),
        )),
{
    if succeeded {
        return Ok(());
    }
    let command = kill_command(signal, pid);
    let t = text::trim(stderr);
    Err(VmError::Lifecycle(text::cat3(command.as_str(), ": ", t.as_str())))
}

// ─── Names ───────────────────────────────────────────────────────────────────

/// The name of a sandbox on the server: its id with the prefix, which a full name
/// already has.
pub open spec fn name_of(id: Seq<char>) -> Seq<char> {
    if (NAME_PREFIX@).is_prefix_of(id) {
        id
    } else {
        NAME_PREFIX@ + id
    }
}

/// The id of a sandbox by its name on the server.
pub open spec fn id_of(name: Seq<char>) -> Seq<char> {
    match text::after_prefix(name, NAME_PREFIX@) {
        Some(id) => id,
        None => name,
    }
}

/// The name of a sandbox on the server.
pub fn server_name(id: &str) -> (r: String)
    ensures
        r@ == name_of(id@),
{
    if text::starts_with(id, NAME_PREFIX) {
        id.to_string()
    } else {
        text::cat(NAME_PREFIX, id)
    }
}

/// The name of a new sandbox.
pub fn new_server_name(id: &str) -> (r: String)
    ensures
        r@ == NAME_PREFIX@ + id@,
{
    text::cat(NAME_PREFIX, id)
}

/// The id of a sandbox by its name on the server.
pub fn sandbox_id(name: &str) -> (r: String)
    ensures
        r@ == id_of(name@),
{
    match text::strip_prefix(name, NAME_PREFIX) {
        Some(id) => id,
        None => name.to_string(),
    }
}

/// A bare id is found again by the name it has on the server.
pub proof fn names_lead_back_to_ids(id: Seq<char>)
    requires
        !(NAME_PREFIX@).is_prefix_of(id),
    ensures
        id_of(name_of(id)) == id,
{
    let name = NAME_PREFIX@ + id;
    assert(name.subrange(0, NAME_PREFIX@.len() as int) =~= NAME_PREFIX@);
    assert(name.skip(NAME_PREFIX@.len() as int) =~= id);
}

/// The error for a sandbox with volume mounts, which no remote back end supports.
pub fn reject_volumes(backend: &str, opts: &SandboxOpts) -> (r: Result<(), VmError>)
    ensures
        opts.volumes@.len() == 0 ==> r is Ok,
        opts.volumes@.len() > 0 ==> (r matches Err(e) && e@ == VmFailure::Invalid(
            backend@ + " backend does not support volume mounts"@,
        )),
{
    if opts.volumes.len() == 0 {
        Ok(())
    } else {
        Err(VmError::Invalid(text::cat(backend, " backend does not support volume mounts")))
    }
}

/// The error for an upload of a directory.
pub fn reject_directory(backend: &str, local: &str, is_dir: bool) -> (r: Result<(), VmError>)
    ensures
        !is_dir ==> r is Ok,
        is_dir ==> (r matches Err(e) && e@ == VmFailure::Invalid(
            backend@ + " upload supports files only, "@ + local@ + " is a directory"@,
        )),
{
    if !is_dir {
        return Ok(());
    }
    let mut s = text::cat(backend, " upload supports files only, ");
    s.append(local);
    s.append(" is a directory");
    Err(VmError::Invalid(s))
}

/// The error for watching files, which no remote back end does.
pub fn watch_unsupported(backend: &str) -> (r: VmError)
    ensures
        r@ == VmFailure::Lifecycle("watch not implemented for "@ + backend@ + " backend"@),
{
    VmError::Lifecycle(text::cat3("watch not implemented for ", backend, " backend"))
}

/// The error for a variable that is not set.
pub fn variable_missing(name: &str) -> (r: VmError)
    ensures
        r@ == VmFailure::Invalid(name@ + " is not set"@),
{
    VmError::Invalid(text::cat(name, " is not set"))
}

// ─── Laws ────────────────────────────────────────────────────────────────────

/// Processors are whole: a fraction counts as one more, and there is at least one.
pub proof fn processors_are_rounded_up(limit: CpuLimit)
    ensures
        limit.rounded() >= 1,
        limit.rounded() >= limit.whole,
        !limit.fraction && limit.whole >= 1 ==> limit.rounded() == limit.whole,
        limit.fraction && limit.whole < u32::MAX ==> limit.rounded() == limit.whole + 1,
        !limit.fraction && limit.whole == 0 ==> limit.rounded() == 1,
{
}

/// A request has the time that it asks for, two minutes where it does not ask, and ten
/// minutes at the most.
pub proof fn requests_have_the_time_they_ask_for(span: Span)
    ensures
        time_limit(None) == 120_000_000_000,
        span.secs * 1_000_000_000 + span.nanos <= 600_000_000_000 ==> time_limit(Some(span))
            == span.secs * 1_000_000_000 + span.nanos,
        span.secs * 1_000_000_000 + span.nanos > 600_000_000_000 ==> time_limit(Some(span))
            == 600_000_000_000,
{
}

/// A command in the background is handed to a shell as one word, whose value is the
/// command.
pub proof fn background_commands_are_one_word(command: Seq<char>)
    ensures
        exists|word: Seq<char>| #[trigger]
            word_value(word, false) == Some(command) && detached(command) == "nohup sh -c "@ + word
                + " >/dev/null 2>&1 & echo $!"@,
{
    shell_undoes_quoting(command);
    assert(word_value(quoted(command), false) == Some(command));
}

/// A process id that a script prints is read back, whatever white space stands around it.
pub proof fn printed_process_ids_are_read(pid: u32, before: Seq<char>, behind: Seq<char>)
    requires
        forall|i: int| 0 <= i < before.len() ==> text::white(#[trigger] before[i]),
        forall|i: int| 0 <= i < behind.len() ==> text::white(#[trigger] behind[i]),
    ensures
        pid_in(before + text::decimal(pid as nat) + behind) == Some(pid),
{
    let digits = text::decimal(pid as nat);
    let s = before + digits + behind;
    text::decimals_read_back(pid as nat);
    text::numbers_are_read_as_they_are_written(pid as nat, u32::MAX as nat);
    text::blanks_are_white();
    assert(!text::white(digits[0]) && !text::white(digits[digits.len() - 1]));
    let n = text::trimming_takes_off_white_space(s);
    let t = text::trimmed(s);
    let a = before.len() as int;
    let b = a + digits.len();
    assert(s[a] == digits[0]);
    assert(s[b - 1] == digits[digits.len() - 1]);
    assert(n <= a);
    assert(b <= n + t.len());
    if n < a {
        assert(s[n] == before[n]);
        assert(t[0] == s[n]);
    }
    if b < n + t.len() {
        let last = n + t.len() - 1;
        assert(s[last] == behind[last - b]);
        assert(t[t.len() - 1] == s[last]);
    }
    assert(t =~= digits);
}

/// A signal is sent by its number to the process.
pub proof fn signals_are_sent_by_their_numbers(signal: i32, pid: u32)
    requires
        signal >= 0,
    ensures
        kill_text(signal, pid) == "kill -"@ + text::decimal(signal as nat) + " "@ + text::decimal(
            pid as nat,
        ),
{
}

/// A name on the server has the prefix, once.
pub proof fn names_have_the_prefix_once(id: Seq<char>)
    ensures
        "cersei-vm-"@.is_prefix_of(name_of(id)),
        name_of(name_of(id)) == name_of(id),
        !"cersei-vm-"@.is_prefix_of(id) ==> name_of(id) == "cersei-vm-"@ + id,
        id_of("cersei-vm-"@ + id) == id,
        !"cersei-vm-"@.is_prefix_of(id) ==> id_of(id) == id,
{
    let p = "cersei-vm-"@;
    let name = p + id;
    assert(name.subrange(0, p.len() as int) =~= p);
    assert(name.skip(p.len() as int) =~= id);
}

/// A negative number is written with its sign.
pub proof fn negative_numbers_have_their_sign(n: nat)
    ensures
        signed_decimal(n as int) == text::decimal(n),
        n > 0 ==> signed_decimal(-(n as int)) == seq!['-'] + text::decimal(n),
{
    reveal_strlit("-");
    assert("-"@ =~= seq!['-']);
}

/// A command that took too long failed, and says for how long it ran.
pub proof fn long_commands_fail(timeout: Span, r: RunOutput)
    requires
        call_ensures(timed_out_output, (timeout,), r),
    ensures
        r.timed_out,
        r.exit_code == -1,
        r.stdout@.len() == 0,
        r.stderr@ == "timeout after "@ + search::span_shown(timeout.secs, timeout.nanos),
        r.pid is None,
{
}

/// A command in the background has the process id that its script printed, and no output of
/// its own.
pub proof fn background_commands_have_their_process_id(
    stdout: &str,
    stderr: String,
    exit_code: i32,
    r: RunOutput,
)
    requires
        call_ensures(background_output, (stdout, stderr, exit_code), r),
    ensures
        r.pid == pid_in(stdout@),
        r.stdout@.len() == 0,
        r.stderr@ == stderr@,
        r.exit_code == exit_code,
        !r.timed_out,
{
}

} // verus!
