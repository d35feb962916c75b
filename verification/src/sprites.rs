//! The Sprites back end: remote sandboxes, one sprite each.
//!
//! A sprite is an isolated remote machine with a persistent file system and
//! checkpoints. Sprites boot from a fixed image; the environment is given with
//! each command; volumes are not supported; a checkpoint is restored into the
//! sprite that it was taken from.

use crate::paths;
use crate::sandbox;
use crate::sandbox::{
    FileEntry, FileKind, RunRequest, RuntimeCaps, SandboxOpts, SandboxStatus, VmError,
};
use crate::search;
use crate::search::Span;
use crate::text;
use crate::types;
use vstd::prelude::*;
use vstd::string::*;

verus! {

/// The variable that holds the API token.
pub const SPRITES_TOKEN_ENV: &'static str = "SPRITES_TOKEN";

/// The variable that may hold another API address.
pub const SPRITES_BASE_URL_ENV: &'static str = "SPRITES_BASE_URL";

/// The state of a sprite.
#[derive(Clone, Copy, Debug, PartialEq, Eq, Structural)]
pub enum SpriteStatus {
    Cold,
    Warm,
    Running,
    Stopped,
}

/// A failure that the Sprites API reports.
#[derive(Clone, Debug, PartialEq, Eq)]
pub enum SpriteError {
    NotFound(String),
    Timeout,
    /// Any other, with its message.
    Other(String),
}

/// The state of the sandbox of a sprite. A cold or a warm sprite wakes with the
/// next command, so it counts as running.
pub open spec fn status_of(status: SpriteStatus) -> SandboxStatus {
    match status {
        SpriteStatus::Stopped => SandboxStatus::Exited,
        _ => SandboxStatus::Running,
    }
}

/// The state of the sandbox of a sprite.
pub fn map_status(status: SpriteStatus) -> (r: SandboxStatus)
    ensures
        r == status_of(status),
{
    match status {
        SpriteStatus::Cold => SandboxStatus::Running,
        SpriteStatus::Warm => SandboxStatus::Running,
        SpriteStatus::Running => SandboxStatus::Running,
        SpriteStatus::Stopped => SandboxStatus::Exited,
    }
}

/// The error for a failure that the API reports.
pub fn map_sprites_err(e: SpriteError) -> (r: VmError)
    ensures
        r@ == (match e {
            SpriteError::NotFound(name) => sandbox::VmFailure::NotFound(name@),
            SpriteError::Timeout => sandbox::VmFailure::Timeout(
                Span { secs: sandbox::DEFAULT_TIMEOUT_SECS, nanos: 0 },
            ),
            SpriteError::Other(message) => sandbox::VmFailure::Backend {
                backend: "sprites"@,
                message: message@,
            },
        }),
{
    match e {
        SpriteError::NotFound(name) => VmError::NotFound(name),
        SpriteError::Timeout => VmError::Timeout(
            Span { secs: sandbox::DEFAULT_TIMEOUT_SECS, nanos: 0 },
        ),
        SpriteError::Other(message) => sandbox::backend_error("sprites", message),
    }
}

// ─── Pointers to checkpoints ─────────────────────────────────────────────────

/// The pointer to a checkpoint of a sprite.
pub open spec fn pointer_to(sprite: Seq<char>, checkpoint: Seq<char>) -> Seq<char> {
    "sprite="@ + sprite + ";checkpoint="@ + checkpoint
}

/// The value of the last part that begins with `key`.
pub open spec fn last_value(parts: Seq<Seq<char>>, key: Seq<char>) -> Option<Seq<char>>
    decreases parts.len(),
{
    if parts.len() == 0 {
        None
    } else {
        match text::after_prefix(parts.last(), key) {
            Some(v) => Some(v),
            None => last_value(parts.drop_last(), key),
        }
    }
}

/// What a pointer points to: a sprite and a checkpoint, both with a name.
pub open spec fn pointed(pointer: Seq<char>) -> Option<(Seq<char>, Seq<char>)> {
    let parts = text::pieces(pointer, ';');
    match (last_value(parts, "sprite="@), last_value(parts, "checkpoint="@)) {
        (Some(s), Some(c)) => if s.len() > 0 && c.len() > 0 {
            Some((s, c))
        } else {
            None
        },
        _ => None,
    }
}

/// The pointer to a checkpoint of a sprite.
pub fn encode_fs_pointer(sprite_name: &str, checkpoint_id: &str) -> (r: String)
    ensures
        r@ == pointer_to(sprite_name@, checkpoint_id@),
{
    let mut s = "sprite=".to_string();
    s.append(sprite_name);
    s.append(";checkpoint=");
    s.append(checkpoint_id);
    s
}

fn find_value(parts: &Vec<String>, key: &str) -> (r: Option<String>)
    ensures
        types::opt_view(r) == last_value(text::views(parts@), key@),
{
    let ghost all = text::views(parts@);
    let mut i: usize = parts.len();
    assert(all.take(i as int) =~= all);
    while i > 0
        invariant
            i <= parts@.len(),
            all == text::views(parts@),
            last_value(all, key@) == last_value(all.take(i as int), key@),
        decreases i,
    {
        assert(all.take(i as int).drop_last() =~= all.take(i - 1));
        assert(all.take(i as int).last() == parts@[i - 1]@);
        i = i - 1;
        match text::strip_prefix(parts[i].as_str(), key) {
            Some(v) => {
                return Some(v);
            },
            None => {},
        }
    }
    None
}

/// What a pointer points to: the sprite and the checkpoint.
pub fn parse_fs_pointer(pointer: &str) -> (r: Result<(String, String), VmError>)
    ensures
        match pointed(pointer@) {
            Some(p) => r matches Ok(q) && q.0@ == p.0 && q.1@ == p.1,
            None => r matches Err(e) && e@ == sandbox::VmFailure::Snapshot(
                "malformed sprites fs_pointer: "@ + pointer@,
            ),
        },
{
    let parts = text::split(pointer, ';');
    let sprite = find_value(&parts, "sprite=");
    let checkpoint = find_value(&parts, "checkpoint=");
    if let Some(s) = sprite {
        if let Some(c) = checkpoint {
            if text::chars_of(s.as_str()).len() > 0 && text::chars_of(c.as_str()).len() > 0 {
                return Ok((s, c));
            }
        }
    }
    Err(VmError::Snapshot(text::cat("malformed sprites fs_pointer: ", pointer)))
}

/// A pointer leads back to the sprite and the checkpoint that it was made for, as
/// long as they have names and there is no semicolon in them.
pub proof fn pointers_lead_back(sprite: Seq<char>, checkpoint: Seq<char>)
    requires
        sprite.len() > 0,
        checkpoint.len() > 0,
        !sprite.contains(';'),
        !checkpoint.contains(';'),
    ensures
        pointed(pointer_to(sprite, checkpoint)) == Some((sprite, checkpoint)),
{
    let p = pointer_to(sprite, checkpoint);
    let first = "sprite="@ + sprite;
    let second = "checkpoint="@ + checkpoint;
    reveal_strlit("sprite=");
    reveal_strlit("checkpoint=");
    reveal_strlit(";checkpoint=");
    assert(";checkpoint="@ =~= seq![';'] + "checkpoint="@);
    assert(p =~= first + seq![';'] + second);
    let n = first.len() as int;
    assert forall|j: int| 0 <= j < n implies p[j] != ';' by {
        assert(p[j] == first[j]);
        if j >= 7 {
            assert(first[j] == sprite[j - 7]);
            assert(sprite.contains(sprite[j - 7]));
        }
    }
    text::lemma_first_of_at(p, ';', n);
    assert(p.take(n) =~= first);
    assert(p.skip(n + 1) =~= second);
    let m = second.len() as int;
    assert forall|j: int| 0 <= j < m implies second[j] != ';' by {
        if j >= 11 {
            assert(second[j] == checkpoint[j - 11]);
            assert(checkpoint.contains(checkpoint[j - 11]));
        }
    }
    text::lemma_first_of_at(second, ';', m);
    let parts = text::pieces(p, ';');
    assert(text::pieces(second, ';') =~= seq![second]);
    assert(parts =~= seq![first, second]);
    assert(parts.last() == second);
    assert(parts.drop_last() =~= seq![first]);
    assert(parts.drop_last().last() == first);
    assert(first.subrange(0, 7) =~= "sprite="@);
    assert(first.skip(7) =~= sprite);
    assert(second.subrange(0, 11) =~= "checkpoint="@);
    assert(second.skip(11) =~= checkpoint);
    assert(!("sprite="@).is_prefix_of(second)) by {
        assert(second[0] == 'c');
        assert("sprite="@[0] == 's');
        if ("sprite="@).is_prefix_of(second) {
            assert(second.subrange(0, 7)[0] == second[0]);
        }
    }
    assert(last_value(parts.drop_last(), "sprite="@) == Some(sprite));
    assert(last_value(parts, "sprite="@) == Some(sprite));
    assert(last_value(parts, "checkpoint="@) == Some(checkpoint));
}

/// Quotes a text for `sh -c`.
pub fn shell_quote(s: &str) -> (r: String)
    ensures
        r@ == sandbox::quoted(s@),
{
    sandbox::quote(s)
}

// ─── The runtime ─────────────────────────────────────────────────────────────

/// The Sprites runtime, apart from its connection.
#[derive(Clone, Copy, Debug, PartialEq, Eq)]
pub struct SpritesRuntime;

/// What a sprite is made with.
#[derive(Clone, Copy, Debug, PartialEq, Eq, Structural)]
pub struct SpriteSize {
    pub ram_mb: Option<u32>,
    pub cpus: Option<u32>,
}

/// The megabytes of a limit in bytes: rounded down, and at least one. More than a
/// number of 32 bits can hold wraps round.
pub open spec fn megabytes(bytes: u64) -> u32 {
    let m = bytes / 1_048_576;
    if m == 0 {
        1
    } else {
        m as u32
    }
}

impl SpritesRuntime {
    pub fn name(&self) -> (r: &'static str)
        ensures
            r@ == "sprites"@,
    {
        "sprites"
    }

    /// What the back end can do. Sprites hibernate by themselves, so there is no
    /// pause.
    pub fn capabilities(&self) -> (r: RuntimeCaps)
        ensures
            r == (RuntimeCaps {
                snapshots: true,
                pause_resume: false,
                gpu: false,
                network_isolation: true,
                shared_volumes: false,
                remote: true,
            }),
    {
        RuntimeCaps {
            snapshots: true,
            pause_resume: false,
            gpu: false,
            network_isolation: true,
            shared_volumes: false,
            remote: true,
        }
    }

    /// What a sprite is made with for these options.
    pub fn size(&self, opts: &SandboxOpts) -> (r: SpriteSize)
        ensures
            r.ram_mb == (match opts.mem_limit {
                Some(b) => Some(megabytes(b)),
                None => None,
            }),
            r.cpus == (match opts.cpu_limit {
                Some(c) => Some(c.rounded()),
                None => None,
            }),
    {
        SpriteSize {
            ram_mb: match opts.mem_limit {
                Some(b) => {
                    let m: u64 = b / 1_048_576;
                    Some(
                        if m == 0 {
                            1
                        } else {
                            m as u32
                        },
                    )
                },
                None => None,
            },
            cpus: match opts.cpu_limit {
                Some(c) => Some(c.processors()),
                None => None,
            },
        }
    }

    /// What the image of a sandbox is said to be.
    pub fn image(&self, sprite_name: &str) -> (r: String)
        ensures
            r@ == "sprite://"@ + sprite_name@,
    {
        text::cat("sprite://", sprite_name)
    }
}

/// A command as it is handed to the SDK.
#[derive(Clone, Debug, PartialEq, Eq)]
pub struct SpriteCommand {
    pub program: String,
    pub args: Vec<String>,
    pub current_dir: Option<String>,
    pub envs: Vec<(String, String)>,
}

/// The commands of a sandbox: its environment and its working directory.
#[derive(Clone, Debug, PartialEq, Eq)]
pub struct SpritesCommands {
    pub env: Vec<(String, String)>,
    pub workdir: Option<String>,
}

/// What a request comes to.
#[derive(Clone, Debug, PartialEq, Eq)]
pub enum SpriteRun {
    /// A command that leaves a process behind.
    Background(SpriteCommand),
    /// A command with a time limit.
    Foreground(SpriteCommand, Span),
}

/// The directory of a command: that of the request, or that of the sandbox.
pub open spec fn dir_for(request: Option<String>, own: Option<String>) -> Option<Seq<char>> {
    match request {
        Some(w) => Some(w@),
        None => types::opt_view(own),
    }
}

impl SpritesCommands {
    /// The command that runs a script for a request.
    pub open spec fn builds(&self, req: RunRequest, script: Seq<char>, c: SpriteCommand) -> bool {
        &&& c.program@ == "/bin/sh"@
        &&& text::views(c.args@) == seq!["-c"@, script]
        &&& types::opt_view(c.current_dir) == dir_for(req.workdir, self.workdir)
        &&& sandbox::pairs_view(c.envs@) == sandbox::pairs_view(self.env@) + sandbox::pairs_view(
            req.env@,
        )
    }

    /// The command that runs a script for a request. The environment of the
    /// request goes after that of the sandbox.
    pub fn build(&self, req: &RunRequest, shell_cmd: &str) -> (r: SpriteCommand)
        ensures
            self.builds(*req, shell_cmd@, r),
    {
        let mut args: Vec<String> = Vec::new();
        args.push("-c".to_string());
        args.push(shell_cmd.to_string());
        assert(text::views(args@) =~= seq!["-c"@, shell_cmd@]);
        let mut envs: Vec<(String, String)> = Vec::new();
        push_pairs(&mut envs, &self.env);
        push_pairs(&mut envs, &req.env);
        assert(sandbox::pairs_view(envs@) =~= sandbox::pairs_view(self.env@)
            + sandbox::pairs_view(req.env@));
        SpriteCommand {
            program: "/bin/sh".to_string(),
            args,
            current_dir: match &req.workdir {
                Some(w) => Some(w.clone()),
                None => types::copy_opt(&self.workdir),
            },
            envs,
        }
    }

    /// What a request comes to: in the background a script that leaves the process
    /// behind, else the command with its time limit.
    pub fn plan(&self, req: &RunRequest) -> (r: SpriteRun)
        requires
            search::deadline_normal(req.timeout),
        ensures
            if req.background {
                r matches SpriteRun::Background(c) && self.builds(
                    *req,
                    sandbox::detached(req.command@),
                    c,
                )
            } else {
                r matches SpriteRun::Foreground(c, limit) && self.builds(*req, req.command@, c)
                    && limit.total() == sandbox::time_limit(req.timeout) && limit.normal()
            },
    {
        if req.background {
            let script = sandbox::detach_script(req.command.as_str());
            SpriteRun::Background(self.build(req, script.as_str()))
        } else {
            SpriteRun::Foreground(
                self.build(req, req.command.as_str()),
                sandbox::effective_timeout(req.timeout),
            )
        }
    }
}

fn push_pairs(out: &mut Vec<(String, String)>, more: &Vec<(String, String)>)
    ensures
        sandbox::pairs_view(final(out)@) == sandbox::pairs_view(old(out)@) + sandbox::pairs_view(
            more@,
        ),
{
    let ghost start = sandbox::pairs_view(out@);
    let ghost all = sandbox::pairs_view(more@);
    let mut i: usize = 0;
    assert(start + all.take(0) =~= start);
    while i < more.len()
        invariant
            i <= more@.len(),
            all == sandbox::pairs_view(more@),
            sandbox::pairs_view(out@) == start + all.take(i as int),
        decreases more@.len() - i,
    {
        let ghost before = out@;
        let p = &more[i];
        out.push((p.0.clone(), p.1.clone()));
        proof {
            assert(sandbox::pairs_view(out@) =~= sandbox::pairs_view(before).push(all[i as int]));
            assert(all.take(i + 1) =~= all.take(i as int).push(all[i as int]));
            assert(start + all.take(i + 1) =~= (start + all.take(i as int)).push(all[i as int]));
        }
        i = i + 1;
    }
    assert(all.take(i as int) =~= all);
}

// ─── Files ───────────────────────────────────────────────────────────────────

/// The directory that must be there before a file is written: its parent, unless
/// that is the root or the current directory.
pub open spec fn needed_dir(path: Seq<char>) -> Option<Seq<char>> {
    match paths::parent_of(path) {
        Some(p) => if p.len() > 0 && p != "/"@ {
            Some(p)
        } else {
            None
        },
        None => None,
    }
}

/// The directory that must be there before a file is written.
pub fn dir_to_create(path: &str) -> (r: Option<String>)
    ensures
        types::opt_view(r) == needed_dir(path@),
{
    match paths::parent_path(path) {
        Some(parent) => {
            if text::chars_of(parent.as_str()).len() > 0 && !text::same(parent.as_str(), "/") {
                Some(parent)
            } else {
                None
            }
        },
        None => None,
    }
}

/// An entry as the API lists it.
#[derive(Clone, Debug, PartialEq, Eq)]
pub struct ListedEntry {
    pub name: String,
    pub is_dir: bool,
    pub size: u64,
    pub modified_unix_ms: Option<i64>,
}

/// A directory that is still to be listed, and its depth.
#[derive(Clone, Debug, PartialEq, Eq)]
pub struct PendingDir {
    pub path: String,
    pub level: u32,
}

/// The walk through directories, which the API lists one at a time.
#[derive(Clone, Debug, PartialEq, Eq)]
pub struct DirWalk {
    pub depth: u32,
    pub frontier: Vec<PendingDir>,
    pub entries: Vec<FileEntry>,
}

/// The directories still to be listed, by path and depth.
pub open spec fn frontier_view(f: Seq<PendingDir>) -> Seq<(Seq<char>, u32)> {
    Seq::new(f.len(), |i: int| (f[i].path@, f[i].level))
}

/// The entry at a path.
pub open spec fn entry_at(path: Seq<char>, is_dir: bool, size: u64, modified: Option<i64>) -> sandbox::EntryView {
    sandbox::EntryView {
        path,
        kind: if is_dir {
            FileKind::Dir
        } else {
            FileKind::File
        },
        size,
        modified_unix_ms: match modified {
            Some(t) => t,
            None => 0,
        },
    }
}

/// The entries of a listing, under its directory.
pub open spec fn listed_entries(dir: Seq<char>, listed: Seq<ListedEntry>) -> Seq<
    sandbox::EntryView,
> {
    Seq::new(
        listed.len(),
        |i: int|
            entry_at(
                paths::joined_path(dir, listed[i].name@),
                listed[i].is_dir,
                listed[i].size,
                listed[i].modified_unix_ms,
            ),
    )
}

/// The directories of a listing that are listed in turn: none below the depth.
pub open spec fn deeper(dir: Seq<char>, level: u32, depth: u32, listed: Seq<ListedEntry>) -> Seq<
    (Seq<char>, u32),
>
    decreases listed.len(),
{
    if listed.len() == 0 {
        Seq::empty()
    } else {
        let before = deeper(dir, level, depth, listed.drop_last());
        let e = listed.last();
        let limit = if depth == 0 {
            1u32
        } else {
            depth
        };
        if e.is_dir && level < limit {
            before.push((paths::joined_path(dir, e.name@), (level + 1) as u32))
        } else {
            before
        }
    }
}

impl DirWalk {
    /// A walk from a directory, down to a depth.
    pub fn new(path: &str, depth: u32) -> (r: DirWalk)
        ensures
            r.depth == depth,
            frontier_view(r.frontier@) == seq![(path@, 1u32)],
            r.entries@.len() == 0,
    {
        let mut frontier: Vec<PendingDir> = Vec::new();
        frontier.push(PendingDir { path: path.to_string(), level: 1 });
        let r = DirWalk { depth, frontier, entries: Vec::new() };
        assert(frontier_view(r.frontier@) =~= seq![(path@, 1u32)]);
        r
    }

    /// The directory to list next; none when the walk is over.
    pub fn next(&mut self) -> (r: Option<PendingDir>)
        ensures
            final(self).depth == old(self).depth,
            final(self).entries == old(self).entries,
            match r {
                Some(d) => old(self).frontier@.len() > 0 && d == old(self).frontier@.last()
                    && final(self).frontier@ == old(self).frontier@.drop_last(),
                None => old(self).frontier@.len() == 0 && final(self).frontier
                    == old(self).frontier,
            },
    {
        if self.frontier.len() == 0 {
            return None;
        }
        self.frontier.pop()
    }

    /// Takes in the listing of a directory.
    pub fn listed(&mut self, dir: &PendingDir, listed: &Vec<ListedEntry>)
        ensures
            final(self).depth == old(self).depth,
            sandbox::entries_view(final(self).entries@) == sandbox::entries_view(
                old(self).entries@,
            ) + listed_entries(dir.path@, listed@),
            frontier_view(final(self).frontier@) == frontier_view(old(self).frontier@) + deeper(
                dir.path@,
                dir.level,
                old(self).depth,
                listed@,
            ),
    {
        let limit: u32 = if self.depth == 0 {
            1
        } else {
            self.depth
        };
        let ghost entries = sandbox::entries_view(self.entries@);
        let ghost frontier = frontier_view(self.frontier@);
        let ghost want = listed_entries(dir.path@, listed@);
        let mut i: usize = 0;
        assert(entries + want.take(0) =~= entries);
        assert(frontier + deeper(dir.path@, dir.level, self.depth, listed@.take(0)) =~= frontier);
        while i < listed.len()
            invariant
                i <= listed@.len(),
                self.depth == old(self).depth,
                limit == (if self.depth == 0 {
                    1u32
                } else {
                    self.depth
                }),
                want == listed_entries(dir.path@, listed@),
                sandbox::entries_view(self.entries@) == entries + want.take(i as int),
                frontier_view(self.frontier@) == frontier + deeper(
                    dir.path@,
                    dir.level,
                    self.depth,
                    listed@.take(i as int),
                ),
            decreases listed@.len() - i,
        {
            let ghost head = listed@.take(i as int);
            let ghost next = listed@.take(i + 1);
            assert(next.drop_last() =~= head);
            assert(next.last() == listed@[i as int]);
            let e = &listed[i];
            let full = paths::join_path(dir.path.as_str(), e.name.as_str());
            if e.is_dir && dir.level < limit {
                let ghost before = self.frontier@;
                let d = PendingDir { path: full.clone(), level: dir.level + 1 };
                self.frontier.push(d);
                proof {
                    assert(frontier_view(self.frontier@) =~= frontier_view(before).push(
                        (d.path@, d.level),
                    ));
                    assert(frontier + deeper(dir.path@, dir.level, self.depth, next) =~= (frontier
                        + deeper(dir.path@, dir.level, self.depth, head)).push((d.path@, d.level)));
                }
            }
            let ghost before = self.entries@;
            let entry = FileEntry {
                path: full,
                kind: if e.is_dir {
                    FileKind::Dir
                } else {
                    FileKind::File
                },
                size: e.size,
                modified_unix_ms: match e.modified_unix_ms {
                    Some(t) => t,
                    None => 0,
                },
            };
            self.entries.push(entry);
            proof {
                assert(entry@ == want[i as int]);
                assert(sandbox::entries_view(self.entries@) =~= sandbox::entries_view(before).push(
                    entry@,
                ));
                assert(want.take(i + 1) =~= want.take(i as int).push(want[i as int]));
                assert(entries + want.take(i + 1) =~= (entries + want.take(i as int)).push(
                    want[i as int],
                ));
            }
            i = i + 1;
        }
        assert(want.take(i as int) =~= want);
        assert(listed@.take(i as int) =~= listed@);
    }
}

/// What a file is.
pub fn stat_entry(path: &str, is_dir: bool, size: u64, modified_unix_ms: Option<i64>) -> (r:
    FileEntry)
    ensures
        r@ == entry_at(path@, is_dir, size, modified_unix_ms),
{
    FileEntry {
        path: path.to_string(),
        kind: if is_dir {
            FileKind::Dir
        } else {
            FileKind::File
        },
        size,
        modified_unix_ms: match modified_unix_ms {
            Some(t) => t,
            None => 0,
        },
    }
}

/// A walk never lists a directory below its depth.
pub proof fn walks_stay_within_their_depth(
    dir: Seq<char>,
    level: u32,
    depth: u32,
    listed: Seq<ListedEntry>,
    i: int,
)
    requires
        0 <= i < deeper(dir, level, depth, listed).len(),
    ensures
        deeper(dir, level, depth, listed)[i].1 == level + 1,
        level + 1 <= depth || level + 1 == 1,
    decreases listed.len(),
{
    if listed.len() > 0 {
        let before = deeper(dir, level, depth, listed.drop_last());
        if i < before.len() {
            walks_stay_within_their_depth(dir, level, depth, listed.drop_last(), i);
        }
    }
}

/// A sprite that is stopped has exited; in every other state it runs or wakes with the
/// next command.
pub proof fn only_stopped_sprites_have_exited(status: SpriteStatus)
    ensures
        status_of(status) == SandboxStatus::Exited <==> status is Stopped,
        !(status is Stopped) ==> status_of(status) == SandboxStatus::Running,
{
}

/// Memory is given in whole megabytes, rounded down, and at least one.
pub proof fn memory_is_in_megabytes(bytes: u64)
    requires
        bytes < 0x1_0000_0000 * 0x10_0000,
    ensures
        megabytes(bytes) >= 1,
        bytes >= 0x10_0000 ==> megabytes(bytes) * 0x10_0000 <= bytes < (megabytes(bytes) + 1)
            * 0x10_0000,
        bytes < 0x10_0000 ==> megabytes(bytes) == 1,
{
}

/// A command is run by the shell, in the directory of the request or else in that of the
/// sandbox, with the environment of the sandbox and behind it that of the request.
pub proof fn commands_are_run_by_the_shell(
    commands: SpritesCommands,
    req: RunRequest,
    script: Seq<char>,
    c: SpriteCommand,
)
    requires
        commands.builds(req, script, c),
    ensures
        c.program@ == "/bin/sh"@,
        c.args@.len() == 2 && c.args@[0]@ == "-c"@ && c.args@[1]@ == script,
        req.workdir is Some ==> c.current_dir is Some && c.current_dir->0@ == req.workdir->0@,
        req.workdir is None && commands.workdir is Some ==> c.current_dir is Some
            && c.current_dir->0@ == commands.workdir->0@,
        req.workdir is None && commands.workdir is None ==> c.current_dir is None,
        c.envs@.len() == commands.env@.len() + req.env@.len(),
        forall|i: int|
            0 <= i < commands.env@.len() ==> (#[trigger] c.envs@[i]).0@ == commands.env@[i].0@
                && c.envs@[i].1@ == commands.env@[i].1@,
        forall|i: int|
            0 <= i < req.env@.len() ==> (#[trigger] req.env@[i]).0@
                == c.envs@[commands.env@.len() + i].0@ && req.env@[i].1@
                == c.envs@[commands.env@.len() + i].1@,
{
    let args = text::views(c.args@);
    assert(args == seq!["-c"@, script]);
    assert(args.len() == 2);
    assert(args[0] == c.args@[0]@);
    assert(args[1] == c.args@[1]@);
    let own = sandbox::pairs_view(commands.env@);
    let more = sandbox::pairs_view(req.env@);
    let all = sandbox::pairs_view(c.envs@);
    assert(all.len() == own.len() + more.len());
    assert forall|i: int| 0 <= i < commands.env@.len() implies (#[trigger] c.envs@[i]).0@
        == commands.env@[i].0@ && c.envs@[i].1@ == commands.env@[i].1@ by {
        assert(all[i] == own[i]);
    }
    assert forall|i: int| 0 <= i < req.env@.len() implies (#[trigger] req.env@[i]).0@
        == c.envs@[commands.env@.len() + i].0@ && req.env@[i].1@
        == c.envs@[commands.env@.len() + i].1@ by {
        assert(all[own.len() + i] == more[i]);
    }
}

/// Before a file is written its directory must be there, but for the root and for the
/// current directory, which always are.
pub proof fn directories_are_made_for_files(dir: Seq<char>, name: Seq<char>)
    requires
        paths::is_name(name),
    ensures
        dir.len() > 0 && paths::is_name(text::pieces(dir, '/').last()) ==> needed_dir(
            dir + seq!['/'] + name,
        ) == Some(dir),
        needed_dir(name) is None,
        needed_dir(seq!['/'] + name) is None,
{
    reveal_strlit("/");
    reveal_strlit(".");
    assert("/"@ =~= seq!['/']);
    assert("."@ =~= seq!['.']);
    if dir.len() > 0 && paths::is_name(text::pieces(dir, '/').last()) {
        paths::the_parent_is_what_the_name_stands_behind(dir, name);
        if dir == "/"@ {
            text::pieces_join_to_the_text(dir, '/');
            text::lemma_first_of_at(dir, '/', 0);
            assert(dir.skip(1) =~= Seq::<char>::empty());
            text::joined_texts_come_apart(seq![Seq::<char>::empty()], '/');
            assert(text::pieces(dir, '/').last().len() == 0);
        }
    }
    let nothing = Seq::<char>::empty();
    text::joined_texts_come_apart(seq![name], '/');
    assert(text::joined(seq![name], seq!['/']) == name);
    assert(name.contains(name[0]));
    assert(seq![name].drop_last() =~= Seq::<Seq<char>>::empty());
    let rooted = seq![nothing, name];
    assert(rooted =~= seq![nothing] + seq![name]);
    text::texts_are_joined_in_order(seq![nothing], seq![name], seq!['/']);
    assert(text::joined(rooted, seq!['/']) =~= seq!['/'] + name);
    text::joined_texts_come_apart(rooted, '/');
    assert(rooted.skip(1) =~= seq![name]);
}

/// An entry that is listed is one of the directory: its path is the name seen from the
/// directory, and it has the kind, the size and the time that were listed.
pub proof fn listed_entries_are_in_their_directory(
    dir: Seq<char>,
    listed: Seq<ListedEntry>,
    i: int,
)
    requires
        0 <= i < listed.len(),
        dir.len() > 0 && dir.last() != '/',
        listed[i].name@.len() > 0 ==> listed[i].name@[0] != '/',
    ensures
        ({
            let e = listed_entries(dir, listed)[i];
            &&& listed_entries(dir, listed).len() == listed.len()
            &&& e.path == dir + seq!['/'] + listed[i].name@
            &&& e.kind == (if listed[i].is_dir {
                FileKind::Dir
            } else {
                FileKind::File
            })
            &&& e.size == listed[i].size
            &&& listed[i].modified_unix_ms is Some ==> e.modified_unix_ms
                == listed[i].modified_unix_ms->0
            &&& listed[i].modified_unix_ms is None ==> e.modified_unix_ms == 0
        }),
{
    paths::paths_are_seen_from_their_base(dir, listed[i].name@);
}

/// Every directory that is listed above the depth is listed in turn, one deeper and in the
/// order of the listing, and files are not; a depth of nothing counts as one.
pub proof fn directories_are_listed_in_turn(
    dir: Seq<char>,
    level: u32,
    depth: u32,
    listed: Seq<ListedEntry>,
)
    requires
        level < u32::MAX,
    ensures
        ({
            let dirs = listed.filter(|e: ListedEntry| e.is_dir);
            let below = deeper(dir, level, depth, listed);
            let goes = level < depth || (depth == 0 && level == 0);
            &&& goes ==> below == Seq::new(
                dirs.len(),
                |k: int| (paths::joined_path(dir, dirs[k].name@), (level + 1) as u32),
            )
            &&& !goes ==> below.len() == 0
        }),
    decreases listed.len(),
{
    reveal(Seq::filter);
    let is_dir = |e: ListedEntry| e.is_dir;
    let goes = level < depth || (depth == 0 && level == 0);
    let dirs = listed.filter(is_dir);
    let below = deeper(dir, level, depth, listed);
    if listed.len() > 0 {
        let rest = listed.drop_last();
        directories_are_listed_in_turn(dir, level, depth, rest);
        let before = rest.filter(is_dir);
        if is_dir(listed.last()) {
            assert(dirs == before.push(listed.last()));
        } else {
            assert(dirs == before);
        }
    }
    if goes {
        assert(below =~= Seq::new(
            dirs.len(),
            |k: int| (paths::joined_path(dir, dirs[k].name@), (level + 1) as u32),
        ));
    }
}

/// A pointer is written with the sprite and the checkpoint, each behind its name.
pub proof fn pointers_name_their_parts(sprite: Seq<char>, checkpoint: Seq<char>)
    ensures
        pointer_to(sprite, checkpoint) == "sprite="@ + sprite + ";checkpoint="@ + checkpoint,
{
}

/// A text that names no sprite or no checkpoint points to nothing.
pub proof fn texts_without_names_point_to_nothing(s: Seq<char>)
    requires
        forall|i: int|
            0 <= i < text::pieces(s, ';').len() ==> !"sprite="@.is_prefix_of(
                #[trigger] text::pieces(s, ';')[i],
            ),
    ensures
        pointed(s) is None,
{
    lemma_no_value(text::pieces(s, ';'), "sprite="@);
}

proof fn lemma_no_value(parts: Seq<Seq<char>>, key: Seq<char>)
    requires
        forall|i: int| 0 <= i < parts.len() ==> !key.is_prefix_of(#[trigger] parts[i]),
    ensures
        last_value(parts, key) is None,
    decreases parts.len(),
{
    if parts.len() > 0 {
        let before = parts.drop_last();
        assert(!key.is_prefix_of(parts[parts.len() - 1]));
        assert forall|i: int| 0 <= i < before.len() implies !key.is_prefix_of(
            #[trigger] before[i],
        ) by {
            assert(before[i] == parts[i]);
        }
        lemma_no_value(before, key);
    }
}

/// A command runs in the background by the script that leaves it behind, and else as it is
/// and with its time limit.
pub proof fn commands_run_as_they_are_asked_to(
    commands: &SpritesCommands,
    req: &RunRequest,
    r: SpriteRun,
)
    requires
        call_ensures(SpritesCommands::plan, (commands, req), r),
    ensures
        req.background ==> r is Background && commands.builds(
            *req,
            sandbox::detached(req.command@),
            r->Background_0,
        ),
        !req.background ==> r is Foreground && commands.builds(
            *req,
            req.command@,
            r->Foreground_0,
        ) && (r->Foreground_1).total() == sandbox::time_limit(req.timeout),
{
}

/// A failure of the API is one of the sandbox: what was not found, a time limit, or an error
/// of the back end.
pub proof fn failures_of_the_api_are_told_apart(name: String, r: VmError)
    ensures
        call_ensures(map_sprites_err, (SpriteError::NotFound(name),), r) ==> r@
            == sandbox::VmFailure::NotFound(name@),
        call_ensures(map_sprites_err, (SpriteError::Other(name),), r) ==> r@ == (
        sandbox::VmFailure::Backend { backend: "sprites"@, message: name@ }),
        call_ensures(map_sprites_err, (SpriteError::Timeout,), r) ==> r@
            == sandbox::VmFailure::Timeout(Span { secs: 120, nanos: 0 }),
{
}

} // verus!
