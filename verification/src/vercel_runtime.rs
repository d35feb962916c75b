//! The Vercel runtime: what sandboxes and commands are asked for with, and files
//! by way of shell commands and archives.

use crate::json;
use crate::json::{Json, JsonObject};
use crate::paths;
use crate::sandbox;
use crate::sandbox::{
    FileEntry, FileKind, RunRequest, RuntimeCaps, SandboxOpts, SandboxStatus, VmError,
};
use crate::search;
use crate::search::Span;
use crate::sprites;
use crate::text;
use crate::types;
use crate::vercel;
use crate::vercel::{VercelClient, VercelConfig};
use crate::wire;
use vstd::prelude::*;
use vstd::string::*;

verus! {

/// The state of a sandbox by the word that the API has for it. A session that takes
/// a snapshot is still alive, and so is one in a state that has no word here.
pub open spec fn status_of(status: Seq<char>) -> SandboxStatus {
    if status == "pending"@ {
        SandboxStatus::Creating
    } else if status == "stopping"@ || status == "stopped"@ {
        SandboxStatus::Paused
    } else if status == "aborted"@ {
        SandboxStatus::Killed
    } else if status == "failed"@ {
        SandboxStatus::Failed
    } else {
        SandboxStatus::Running
    }
}

/// The state of a sandbox by the word that the API has for it.
pub fn map_status(status: &str) -> (r: SandboxStatus)
    ensures
        r == status_of(status@),
{
    if text::same(status, "pending") {
        SandboxStatus::Creating
    } else if text::same(status, "stopping") || text::same(status, "stopped") {
        SandboxStatus::Paused
    } else if text::same(status, "aborted") {
        SandboxStatus::Killed
    } else if text::same(status, "failed") {
        SandboxStatus::Failed
    } else {
        SandboxStatus::Running
    }
}

// ─── Pointers to snapshots ───────────────────────────────────────────────────

/// The pointer to a snapshot.
pub open spec fn pointer_to(snapshot_id: Seq<char>) -> Seq<char> {
    "vercel-snapshot="@ + snapshot_id
}

/// The snapshot that a pointer points to.
pub open spec fn pointed(pointer: Seq<char>) -> Option<Seq<char>> {
    match text::after_prefix(pointer, "vercel-snapshot="@) {
        Some(id) => if id.len() > 0 {
            Some(id)
        } else {
            None
        },
        None => None,
    }
}

/// The pointer to a snapshot.
pub fn encode_fs_pointer(snapshot_id: &str) -> (r: String)
    ensures
        r@ == pointer_to(snapshot_id@),
{
    text::cat("vercel-snapshot=", snapshot_id)
}

/// The snapshot that a pointer points to.
pub fn parse_fs_pointer(pointer: &str) -> (r: Result<String, VmError>)
    ensures
        match pointed(pointer@) {
            Some(id) => r matches Ok(s) && s@ == id,
            None => r matches Err(e) && e@ == sandbox::VmFailure::Snapshot(
                "malformed vercel fs_pointer: "@ + pointer@,
            ),
        },
{
    if let Some(id) = text::strip_prefix(pointer, "vercel-snapshot=") {
        if text::chars_of(id.as_str()).len() > 0 {
            return Ok(id);
        }
    }
    Err(VmError::Snapshot(text::cat("malformed vercel fs_pointer: ", pointer)))
}

/// A pointer leads back to the snapshot that it was made for, and to no other.
pub proof fn pointers_lead_back(id: Seq<char>, other: Seq<char>)
    requires
        id.len() > 0,
    ensures
        pointed(pointer_to(id)) == Some(id),
        pointer_to(other) == pointer_to(id) ==> other == id,
{
    let p = "vercel-snapshot="@;
    assert(pointer_to(id).subrange(0, p.len() as int) =~= p);
    assert(pointer_to(id).skip(p.len() as int) =~= id);
    assert(pointer_to(other).skip(p.len() as int) =~= other);
}

/// Quotes a text for `sh -c`.
pub fn shell_quote(s: &str) -> (r: String)
    ensures
        r@ == sandbox::quoted(s@),
{
    sandbox::quote(s)
}

// ─── Bodies ──────────────────────────────────────────────────────────────────

/// Names with values as members of an object; of two with one name the later
/// stands.
pub open spec fn members(
    o: Map<Seq<char>, json::JsonView>,
    pairs: Seq<(Seq<char>, Seq<char>)>,
) -> Map<Seq<char>, json::JsonView>
    decreases pairs.len(),
{
    if pairs.len() == 0 {
        o
    } else {
        members(o, pairs.drop_last()).insert(
            pairs.last().0,
            json::JsonView::Str(pairs.last().1),
        )
    }
}

/// Of the values that a name is given, the last one stands, whatever stood before.
pub proof fn the_last_value_stands(
    o: Map<Seq<char>, json::JsonView>,
    pairs: Seq<(Seq<char>, Seq<char>)>,
    i: int,
)
    requires
        0 <= i < pairs.len(),
        forall|j: int| i < j < pairs.len() ==> pairs[j].0 != pairs[i].0,
    ensures
        members(o, pairs).contains_key(pairs[i].0),
        members(o, pairs)[pairs[i].0] == json::JsonView::Str(pairs[i].1),
    decreases pairs.len(),
{
    if i < pairs.len() - 1 {
        assert(pairs.last().0 != pairs[i].0);
        let before = pairs.drop_last();
        assert(before[i] == pairs[i]);
        assert forall|j: int| i < j < before.len() implies before[j].0 != before[i].0 by {
            assert(before[j] == pairs[j]);
        }
        the_last_value_stands(o, before, i);
    }
}

/// A name that is given no value keeps the one it had.
pub proof fn other_values_stay(
    o: Map<Seq<char>, json::JsonView>,
    pairs: Seq<(Seq<char>, Seq<char>)>,
    key: Seq<char>,
)
    requires
        forall|j: int| 0 <= j < pairs.len() ==> pairs[j].0 != key,
    ensures
        members(o, pairs).contains_key(key) == o.contains_key(key),
        o.contains_key(key) ==> members(o, pairs)[key] == o[key],
    decreases pairs.len(),
{
    if pairs.len() > 0 {
        let before = pairs.drop_last();
        assert(pairs.last().0 != key);
        assert forall|j: int| 0 <= j < before.len() implies before[j].0 != key by {
            assert(before[j] == pairs[j]);
        }
        other_values_stay(o, before, key);
    }
}

fn add_members(o: &mut JsonObject, pairs: &Vec<(String, String)>)
    ensures
        final(o)@ == members(old(o)@, sandbox::pairs_view(pairs@)),
{
    let ghost all = sandbox::pairs_view(pairs@);
    let ghost start = o@;
    let mut i: usize = 0;
    while i < pairs.len()
        invariant
            i <= pairs@.len(),
            all == sandbox::pairs_view(pairs@),
            o@ == members(start, all.take(i as int)),
        decreases pairs@.len() - i,
    {
        assert(all.take(i + 1).drop_last() =~= all.take(i as int));
        assert(all.take(i + 1).last() == all[i as int]);
        let p = &pairs[i];
        o.set(p.0.as_str(), Json::str(p.1.as_str()));
        i = i + 1;
    }
    assert(all.take(i as int) =~= all);
}

/// Where the commands of a sandbox run: its environment and its directory.
#[derive(Clone, Debug, PartialEq, Eq)]
pub struct CommandContext {
    pub env: Vec<(String, String)>,
    pub workdir: Option<String>,
}

/// The body of a command. The environment of the request overrides that of the
/// sandbox.
pub open spec fn command_json(req: RunRequest, shell_cmd: Seq<char>, base: CommandContext) -> json::JsonView {
    let env = members(
        members(wire::nothing(), sandbox::pairs_view(base.env@)),
        sandbox::pairs_view(req.env@),
    );
    let body = wire::with(
        wire::with(
            wire::with(
                wire::with(
                    wire::with(
                        wire::with(wire::nothing(), "command"@, json::JsonView::Str("/bin/sh"@)),
                        "args"@,
                        json::JsonView::Array(
                            seq![json::JsonView::Str("-c"@), json::JsonView::Str(shell_cmd)],
                        ),
                    ),
                    "env"@,
                    json::JsonView::Object(env),
                ),
                "sudo"@,
                json::JsonView::Bool(false),
            ),
            "wait"@,
            json::JsonView::Bool(true),
        ),
        "logs"@,
        json::JsonView::Bool(true),
    );
    json::JsonView::Object(
        wire::with_text(body, "cwd"@, sprites::dir_for(req.workdir, base.workdir)),
    )
}

/// The body of a command.
pub fn command_body(req: &RunRequest, shell_cmd: &str, base: &CommandContext) -> (r: Json)
    ensures
        r@ == command_json(*req, shell_cmd@, *base),
{
    let mut env = JsonObject::new();
    add_members(&mut env, &base.env);
    add_members(&mut env, &req.env);
    let mut args: Vec<Json> = Vec::new();
    let flag = Json::str("-c");
    let script = Json::str(shell_cmd);
    args.push(flag);
    args.push(script);
    proof {
        json::lemma_items_view(args@);
        assert(json::items_view(args@) =~= seq![
            json::JsonView::Str("-c"@),
            json::JsonView::Str(shell_cmd@),
        ]);
    }
    let args_json = Json::Array(args);
    let env_json = Json::Object(env);
    let mut o = JsonObject::new();
    o.set("command", Json::str("/bin/sh"));
    o.set("args", args_json);
    o.set("env", env_json);
    o.set("sudo", Json::Bool(false));
    o.set("wait", Json::Bool(true));
    o.set("logs", Json::Bool(true));
    let dir = match &req.workdir {
        Some(w) => Some(w.clone()),
        None => types::copy_opt(&base.workdir),
    };
    wire::set_text(&mut o, "cwd", &dir);
    Json::Object(o)
}

/// What a request comes to: the body of its command, and how long it may take; one
/// in the background is not waited for.
#[derive(Debug, PartialEq)]
pub enum VercelRun {
    Background(Json),
    Foreground(Json, Span),
}

/// What a request comes to.
pub fn plan_run(req: &RunRequest, base: &CommandContext) -> (r: VercelRun)
    requires
        search::deadline_normal(req.timeout),
    ensures
        if req.background {
            r matches VercelRun::Background(b) && b@ == command_json(
                *req,
                sandbox::detached(req.command@),
                *base,
            )
        } else {
            r matches VercelRun::Foreground(b, limit) && b@ == command_json(
                *req,
                req.command@,
                *base,
            ) && limit.total() == sandbox::time_limit(req.timeout) && limit.normal()
        },
{
    if req.background {
        let script = sandbox::detach_script(req.command.as_str());
        VercelRun::Background(command_body(req, script.as_str(), base))
    } else {
        VercelRun::Foreground(
            command_body(req, req.command.as_str(), base),
            sandbox::effective_timeout(req.timeout),
        )
    }
}

/// A request that runs a script in a sandbox as it stands.
pub fn shell_body(script: &str, base: &CommandContext) -> (r: Json)
    ensures
        exists|req: RunRequest|
            req.command@ == script@ && req.env@.len() == 0 && req.workdir is None
                && #[trigger] command_json(req, script@, *base) == r@,
{
    let req = RunRequest {
        command: script.to_string(),
        env: Vec::new(),
        workdir: None,
        timeout: None,
        background: false,
    };
    command_body(&req, script, base)
}

/// The Vercel runtime, apart from its connection.
#[derive(Clone, Debug, PartialEq, Eq)]
pub struct VercelRuntime {
    pub client: VercelClient,
}

impl VercelRuntime {
    pub fn new(config: VercelConfig) -> (r: VercelRuntime)
        ensures
            r.client.config == config,
    {
        VercelRuntime { client: VercelClient::new(config) }
    }

    pub fn name(&self) -> (r: &'static str)
        ensures
            r@ == "vercel"@,
    {
        "vercel"
    }

    /// What the back end can do. A pause stops the session, and a resume starts
    /// another one.
    pub fn capabilities(&self) -> (r: RuntimeCaps)
        ensures
            r == (RuntimeCaps {
                snapshots: true,
                pause_resume: true,
                gpu: false,
                network_isolation: true,
                shared_volumes: false,
                remote: true,
            }),
    {
        RuntimeCaps {
            snapshots: true,
            pause_resume: true,
            gpu: false,
            network_isolation: true,
            shared_volumes: false,
            remote: true,
        }
    }

    /// What the image of a sandbox is said to be.
    pub fn image(&self, sandbox_name: &str) -> (r: String)
        ensures
            r@ == "vercel://"@ + sandbox_name@,
    {
        text::cat("vercel://", sandbox_name)
    }

    /// What a sandbox is asked for with. An empty environment, no labels, no limit
    /// and the default image are left out.
    pub open spec fn creation(&self, opts: SandboxOpts, name: Seq<char>) -> Map<
        Seq<char>,
        json::JsonView,
    > {
        let named = wire::with(
            wire::with(
                wire::nothing(),
                "projectId"@,
                json::JsonView::Str(self.client.config.project_id@),
            ),
            "name"@,
            json::JsonView::Str(name),
        );
        let with_env = if opts.env@.len() > 0 {
            wire::with(
                named,
                "env"@,
                json::JsonView::Object(
                    members(wire::nothing(), sandbox::pairs_view(opts.env@)),
                ),
            )
        } else {
            named
        };
        let with_tags = if opts.labels@.len() > 0 {
            wire::with(
                with_env,
                "tags"@,
                json::JsonView::Object(
                    members(wire::nothing(), sandbox::pairs_view(opts.labels@)),
                ),
            )
        } else {
            with_env
        };
        let with_cpus = match opts.cpu_limit {
            Some(c) => wire::with(
                with_tags,
                "resources"@,
                json::JsonView::Object(
                    wire::with(
                        wire::nothing(),
                        "vcpus"@,
                        json::JsonView::UInt(c.rounded() as u64),
                    ),
                ),
            ),
            None => with_tags,
        };
        let with_timeout = match self.client.config.sandbox_timeout_ms {
            Some(ms) => wire::with(with_cpus, "timeout"@, json::JsonView::UInt(ms)),
            None => with_cpus,
        };
        if opts.image@ != vercel::DEFAULT_IMAGE@ {
            wire::with(with_timeout, "image"@, json::JsonView::Str(opts.image@))
        } else {
            with_timeout
        }
    }

    /// What a sandbox is asked for with.
    pub fn create_body(&self, opts: &SandboxOpts, name: &str) -> (r: JsonObject)
        ensures
            r@ == self.creation(*opts, name@),
    {
        let mut o = JsonObject::new();
        o.set("projectId", Json::str(self.client.config.project_id.as_str()));
        o.set("name", Json::str(name));
        if opts.env.len() > 0 {
            let mut env = JsonObject::new();
            add_members(&mut env, &opts.env);
            let env_json = Json::Object(env);
            o.set("env", env_json);
        }
        if opts.labels.len() > 0 {
            let mut tags = JsonObject::new();
            add_members(&mut tags, &opts.labels);
            let tags_json = Json::Object(tags);
            o.set("tags", tags_json);
        }
        if let Some(c) = opts.cpu_limit {
            let mut resources = JsonObject::new();
            resources.set("vcpus", Json::UInt(c.processors() as u64));
            let resources_json = Json::Object(resources);
            o.set("resources", resources_json);
        }
        if let Some(ms) = self.client.config.sandbox_timeout_ms {
            o.set("timeout", Json::UInt(ms));
        }
        if !text::same(opts.image.as_str(), vercel::DEFAULT_IMAGE) {
            o.set("image", Json::str(opts.image.as_str()));
        }
        o
    }

    /// What a sandbox is asked for with: out of a snapshot where a pointer to one is
    /// given. Volumes are refused, and so is a pointer that cannot be read.
    pub fn plan_create(&self, opts: &SandboxOpts, name: &str, fs_pointer: Option<&str>) -> (r:
        Result<Json, VmError>)
        ensures
            if opts.volumes@.len() > 0 {
                r matches Err(e) && e@ == sandbox::VmFailure::Invalid(
                    "vercel"@ + " backend does not support volume mounts"@,
                )
            } else {
                match fs_pointer {
                    None => r matches Ok(b) && b@ == json::JsonView::Object(
                        self.creation(*opts, name@),
                    ),
                    Some(p) => match pointed(p@) {
                        Some(id) => r matches Ok(b) && b@ == json::JsonView::Object(
                            wire::with(
                                self.creation(*opts, name@),
                                "source"@,
                                json::JsonView::Object(
                                    wire::with(
                                        wire::typed("snapshot"@),
                                        "snapshotId"@,
                                        json::JsonView::Str(id),
                                    ),
                                ),
                            ),
                        ),
                        None => r matches Err(e) && e@ == sandbox::VmFailure::Snapshot(
                            "malformed vercel fs_pointer: "@ + p@,
                        ),
                    },
                }
            },
    {
        match sandbox::reject_volumes("vercel", opts) {
            Ok(_) => {},
            Err(e) => {
                return Err(e);
            },
        }
        let mut body = self.create_body(opts, name);
        if let Some(p) = fs_pointer {
            let id = match parse_fs_pointer(p) {
                Ok(id) => id,
                Err(e) => {
                    return Err(e);
                },
            };
            let mut source = wire::typed_object("snapshot");
            source.set("snapshotId", Json::str(id.as_str()));
            let source_json = Json::Object(source);
            body.set("source", source_json);
        }
        Ok(Json::Object(body))
    }

    /// The directory of a sandbox: that of its options, or that of its session.
    pub fn workdir(&self, opts: &SandboxOpts, session_cwd: &Option<String>) -> (r: Option<String>)
        ensures
            types::opt_view(r) == sprites::dir_for(opts.workdir, *session_cwd),
    {
        match &opts.workdir {
            Some(w) => Some(w.clone()),
            None => types::copy_opt(session_cwd),
        }
    }
}

/// The image that options name by default is not passed on; any other one is.
pub proof fn only_a_chosen_image_is_passed_on(
    runtime: VercelRuntime,
    opts: SandboxOpts,
    name: Seq<char>,
)
    ensures
        runtime.creation(opts, name).contains_key("image"@) <==> opts.image@
            != vercel::DEFAULT_IMAGE@,
{
    reveal_strlit("image");
    reveal_strlit("projectId");
    reveal_strlit("name");
    reveal_strlit("env");
    reveal_strlit("tags");
    reveal_strlit("resources");
    reveal_strlit("timeout");
    assert("image"@.len() == 5 && "name"@.len() == 4 && "env"@.len() == 3 && "tags"@.len() == 4
        && "projectId"@.len() == 9 && "resources"@.len() == 9 && "timeout"@.len() == 7);
}

// ─── Files ───────────────────────────────────────────────────────────────────

/// The files of a sandbox.
#[derive(Clone, Debug, PartialEq, Eq)]
pub struct VercelFilesystem {
    pub workdir: Option<String>,
}

/// A row of a listing. The time of the last change stays as `find` writes it: a
/// number of seconds with a fraction.
#[derive(Clone, Debug, PartialEq, Eq)]
pub struct ListRow {
    pub kind: FileKind,
    pub size: u64,
    pub modified: String,
    pub path: String,
}

#[verifier::ext_equal]
pub ghost struct RowView {
    pub kind: FileKind,
    pub size: u64,
    pub modified: Seq<char>,
    pub path: Seq<char>,
}

impl View for ListRow {
    type V = RowView;

    open spec fn view(&self) -> RowView {
        RowView {
            kind: self.kind,
            size: self.size,
            modified: self.modified@,
            path: self.path@,
        }
    }
}

/// The views of a list of rows.
pub open spec fn rows_view(s: Seq<ListRow>) -> Seq<RowView> {
    Seq::new(s.len(), |i: int| s[i]@)
}

/// A size as it is written; zero where it is no number.
pub open spec fn size_in(s: Seq<char>) -> u64 {
    match text::number_in(s, u64::MAX as nat) {
        Some(n) => n as u64,
        None => 0,
    }
}

/// The row on a line with four columns; none on any other line. A tab in the path
/// belongs to the path.
pub open spec fn row_of(line: Seq<char>) -> Option<RowView> {
    let parts = text::pieces_at_most(line, '\t', 4);
    if parts.len() != 4 {
        None
    } else {
        Some(
            RowView {
                kind: if parts[0] == "d"@ {
                    FileKind::Dir
                } else if parts[0] == "l"@ {
                    FileKind::Symlink
                } else {
                    FileKind::File
                },
                size: size_in(parts[1]),
                modified: parts[2],
                path: parts[3],
            },
        )
    }
}

/// The rows on these lines.
pub open spec fn rows_of(lines: Seq<Seq<char>>) -> Seq<RowView>
    decreases lines.len(),
{
    if lines.len() == 0 {
        Seq::empty()
    } else {
        let before = rows_of(lines.drop_last());
        match row_of(lines.last()) {
            Some(row) => before.push(row),
            None => before,
        }
    }
}

fn read_size(s: &str) -> (r: u64)
    ensures
        r == size_in(s@),
{
    match text::parse_number(s, u64::MAX) {
        Some(n) => n,
        None => 0,
    }
}

fn read_row(line: &str) -> (r: Option<ListRow>)
    ensures
        match r {
            Some(row) => row_of(line@) == Some(row@),
            None => row_of(line@) is None,
        },
{
    let parts = text::split_at_most(line, '\t', 4);
    let ghost all = text::views(parts@);
    if parts.len() != 4 {
        return None;
    }
    assert(all[0] == parts@[0]@ && all[1] == parts@[1]@ && all[2] == parts@[2]@ && all[3]
        == parts@[3]@);
    let kind = if text::same(parts[0].as_str(), "d") {
        FileKind::Dir
    } else if text::same(parts[0].as_str(), "l") {
        FileKind::Symlink
    } else {
        FileKind::File
    };
    Some(
        ListRow {
            kind,
            size: read_size(parts[1].as_str()),
            modified: parts[2].clone(),
            path: parts[3].clone(),
        },
    )
}

impl ListRow {
    /// The entry of a row, with the time of its last change in milliseconds.
    pub fn entry(self, modified_unix_ms: i64) -> (r: FileEntry)
        ensures
            r@ == (sandbox::EntryView {
                path: self.path@,
                kind: self.kind,
                size: self.size,
                modified_unix_ms,
            }),
    {
        FileEntry { path: self.path, kind: self.kind, size: self.size, modified_unix_ms }
    }
}

/// What a file is, by the output of `stat`: three columns, with the time in seconds.
/// No output means that there is no file.
pub open spec fn stat_of(path: Seq<char>, stdout: Seq<char>) -> Result<
    sandbox::EntryView,
    sandbox::VmFailure,
> {
    let line = text::trimmed(stdout);
    let parts = text::pieces(line, '|');
    if line.len() == 0 {
        Err(sandbox::VmFailure::NotFound(path))
    } else if parts.len() != 3 {
        Err(
            sandbox::VmFailure::Backend {
                backend: "vercel"@,
                message: "bad stat output: "@ + line,
            },
        )
    } else {
        Ok(
            sandbox::EntryView {
                path,
                kind: if text::occurs("directory"@, parts[0]) {
                    FileKind::Dir
                } else if text::occurs("symbolic"@, parts[0]) {
                    FileKind::Symlink
                } else {
                    FileKind::File
                },
                size: size_in(parts[1]),
                modified_unix_ms: match text::signed_in(parts[2]) {
                    Some(secs) => (secs * 1000) as i64,
                    None => 0,
                },
            },
        )
    }
}

/// The script that lists a directory down to a depth.
pub open spec fn list_text(path: Seq<char>, depth: u32) -> Seq<char> {
    "find "@ + sandbox::quoted(path) + " -mindepth 1 -maxdepth "@ + text::decimal(
        if depth == 0 {
            1
        } else {
            depth as nat
        },
    ) + " -printf '%y\\t%s\\t%T@\\t%p\\n' 2>/dev/null || true"@
}

impl VercelFilesystem {
    /// The directory that relative paths start from.
    pub open spec fn base(&self) -> Seq<char> {
        match self.workdir {
            Some(w) => w@,
            None => "/"@,
        }
    }

    /// The directory that relative paths start from.
    pub fn cwd(&self) -> (r: String)
        ensures
            r@ == self.base(),
    {
        match &self.workdir {
            Some(w) => w.clone(),
            None => "/".to_string(),
        }
    }

    /// The path from the root.
    pub fn absolute(&self, path: &str) -> (r: String)
        ensures
            r@ == paths::joined_path(self.base(), path@),
    {
        let base = self.cwd();
        paths::join_path(base.as_str(), path)
    }

    /// The script that lists a directory down to a depth.
    pub fn list_script(&self, path: &str, depth: u32) -> (r: String)
        ensures
            r@ == list_text(path@, depth),
    {
        let q = sandbox::quote(path);
        let mut s = text::cat3("find ", q.as_str(), " -mindepth 1 -maxdepth ");
        text::push_decimal(
            &mut s,
            if depth == 0 {
                1
            } else {
                depth as u64
            },
        );
        s.append(" -printf '%y\\t%s\\t%T@\\t%p\\n' 2>/dev/null || true");
        s
    }

    /// The rows of a listing.
    pub fn list_rows(&self, stdout: &str) -> (r: Vec<ListRow>)
        ensures
            rows_view(r@) == rows_of(text::lines_of(stdout@)),
    {
        let lines = text::lines(stdout);
        let ghost all = text::views(lines@);
        let mut out: Vec<ListRow> = Vec::new();
        let mut i: usize = 0;
        assert(rows_view(out@) =~= rows_of(all.take(0)));
        while i < lines.len()
            invariant
                i <= lines@.len(),
                all == text::views(lines@),
                rows_view(out@) == rows_of(all.take(i as int)),
            decreases lines@.len() - i,
        {
            assert(all.take(i + 1).drop_last() =~= all.take(i as int));
            assert(all.take(i + 1).last() == lines@[i as int]@);
            let ghost before = out@;
            if let Some(row) = read_row(lines[i].as_str()) {
                out.push(row);
                assert(rows_view(out@) =~= rows_view(before).push(row@));
            }
            i = i + 1;
        }
        assert(all.take(i as int) =~= all);
        out
    }

    /// The script that looks at a file.
    pub fn stat_script(&self, path: &str) -> (r: String)
        ensures
            r@ == "stat -c '%F|%s|%Y' "@ + sandbox::quoted(path@) + " 2>/dev/null || true"@,
    {
        let q = sandbox::quote(path);
        text::cat3("stat -c '%F|%s|%Y' ", q.as_str(), " 2>/dev/null || true")
    }

    /// What a file is, by the output of `stat`.
    pub fn read_stat(&self, path: &str, stdout: &str) -> (r: Result<FileEntry, VmError>)
        ensures
            match stat_of(path@, stdout@) {
                Ok(e) => r matches Ok(f) && f@ == e,
                Err(f) => r matches Err(e) && e@ == f,
            },
    {
        let line = text::trim(stdout);
        if text::chars_of(line.as_str()).len() == 0 {
            return Err(VmError::NotFound(path.to_string()));
        }
        let parts = text::split(line.as_str(), '|');
        let ghost all = text::views(parts@);
        if parts.len() != 3 {
            let message = text::cat("bad stat output: ", line.as_str());
            return Err(sandbox::backend_error("vercel", message));
        }
        assert(all[0] == parts@[0]@ && all[1] == parts@[1]@ && all[2] == parts@[2]@);
        let kind = if text::contains(parts[0].as_str(), "directory") {
            FileKind::Dir
        } else if text::contains(parts[0].as_str(), "symbolic") {
            FileKind::Symlink
        } else {
            FileKind::File
        };
        let modified: i64 = match text::parse_signed(parts[2].as_str()) {
            Some(secs) => {
                let wide: i128 = secs as i128 * 1000;
                wide as i64
            },
            None => 0,
        };
        Ok(
            FileEntry {
                path: path.to_string(),
                kind,
                size: read_size(parts[1].as_str()),
                modified_unix_ms: modified,
            },
        )
    }

    /// The script that makes one directory.
    pub fn mkdir_script(&self, path: &str) -> (r: String)
        ensures
            r@ == "mkdir "@ + sandbox::quoted(path@),
    {
        let q = sandbox::quote(path);
        text::cat("mkdir ", q.as_str())
    }

    /// The script that removes a file, or all that is under a path.
    pub fn remove_script(&self, path: &str, recursive: bool) -> (r: String)
        ensures
            r@ == "rm "@ + (if recursive {
                "-rf"@
            } else {
                "-f"@
            }) + " "@ + sandbox::quoted(path@),
    {
        let q = sandbox::quote(path);
        let mut s = text::cat3(
            "rm ",
            if recursive {
                "-rf"
            } else {
                "-f"
            },
            " ",
        );
        s.append(q.as_str());
        s
    }
}

// ─── Archives ────────────────────────────────────────────────────────────────

/// The pieces from the first that leads somewhere.
pub open spec fn from_first(parts: Seq<Seq<char>>) -> Seq<Seq<char>>
    decreases parts.len(),
{
    if parts.len() > 0 && paths::idle(parts[0]) {
        from_first(parts.skip(1))
    } else {
        parts
    }
}

/// The pieces up to the last that leads somewhere.
pub open spec fn to_last(parts: Seq<Seq<char>>) -> Seq<Seq<char>>
    decreases parts.len(),
{
    if parts.len() > 0 && paths::idle(parts.last()) {
        to_last(parts.drop_last())
    } else {
        parts
    }
}

/// A path from the root as it is seen from the root; any other path as it is.
pub open spec fn inside_root(path: Seq<char>) -> Seq<char> {
    if paths::absolute(path) {
        text::joined(to_last(from_first(text::pieces(path, '/'))), "/"@)
    } else {
        path
    }
}

/// A path from the root as it is seen from the root.
pub fn relative_to_root(path: &str) -> (r: String)
    ensures
        r@ == inside_root(path@),
{
    if !paths::is_absolute(path) {
        return path.to_string();
    }
    let parts = text::split(path, '/');
    let ghost all = text::views(parts@);
    let mut lo: usize = 0;
    assert(all.skip(0) =~= all);
    while lo < parts.len() && paths::is_idle(parts[lo].as_str())
        invariant
            lo <= parts@.len(),
            all == text::views(parts@),
            from_first(all) == from_first(all.skip(lo as int)),
        decreases parts@.len() - lo,
    {
        assert(all.skip(lo as int)[0] == parts@[lo as int]@);
        assert(all.skip(lo as int).skip(1) =~= all.skip(lo + 1));
        lo = lo + 1;
    }
    proof {
        if lo < parts@.len() {
            assert(all.skip(lo as int)[0] == parts@[lo as int]@);
        }
    }
    let mut hi: usize = parts.len();
    assert(all.subrange(lo as int, hi as int) =~= all.skip(lo as int));
    while lo < hi && paths::is_idle(parts[hi - 1].as_str())
        invariant
            lo <= hi <= parts@.len(),
            all == text::views(parts@),
            from_first(all) == all.skip(lo as int),
            to_last(from_first(all)) == to_last(all.subrange(lo as int, hi as int)),
        decreases hi,
    {
        assert(all.subrange(lo as int, hi as int).last() == parts@[hi - 1]@);
        assert(all.subrange(lo as int, hi as int).drop_last() =~= all.subrange(
            lo as int,
            hi - 1,
        ));
        hi = hi - 1;
    }
    proof {
        if lo < hi {
            assert(all.subrange(lo as int, hi as int).last() == parts@[hi - 1]@);
        }
    }
    text::join_range(&parts, lo, hi, "/")
}

/// The gzipped archive that the `tar` and `flate2` crates make of one file, or what
/// they say of a path that no archive can hold.
pub uninterp spec fn packed(
    path: Seq<char>,
    data: Seq<u8>,
    mode: u32,
    mtime: u64,
) -> Result<Seq<u8>, Seq<char>>;

/// `tar::Builder::append_data` with a GNU header of this mode and time, written
/// through a `flate2::write::GzEncoder` of the default level: the archive, or the
/// error, depends on the path, the contents, the mode and the time alone. The bytes
/// themselves are left to the name.
#[verifier::external_body]
fn tar_gz(path: &str, data: &[u8], mode: u32, mtime: u64) -> (r: Result<Vec<u8>, String>)
    ensures
        match r {
            Ok(a) => packed(path@, data@, mode, mtime) == Ok::<_, Seq<char>>(a@),
            Err(m) => packed(path@, data@, mode, mtime) == Err::<Seq<u8>, _>(m@),
        },
{
    let mut header = tar::Header::new_gnu();
    header.set_size(data.len() as u64);
    header.set_mode(mode);
    header.set_mtime(mtime);
    header.set_cksum();
    let encoder = flate2::write::GzEncoder::new(Vec::new(), flate2::Compression::default());
    let mut builder = tar::Builder::new(encoder);
    builder.append_data(&mut header, path, data).map_err(|e| e.to_string())?;
    let encoder = builder.into_inner().map_err(|e| e.to_string())?;
    encoder.finish().map_err(|e| e.to_string())
}

/// The archive of one file, at its path from the root and with the time of writing.
/// A time before the epoch counts as the epoch.
pub fn build_tar_gz(absolute: &str, data: &[u8], now_secs: i64) -> (r: Result<Vec<u8>, VmError>)
    ensures
        ({
            let mtime = if now_secs < 0 {
                0u64
            } else {
                now_secs as u64
            };
            match packed(inside_root(absolute@), data@, vercel::FILE_MODE, mtime) {
                Ok(a) => r matches Ok(v) && v@ == a,
                Err(m) => r matches Err(e) && e@ == sandbox::VmFailure::Io(m),
            }
        }),
{
    let relative = relative_to_root(absolute);
    let mtime: u64 = if now_secs < 0 {
        0
    } else {
        now_secs as u64
    };
    match tar_gz(relative.as_str(), data, vercel::FILE_MODE, mtime) {
        Ok(a) => Ok(a),
        Err(m) => Err(VmError::Io(m)),
    }
}

// ─── Laws ────────────────────────────────────────────────────────────────────

proof fn lemma_command_names()
    ensures
        "command"@ != "args"@,
        "command"@ != "env"@,
        "command"@ != "sudo"@,
        "command"@ != "wait"@,
        "command"@ != "logs"@,
        "command"@ != "cwd"@,
        "args"@ != "env"@,
        "args"@ != "sudo"@,
        "args"@ != "wait"@,
        "args"@ != "logs"@,
        "args"@ != "cwd"@,
        "env"@ != "sudo"@,
        "env"@ != "wait"@,
        "env"@ != "logs"@,
        "env"@ != "cwd"@,
        "sudo"@ != "wait"@,
        "sudo"@ != "logs"@,
        "sudo"@ != "cwd"@,
        "wait"@ != "logs"@,
        "wait"@ != "cwd"@,
        "logs"@ != "cwd"@,
{
    reveal_strlit("command");
    reveal_strlit("args");
    reveal_strlit("env");
    reveal_strlit("sudo");
    reveal_strlit("wait");
    reveal_strlit("logs");
    reveal_strlit("cwd");
    assert("command"@.len() == 7);
    assert("args"@.len() == 4);
    assert("env"@.len() == 3);
    assert("sudo"@.len() == 4);
    assert("wait"@.len() == 4);
    assert("logs"@.len() == 4);
    assert("cwd"@.len() == 3);
    assert("args"@[0] != "sudo"@[0]);
    assert("args"@[0] != "wait"@[0]);
    assert("args"@[0] != "logs"@[0]);
    assert("env"@[0] != "cwd"@[0]);
    assert("sudo"@[0] != "wait"@[0]);
    assert("sudo"@[0] != "logs"@[0]);
    assert("wait"@[0] != "logs"@[0]);
}


proof fn lemma_creation_names()
    ensures
        "projectId"@ != "name"@,
        "projectId"@ != "env"@,
        "projectId"@ != "tags"@,
        "projectId"@ != "resources"@,
        "projectId"@ != "timeout"@,
        "projectId"@ != "image"@,
        "name"@ != "env"@,
        "name"@ != "tags"@,
        "name"@ != "resources"@,
        "name"@ != "timeout"@,
        "name"@ != "image"@,
        "env"@ != "tags"@,
        "env"@ != "resources"@,
        "env"@ != "timeout"@,
        "env"@ != "image"@,
        "tags"@ != "resources"@,
        "tags"@ != "timeout"@,
        "tags"@ != "image"@,
        "resources"@ != "timeout"@,
        "resources"@ != "image"@,
        "timeout"@ != "image"@,
{
    reveal_strlit("projectId");
    reveal_strlit("name");
    reveal_strlit("env");
    reveal_strlit("tags");
    reveal_strlit("resources");
    reveal_strlit("timeout");
    reveal_strlit("image");
    assert("projectId"@.len() == 9);
    assert("name"@.len() == 4);
    assert("env"@.len() == 3);
    assert("tags"@.len() == 4);
    assert("resources"@.len() == 9);
    assert("timeout"@.len() == 7);
    assert("image"@.len() == 5);
    assert("projectId"@[0] != "resources"@[0]);
    assert("name"@[0] != "tags"@[0]);
}


proof fn lemma_status_names()
    ensures
        "pending"@ != "stopping"@,
        "pending"@ != "stopped"@,
        "pending"@ != "aborted"@,
        "pending"@ != "failed"@,
        "stopping"@ != "stopped"@,
        "stopping"@ != "aborted"@,
        "stopping"@ != "failed"@,
        "stopped"@ != "aborted"@,
        "stopped"@ != "failed"@,
        "aborted"@ != "failed"@,
{
    reveal_strlit("pending");
    reveal_strlit("stopping");
    reveal_strlit("stopped");
    reveal_strlit("aborted");
    reveal_strlit("failed");
    assert("pending"@.len() == 7);
    assert("stopping"@.len() == 8);
    assert("stopped"@.len() == 7);
    assert("aborted"@.len() == 7);
    assert("failed"@.len() == 6);
    assert("pending"@[0] != "stopped"@[0]);
    assert("pending"@[0] != "aborted"@[0]);
    assert("stopped"@[0] != "aborted"@[0]);
}


/// A sandbox is in the state that the word of the API says; any other word says that it
/// runs.
pub proof fn words_say_the_state(status: Seq<char>)
    ensures
        status_of("pending"@) == SandboxStatus::Creating,
        status_of("stopping"@) == SandboxStatus::Paused,
        status_of("stopped"@) == SandboxStatus::Paused,
        status_of("aborted"@) == SandboxStatus::Killed,
        status_of("failed"@) == SandboxStatus::Failed,
        status != "pending"@ && status != "stopping"@ && status != "stopped"@ && status
            != "aborted"@ && status != "failed"@ ==> status_of(status) == SandboxStatus::Running,
{
    lemma_status_names();
}

/// A command is run by the shell, waited for and followed, without rights of its own, in
/// the directory of the request or else in that of the sandbox.
pub proof fn commands_ask_for_what_is_to_run(
    req: RunRequest,
    script: Seq<char>,
    base: CommandContext,
)
    ensures
        ({
            let o = command_json(req, script, base)->Object_0;
            &&& command_json(req, script, base) is Object
            &&& json::holds(o, "command"@, json::JsonView::Str("/bin/sh"@))
            &&& json::holds(
                o,
                "args"@,
                json::JsonView::Array(
                    seq![json::JsonView::Str("-c"@), json::JsonView::Str(script)],
                ),
            )
            &&& json::holds(o, "sudo"@, json::JsonView::Bool(false))
            &&& json::holds(o, "wait"@, json::JsonView::Bool(true))
            &&& json::holds(o, "logs"@, json::JsonView::Bool(true))
            &&& req.workdir is Some ==> json::holds(
                o,
                "cwd"@,
                json::JsonView::Str(req.workdir->0@),
            )
            &&& req.workdir is None && base.workdir is Some ==> json::holds(
                o,
                "cwd"@,
                json::JsonView::Str(base.workdir->0@),
            )
            &&& req.workdir is None && base.workdir is None ==> !o.contains_key("cwd"@)
            &&& o.contains_key("env"@) && o["env"@] is Object
        }),
{
    lemma_command_names();
}

/// A command has the variables of its request, and those of the sandbox that the request
/// does not set.
pub proof fn requests_override_the_environment(
    req: RunRequest,
    script: Seq<char>,
    base: CommandContext,
    i: int,
)
    ensures
        ({
            let env = (command_json(req, script, base)->Object_0)["env"@]->Object_0;
            let own = sandbox::pairs_view(base.env@);
            let asked = sandbox::pairs_view(req.env@);
            &&& 0 <= i < asked.len() && (forall|j: int|
                i < j < asked.len() ==> (#[trigger] asked[j]).0 != asked[i].0) ==> json::holds(
                env,
                asked[i].0,
                json::JsonView::Str(asked[i].1),
            )
            &&& 0 <= i < own.len() && (forall|j: int|
                i < j < own.len() ==> (#[trigger] own[j]).0 != own[i].0) && (forall|j: int|
                0 <= j < asked.len() ==> (#[trigger] asked[j]).0 != own[i].0) ==> json::holds(
                env,
                own[i].0,
                json::JsonView::Str(own[i].1),
            )
        }),
{
    lemma_command_names();
    let own = sandbox::pairs_view(base.env@);
    let asked = sandbox::pairs_view(req.env@);
    let below = members(wire::nothing(), own);
    if 0 <= i < asked.len() && (forall|j: int|
        i < j < asked.len() ==> (#[trigger] asked[j]).0 != asked[i].0) {
        the_last_value_stands(below, asked, i);
    }
    if 0 <= i < own.len() && (forall|j: int|
        i < j < own.len() ==> (#[trigger] own[j]).0 != own[i].0) && (forall|j: int|
        0 <= j < asked.len() ==> (#[trigger] asked[j]).0 != own[i].0) {
        the_last_value_stands(wire::nothing(), own, i);
        other_values_stay(below, asked, own[i].0);
    }
}

/// A sandbox is asked for by its name in the project, with its variables, labels,
/// processors, lifetime and image, each where there is one.
pub proof fn sandboxes_are_asked_for_with_their_options(
    runtime: VercelRuntime,
    opts: SandboxOpts,
    name: Seq<char>,
)
    ensures
        ({
            let o = runtime.creation(opts, name);
            let env = sandbox::pairs_view(opts.env@);
            let labels = sandbox::pairs_view(opts.labels@);
            &&& json::holds(
                o,
                "projectId"@,
                json::JsonView::Str(runtime.client.config.project_id@),
            )
            &&& json::holds(o, "name"@, json::JsonView::Str(name))
            &&& opts.env@.len() > 0 ==> json::holds(
                o,
                "env"@,
                json::JsonView::Object(members(Map::empty(), env)),
            )
            &&& opts.env@.len() == 0 ==> !o.contains_key("env"@)
            &&& opts.labels@.len() > 0 ==> json::holds(
                o,
                "tags"@,
                json::JsonView::Object(members(Map::empty(), labels)),
            )
            &&& opts.labels@.len() == 0 ==> !o.contains_key("tags"@)
            &&& opts.cpu_limit is Some ==> o.contains_key("resources"@) && o["resources"@]
                is Object && json::holds(
                o["resources"@]->Object_0,
                "vcpus"@,
                json::JsonView::UInt((opts.cpu_limit->0).rounded() as u64),
            )
            &&& opts.cpu_limit is None ==> !o.contains_key("resources"@)
            &&& runtime.client.config.sandbox_timeout_ms is Some ==> json::holds(
                o,
                "timeout"@,
                json::JsonView::UInt(runtime.client.config.sandbox_timeout_ms->0),
            )
            &&& runtime.client.config.sandbox_timeout_ms is None ==> !o.contains_key("timeout"@)
            &&& opts.image@ != "cersei/sandbox-base:latest"@ ==> json::holds(
                o,
                "image"@,
                json::JsonView::Str(opts.image@),
            )
            &&& opts.image@ == "cersei/sandbox-base:latest"@ ==> !o.contains_key("image"@)
        }),
{
    lemma_creation_names();
}

/// A line of a listing says what an entry is, how large it is, when it was changed and
/// where it stands; a tab in the path belongs to the path. A line with fewer columns says
/// nothing.
pub proof fn rows_are_read_by_their_columns(
    kind: Seq<char>,
    size: u64,
    modified: Seq<char>,
    path: Seq<char>,
)
    requires
        !kind.contains('\t'),
        !modified.contains('\t'),
    ensures
        ({
            let tab = seq!['\t'];
            let line = kind + tab + (text::decimal(size as nat) + tab + (modified + tab + path));
            let row = row_of(line);
            &&& row is Some
            &&& kind == "d"@ ==> (row->0).kind == FileKind::Dir
            &&& kind == "l"@ ==> (row->0).kind == FileKind::Symlink
            &&& kind != "d"@ && kind != "l"@ ==> (row->0).kind == FileKind::File
            &&& (row->0).size == size
            &&& (row->0).modified == modified
            &&& (row->0).path == path
        }),
        row_of(kind) is None,
        row_of(kind + seq!['\t'] + modified) is None,
{
    reveal_strlit("d");
    reveal_strlit("l");
    assert("d"@[0] != "l"@[0]);
    let tab = seq!['\t'];
    let digits = text::decimal(size as nat);
    let c3 = modified + tab + path;
    let c2 = digits + tab + c3;
    let line = kind + tab + c2;
    text::decimals_read_back(size as nat);
    assert(!digits.contains('\t')) by {
        if digits.contains('\t') {
            let i = choose|i: int| 0 <= i < digits.len() && digits[i] == '\t';
            assert(48 <= digits[i] as u32);
        }
    }
    text::numbers_are_read_as_they_are_written(size as nat, u64::MAX as nat);
    text::the_last_piece_stays_whole(kind, c2, '\t', 4);
    text::the_last_piece_stays_whole(digits, c3, '\t', 3);
    text::the_last_piece_stays_whole(modified, path, '\t', 2);
    let parts = text::pieces_at_most(line, '\t', 4);
    assert(parts =~= seq![kind, digits, modified, path]);
    text::the_last_piece_stays_whole(kind, modified, '\t', 4);
    text::the_last_piece_stays_whole(modified, path, '\t', 3);
    assert(text::pieces_at_most(kind + tab + modified, '\t', 4) =~= seq![kind, modified]);
}

/// The rows of a listing are those of its lines, in their order.
pub proof fn rows_are_in_the_order_of_the_lines(lines: Seq<Seq<char>>, line: Seq<char>)
    ensures
        rows_of(Seq::empty()).len() == 0,
        row_of(line) is Some ==> rows_of(lines.push(line)) == rows_of(lines).push(row_of(line)->0),
        row_of(line) is None ==> rows_of(lines.push(line)) == rows_of(lines),
{
    assert(lines.push(line).drop_last() =~= lines);
}

/// The output of `stat` says what a file is, how large it is and, in seconds, when it was
/// changed, which counts in milliseconds. No output says that there is no file.
pub proof fn files_are_told_by_their_columns(
    path: Seq<char>,
    kind: Seq<char>,
    size: u64,
    seconds: nat,
)
    requires
        kind.len() > 0 && !text::white(kind[0]) && !kind.contains('|'),
        seconds * 1000 <= i64::MAX,
    ensures
        ({
            let bar = seq!['|'];
            let line = kind + bar + text::decimal(size as nat) + bar + text::decimal(seconds);
            let e = stat_of(path, line)->Ok_0;
            &&& stat_of(path, line) is Ok
            &&& e.path == path
            &&& text::occurs("directory"@, kind) ==> e.kind == FileKind::Dir
            &&& !text::occurs("directory"@, kind) && text::occurs("symbolic"@, kind) ==> e.kind
                == FileKind::Symlink
            &&& !text::occurs("directory"@, kind) && !text::occurs("symbolic"@, kind) ==> e.kind
                == FileKind::File
            &&& e.size == size
            &&& e.modified_unix_ms == seconds * 1000
        }),
        stat_of(path, Seq::empty()) == Err::<sandbox::EntryView, _>(
            sandbox::VmFailure::NotFound(path),
        ),
{
    let bar = seq!['|'];
    let d = text::decimal(size as nat);
    let t = text::decimal(seconds);
    let line = kind + bar + d + bar + t;
    text::decimals_read_back(size as nat);
    text::decimals_read_back(seconds);
    text::blanks_are_white();
    assert(!text::white(t[t.len() - 1]));
    assert(line[0] == kind[0]);
    assert(line.last() == t[t.len() - 1]);
    text::tight_texts_stay(line);
    let parts = seq![kind, d, t];
    assert forall|i: int| 0 <= i < d.len() implies d[i] != '|' by {
        assert(48 <= d[i] as u32 <= 57);
    }
    assert forall|i: int| 0 <= i < t.len() implies t[i] != '|' by {
        assert(48 <= t[i] as u32 <= 57);
    }
    assert forall|i: int| 0 <= i < parts.len() implies !(#[trigger] parts[i]).contains('|') by {
        assert(parts[0] == kind && parts[1] == d && parts[2] == t);
    }
    text::joined_texts_come_apart(parts, '|');
    assert(parts.drop_last() =~= seq![kind, d]);
    assert(seq![kind, d].drop_last() =~= seq![kind]);
    reveal_with_fuel(text::joined, 4);
    assert(text::joined(parts, bar) =~= line);
    text::numbers_are_read_as_they_are_written(size as nat, u64::MAX as nat);
    text::numbers_are_read_as_they_are_written(seconds, u64::MAX as nat);
    assert(text::trimmed(Seq::empty()) =~= Seq::<char>::empty());
}

/// A listing is made by `find`, of the path as one word and down to the depth, at least of
/// the directory itself.
pub proof fn listings_are_of_the_path_as_one_word(path: Seq<char>, depth: u32)
    ensures
        exists|word: Seq<char>| #[trigger]
            sandbox::word_value(word, false) == Some(path) && list_text(path, depth) == "find "@
                + word + " -mindepth 1 -maxdepth "@ + text::decimal(
                if depth > 1 {
                    depth as nat
                } else {
                    1
                },
            ) + " -printf '%y\\t%s\\t%T@\\t%p\\n' 2>/dev/null || true"@,
{
    sandbox::shell_undoes_quoting(path);
    assert(sandbox::word_value(sandbox::quoted(path), false) == Some(path));
}

/// Files are seen from the directory of the sandbox, or from the root where it has none.
pub proof fn files_are_seen_from_the_directory(fs: VercelFilesystem)
    ensures
        fs.workdir is Some ==> fs.base() == fs.workdir->0@,
        fs.workdir is None ==> fs.base() == seq!['/'],
{
    reveal_strlit("/");
    assert("/"@ =~= seq!['/']);
}

/// A path from the root is packed without its root, and any other path as it is.
pub proof fn paths_are_packed_without_the_root(names: Seq<Seq<char>>, path: Seq<char>)
    requires
        names.len() > 0,
        forall|i: int| 0 <= i < names.len() ==> paths::is_name(#[trigger] names[i]),
        path.len() > 0 ==> path[0] != '/',
    ensures
        inside_root(seq!['/'] + text::joined(names, seq!['/'])) == text::joined(names, seq!['/']),
        inside_root(path) == path,
{
    reveal_strlit("/");
    reveal_strlit(".");
    assert("/"@ =~= seq!['/']);
    assert("."@ =~= seq!['.']);
    let nothing = Seq::<char>::empty();
    let rooted = seq![nothing] + names;
    assert forall|i: int| 0 <= i < rooted.len() implies !(#[trigger] rooted[i]).contains('/') by {
        if i > 0 {
            assert(rooted[i] == names[i - 1]);
        }
    }
    text::joined_texts_come_apart(rooted, '/');
    text::texts_are_joined_in_order(seq![nothing], names, seq!['/']);
    assert(text::joined(rooted, seq!['/']) =~= seq!['/'] + text::joined(names, seq!['/']));
    assert(rooted.skip(1) =~= names);
    assert(paths::is_name(names[0]));
    assert(paths::is_name(names[names.len() - 1]));
    assert(from_first(rooted) == from_first(names));
    assert(from_first(names) == names);
    assert(to_last(names) == names);
}

/// A pointer is written with its kind before the snapshot; what is written otherwise, or
/// names nothing, points to nothing.
pub proof fn pointers_are_written_with_their_kind(id: Seq<char>, other: Seq<char>)
    ensures
        pointer_to(id) == "vercel-snapshot="@ + id,
        !"vercel-snapshot="@.is_prefix_of(other) ==> pointed(other) is None,
        pointed("vercel-snapshot="@) is None,
{
    let p = "vercel-snapshot="@;
    assert(p.skip(p.len() as int) =~= Seq::<char>::empty());
}

/// An output of `stat` that has not three columns is an error that shows it.
pub proof fn other_columns_are_errors(path: Seq<char>, line: Seq<char>)
    requires
        line.len() > 0,
        text::tight(line),
        text::pieces(line, '|').len() != 3,
    ensures
        stat_of(path, line) == Err::<sandbox::EntryView, _>(
            sandbox::VmFailure::Backend {
                backend: "vercel"@,
                message: "bad stat output: "@ + line,
            },
        ),
{
    text::tight_texts_stay(line);
}

/// A file is looked at, made and removed by scripts that hold its path as one word.
pub proof fn scripts_hold_the_path_as_one_word(
    fs: &VercelFilesystem,
    path: &str,
    stat: String,
    mkdir: String,
    remove: String,
    all: String,
)
    requires
        call_ensures(VercelFilesystem::stat_script, (fs, path), stat),
        call_ensures(VercelFilesystem::mkdir_script, (fs, path), mkdir),
        call_ensures(VercelFilesystem::remove_script, (fs, path, false), remove),
        call_ensures(VercelFilesystem::remove_script, (fs, path, true), all),
    ensures
        exists|word: Seq<char>| #[trigger]
            sandbox::word_value(word, false) == Some(path@) && stat@ == "stat -c '%F|%s|%Y' "@ + word
                + " 2>/dev/null || true"@ && mkdir@ == "mkdir "@ + word && remove@ == "rm "@ + "-f"@
                + " "@ + word && all@ == "rm "@ + "-rf"@ + " "@ + word,
{
    sandbox::shell_undoes_quoting(path@);
    assert(sandbox::word_value(sandbox::quoted(path@), false) == Some(path@));
}

/// A sandbox is made out of a snapshot by the snapshot's id.
pub proof fn snapshots_are_named_by_their_ids(
    runtime: &VercelRuntime,
    opts: &SandboxOpts,
    name: &str,
    pointer: &str,
    id: Seq<char>,
    r: Result<Json, VmError>,
)
    requires
        call_ensures(VercelRuntime::plan_create, (runtime, opts, name, Some(pointer)), r),
        opts.volumes@.len() == 0,
        pointer@ == "vercel-snapshot="@ + id,
        id.len() > 0,
    ensures
        ({
            let o = (r->Ok_0)@->Object_0;
            &&& r is Ok && (r->Ok_0)@ is Object
            &&& o.contains_key("source"@) && o["source"@] is Object
            &&& json::holds(o["source"@]->Object_0, "type"@, json::JsonView::Str("snapshot"@))
            &&& json::holds(o["source"@]->Object_0, "snapshotId"@, json::JsonView::Str(id))
        }),
{
    pointers_lead_back(id, id);
    reveal_strlit("type");
    reveal_strlit("snapshotId");
    assert("type"@.len() == 4 && "snapshotId"@.len() == 10);
}

/// A command runs in the background by the script that leaves it behind, and else as it is
/// and with its time limit.
pub proof fn commands_run_as_they_are_asked_to(req: &RunRequest, base: &CommandContext, r: VercelRun)
    requires
        call_ensures(plan_run, (req, base), r),
    ensures
        req.background ==> r is Background && (r->Background_0)@ == command_json(
            *req,
            sandbox::detached(req.command@),
            *base,
        ),
        !req.background ==> r is Foreground && (r->Foreground_0)@ == command_json(
            *req,
            req.command@,
            *base,
        ) && (r->Foreground_1).total() == sandbox::time_limit(req.timeout),
{
}

} // verus!
