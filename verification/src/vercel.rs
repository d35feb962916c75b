//! The Vercel back end: remote sandboxes over the REST API.
//!
//! A sandbox has a name and a session; the session id changes when a stopped
//! sandbox is resumed. A command is answered by lines of JSON: the command's
//! record, the lines of its output, and the record again with the exit code.

use crate::json;
use crate::json::{Json, JsonObject};
use crate::sandbox;
use crate::sandbox::{RunOutput, StreamChunk, VmError};
use crate::text;
use crate::types;
use crate::wire;
use vstd::prelude::*;
use vstd::string::*;

verus! {

/// The variable that holds the access token.
pub const VERCEL_TOKEN_ENV: &'static str = "VERCEL_TOKEN";

/// The variable that may hold the team id.
pub const VERCEL_TEAM_ID_ENV: &'static str = "VERCEL_TEAM_ID";

/// The variable that holds the project id.
pub const VERCEL_PROJECT_ID_ENV: &'static str = "VERCEL_PROJECT_ID";

/// The variable that may hold another API address.
pub const VERCEL_BASE_URL_ENV: &'static str = "VERCEL_SANDBOX_BASE_URL";

/// The address of the API.
pub const DEFAULT_BASE_URL: &'static str = "https://vercel.com/api";

/// The image that options name by default. Vercel has images of its own, so this
/// one is never passed on.
pub const DEFAULT_IMAGE: &'static str = "cersei/sandbox-base:latest";

/// The permissions of a written file.
pub const FILE_MODE: u32 = 420;

/// How the API is reached.
#[derive(Clone, Debug, PartialEq, Eq)]
pub struct VercelConfig {
    pub token: String,
    /// No team is a personal account.
    pub team_id: Option<String>,
    pub project_id: String,
    pub base_url: String,
    /// How long a sandbox lives, in milliseconds; none leaves it to the server.
    pub sandbox_timeout_ms: Option<u64>,
}

impl VercelConfig {
    /// Settings for a personal account, with the server's defaults.
    pub fn new(token: &str, project_id: &str) -> (r: VercelConfig)
        ensures
            r.token@ == token@,
            r.team_id is None,
            r.project_id@ == project_id@,
            r.base_url@ == DEFAULT_BASE_URL@,
            r.sandbox_timeout_ms is None,
    {
        VercelConfig {
            token: token.to_string(),
            team_id: None,
            project_id: project_id.to_string(),
            base_url: DEFAULT_BASE_URL.to_string(),
            sandbox_timeout_ms: None,
        }
    }

    pub fn with_team_id(self, team_id: &str) -> (r: VercelConfig)
        ensures
            types::opt_view(r.team_id) == Some(team_id@),
            r == (VercelConfig { team_id: r.team_id, ..self }),
    {
        VercelConfig { team_id: Some(team_id.to_string()), ..self }
    }

    pub fn with_base_url(self, base_url: &str) -> (r: VercelConfig)
        ensures
            r.base_url@ == base_url@,
            r == (VercelConfig { base_url: r.base_url, ..self }),
    {
        VercelConfig { base_url: base_url.to_string(), ..self }
    }

    pub fn with_sandbox_timeout_ms(self, ms: u64) -> (r: VercelConfig)
        ensures
            r == (VercelConfig { sandbox_timeout_ms: Some(ms), ..self }),
    {
        VercelConfig { sandbox_timeout_ms: Some(ms), ..self }
    }

    /// Settings out of the values that the variables have. The token and the
    /// project must be there; the token is looked at first.
    pub fn from_env(
        token: Option<String>,
        project_id: Option<String>,
        team_id: Option<String>,
        base_url: Option<String>,
    ) -> (r: Result<VercelConfig, VmError>)
        ensures
            match (token, project_id) {
                (Some(t), Some(p)) => r matches Ok(c) && c.token@ == t@ && c.project_id@ == p@
                    && c.team_id == team_id && c.base_url@ == (match base_url {
                    Some(u) => u@,
                    None => DEFAULT_BASE_URL@,
                }) && c.sandbox_timeout_ms is None,
                (None, _) => r matches Err(e) && e@ == sandbox::VmFailure::Invalid(
                    VERCEL_TOKEN_ENV@ + " is not set"@,
                ),
                (Some(_), None) => r matches Err(e) && e@ == sandbox::VmFailure::Invalid(
                    VERCEL_PROJECT_ID_ENV@ + " is not set"@,
                ),
            },
    {
        let t = match token {
            Some(t) => t,
            None => {
                return Err(sandbox::variable_missing(VERCEL_TOKEN_ENV));
            },
        };
        let p = match project_id {
            Some(p) => p,
            None => {
                return Err(sandbox::variable_missing(VERCEL_PROJECT_ID_ENV));
            },
        };
        let mut config = VercelConfig::new(t.as_str(), p.as_str());
        config.team_id = team_id;
        if let Some(url) = base_url {
            config.base_url = url;
        }
        Ok(config)
    }
}

// ─── Requests ────────────────────────────────────────────────────────────────

/// The method of a request.
#[derive(Clone, Copy, Debug, PartialEq, Eq, Structural)]
pub enum Method {
    Get,
    Post,
    Delete,
}

/// A request as it is handed to the HTTP client.
#[derive(Debug, PartialEq)]
pub struct ApiRequest {
    pub method: Method,
    pub url: String,
    pub bearer: String,
    pub query: Vec<(String, String)>,
    pub headers: Vec<(String, String)>,
    pub body: Option<Json>,
}

/// The request by its parts.
#[verifier::ext_equal]
pub ghost struct ApiCall {
    pub method: Method,
    pub url: Seq<char>,
    pub bearer: Seq<char>,
    pub query: Seq<(Seq<char>, Seq<char>)>,
    pub headers: Seq<(Seq<char>, Seq<char>)>,
    pub body: Option<json::JsonView>,
}

impl View for ApiRequest {
    type V = ApiCall;

    open spec fn view(&self) -> ApiCall {
        ApiCall {
            method: self.method,
            url: self.url@,
            bearer: self.bearer@,
            query: sandbox::pairs_view(self.query@),
            headers: sandbox::pairs_view(self.headers@),
            body: match self.body {
                Some(b) => Some(b@),
                None => None,
            },
        }
    }
}

impl ApiCall {
    pub open spec fn asking(self, key: Seq<char>, value: Seq<char>) -> ApiCall {
        ApiCall { query: self.query.push((key, value)), ..self }
    }

    pub open spec fn with_header(self, key: Seq<char>, value: Seq<char>) -> ApiCall {
        ApiCall { headers: self.headers.push((key, value)), ..self }
    }

    pub open spec fn sending(self, body: json::JsonView) -> ApiCall {
        ApiCall { body: Some(body), ..self }
    }
}

fn push_pair(list: &mut Vec<(String, String)>, key: &str, value: &str)
    ensures
        sandbox::pairs_view(final(list)@) == sandbox::pairs_view(old(list)@).push((key@, value@)),
{
    list.push((key.to_string(), value.to_string()));
    assert(sandbox::pairs_view(list@) =~= sandbox::pairs_view(old(list)@).push((key@, value@)));
}

impl ApiRequest {
    fn ask(&mut self, key: &str, value: &str)
        ensures
            final(self)@ == old(self)@.asking(key@, value@),
    {
        push_pair(&mut self.query, key, value);
    }

    fn add_header(&mut self, key: &str, value: &str)
        ensures
            final(self)@ == old(self)@.with_header(key@, value@),
    {
        push_pair(&mut self.headers, key, value);
    }

    fn set_body(&mut self, body: Json)
        ensures
            final(self)@ == old(self)@.sending(body@),
    {
        self.body = Some(body);
    }
}

/// The path of a session's endpoint.
pub open spec fn session_path(session: Seq<char>, endpoint: Seq<char>) -> Seq<char> {
    "/v2/sandboxes/sessions/"@ + session + endpoint
}

/// The path of a sandbox.
pub open spec fn sandbox_path(name: Seq<char>) -> Seq<char> {
    "/v2/sandboxes/"@ + name
}

/// The body that names a path, seen from a directory.
pub open spec fn path_body(path: Seq<char>, cwd: Seq<char>) -> json::JsonView {
    json::JsonView::Object(
        wire::with(
            wire::with(wire::nothing(), "path"@, json::JsonView::Str(path)),
            "cwd"@,
            json::JsonView::Str(cwd),
        ),
    )
}

fn path_object(path: &str, cwd: &str) -> (r: Json)
    ensures
        r@ == path_body(path@, cwd@),
{
    let mut o = JsonObject::new();
    o.set("path", Json::str(path));
    o.set("cwd", Json::str(cwd));
    Json::Object(o)
}

/// The requests that the back end makes.
#[derive(Clone, Debug, PartialEq, Eq)]
pub struct VercelClient {
    pub config: VercelConfig,
}

impl VercelClient {
    /// A request to a path: with the token, and for the team where there is one.
    pub open spec fn call(&self, method: Method, path: Seq<char>) -> ApiCall {
        ApiCall {
            method,
            url: self.config.base_url@ + path,
            bearer: self.config.token@,
            query: match self.config.team_id {
                Some(t) => seq![("teamId"@, t@)],
                None => Seq::empty(),
            },
            headers: Seq::empty(),
            body: None,
        }
    }

    pub fn new(config: VercelConfig) -> (r: VercelClient)
        ensures
            r.config == config,
    {
        VercelClient { config }
    }

    /// A request to a path.
    pub fn request(&self, method: Method, path: &str) -> (r: ApiRequest)
        ensures
            r@ == self.call(method, path@),
    {
        let mut query: Vec<(String, String)> = Vec::new();
        assert(sandbox::pairs_view(query@) =~= Seq::<(Seq<char>, Seq<char>)>::empty());
        if let Some(team) = &self.config.team_id {
            push_pair(&mut query, "teamId", team.as_str());
            assert(sandbox::pairs_view(query@) =~= seq![("teamId"@, team@)]);
        }
        let headers: Vec<(String, String)> = Vec::new();
        assert(sandbox::pairs_view(headers@) =~= Seq::<(Seq<char>, Seq<char>)>::empty());
        ApiRequest {
            method,
            url: text::cat(self.config.base_url.as_str(), path),
            bearer: self.config.token.clone(),
            query,
            headers,
            body: None,
        }
    }

    /// Makes a sandbox.
    pub fn create_sandbox(&self, body: Json) -> (r: ApiRequest)
        ensures
            r@ == self.call(Method::Post, "/v3/sandboxes"@).sending(body@),
    {
        let mut req = self.request(Method::Post, "/v3/sandboxes");
        req.set_body(body);
        req
    }

    /// Looks a sandbox up, and wakes it where it is to be resumed.
    pub fn get_sandbox(&self, name: &str, resume: bool) -> (r: ApiRequest)
        ensures
            ({
                let found = self.call(Method::Get, sandbox_path(name@)).asking(
                    "projectId"@,
                    self.config.project_id@,
                );
                r@ == if resume {
                    found.asking("resume"@, "true"@)
                } else {
                    found
                }
            }),
    {
        let path = text::cat("/v2/sandboxes/", name);
        let mut req = self.request(Method::Get, path.as_str());
        req.ask("projectId", self.config.project_id.as_str());
        if resume {
            req.ask("resume", "true");
        }
        req
    }

    /// Asks for one page of sandboxes.
    pub fn list_sandboxes(&self, name_prefix: &str, cursor: &Option<String>) -> (r: ApiRequest)
        ensures
            ({
                let page = self.call(Method::Get, "/v2/sandboxes"@).asking(
                    "project"@,
                    self.config.project_id@,
                ).asking("namePrefix"@, name_prefix@);
                r@ == match *cursor {
                    Some(c) => page.asking("cursor"@, c@),
                    None => page,
                }
            }),
    {
        let mut req = self.request(Method::Get, "/v2/sandboxes");
        req.ask("project", self.config.project_id.as_str());
        req.ask("namePrefix", name_prefix);
        if let Some(c) = cursor {
            req.ask("cursor", c.as_str());
        }
        req
    }

    /// Deletes a sandbox.
    pub fn delete_sandbox(&self, name: &str) -> (r: ApiRequest)
        ensures
            r@ == self.call(Method::Delete, sandbox_path(name@)).asking(
                "projectId"@,
                self.config.project_id@,
            ),
    {
        let path = text::cat("/v2/sandboxes/", name);
        let mut req = self.request(Method::Delete, path.as_str());
        req.ask("projectId", self.config.project_id.as_str());
        req
    }

    fn session_request(&self, session_id: &str, endpoint: &str) -> (r: ApiRequest)
        ensures
            r@ == self.call(Method::Post, session_path(session_id@, endpoint@)),
    {
        let path = text::cat3("/v2/sandboxes/sessions/", session_id, endpoint);
        self.request(Method::Post, path.as_str())
    }

    /// Stops a session.
    pub fn stop_session(&self, session_id: &str) -> (r: ApiRequest)
        ensures
            r@ == self.call(Method::Post, session_path(session_id@, "/stop"@)),
    {
        self.session_request(session_id, "/stop")
    }

    /// Takes a snapshot.
    pub fn create_snapshot(&self, session_id: &str) -> (r: ApiRequest)
        ensures
            r@ == self.call(Method::Post, session_path(session_id@, "/snapshot"@)),
    {
        self.session_request(session_id, "/snapshot")
    }

    /// Runs a command.
    pub fn start_command(&self, session_id: &str, body: Json) -> (r: ApiRequest)
        ensures
            r@ == self.call(Method::Post, session_path(session_id@, "/cmd"@)).sending(body@),
    {
        let mut req = self.session_request(session_id, "/cmd");
        req.set_body(body);
        req
    }

    /// Reads a file.
    pub fn fs_read(&self, session_id: &str, path: &str, cwd: &str) -> (r: ApiRequest)
        ensures
            r@ == self.call(Method::Post, session_path(session_id@, "/fs/read"@)).sending(
                path_body(path@, cwd@),
            ),
    {
        let mut req = self.session_request(session_id, "/fs/read");
        req.set_body(path_object(path, cwd));
        req
    }

    /// Makes a directory and its parents.
    pub fn fs_mkdir(&self, session_id: &str, path: &str, cwd: &str) -> (r: ApiRequest)
        ensures
            r@ == self.call(Method::Post, session_path(session_id@, "/fs/mkdir"@)).sending(
                path_body(path@, cwd@),
            ),
    {
        let mut req = self.session_request(session_id, "/fs/mkdir");
        req.set_body(path_object(path, cwd));
        req
    }

    /// Unpacks an archive in a directory. The archive itself is the body that goes
    /// with it.
    pub fn fs_write(&self, session_id: &str, extract_dir: &str) -> (r: ApiRequest)
        ensures
            r@ == self.call(Method::Post, session_path(session_id@, "/fs/write"@)).with_header(
                "content-type"@,
                "application/gzip"@,
            ).with_header("x-cwd"@, extract_dir@),
    {
        let mut req = self.session_request(session_id, "/fs/write");
        req.add_header("content-type", "application/gzip");
        req.add_header("x-cwd", extract_dir);
        req
    }
}

// ─── Replies ─────────────────────────────────────────────────────────────────

/// The first characters of a reply, for a message.
pub open spec fn excerpt(s: Seq<char>) -> Seq<char> {
    if s.len() <= 300 {
        s
    } else {
        s.take(300)
    }
}

fn take_excerpt(s: &str) -> (r: String)
    ensures
        r@ == excerpt(s@),
{
    let v = text::chars_of(s);
    if v.len() <= 300 {
        assert(v@.subrange(0, v@.len() as int) =~= v@);
        text::string_of(&v, 0, v.len())
    } else {
        assert(v@.subrange(0, 300) =~= v@.take(300));
        text::string_of(&v, 0, 300)
    }
}

/// Whether a reply says that the request succeeded.
pub open spec fn succeeded(status: u16) -> bool {
    200 <= status < 300
}

/// What a reply comes to by its status: a failure has the message of the API, or
/// the start of the reply where there is none. `shown` is the status as it is
/// written.
pub open spec fn reply_failure(
    status: u16,
    shown: Seq<char>,
    api_message: Option<Seq<char>>,
    body: Seq<char>,
) -> Option<sandbox::VmFailure> {
    let message = match api_message {
        Some(m) => m,
        None => excerpt(body),
    };
    if succeeded(status) {
        None
    } else if status == 404 {
        Some(sandbox::VmFailure::NotFound(message))
    } else {
        Some(
            sandbox::VmFailure::Backend {
                backend: "vercel"@,
                message: "HTTP "@ + shown + ": "@ + message,
            },
        )
    }
}

/// What a reply comes to by its status.
pub fn check_reply(status: u16, shown: &str, api_message: Option<String>, body: &str) -> (r: Result<
    (),
    VmError,
>)
    ensures
        match reply_failure(status, shown@, types::opt_view(api_message), body@) {
            Some(f) => r matches Err(e) && e@ == f,
            None => r is Ok,
        },
{
    if status >= 200 && status < 300 {
        return Ok(());
    }
    let message = match api_message {
        Some(m) => m,
        None => take_excerpt(body),
    };
    if status == 404 {
        return Err(VmError::NotFound(message));
    }
    let mut s = text::cat3("HTTP ", shown, ": ");
    s.append(message.as_str());
    Err(sandbox::backend_error("vercel", s))
}

/// What the reply to a read of a file comes to by its status.
pub fn check_read(path: &str, status: u16, shown: &str, body: &str) -> (r: Result<(), VmError>)
    ensures
        succeeded(status) ==> r is Ok,
        status == 404 ==> (r matches Err(e) && e@ == sandbox::VmFailure::NotFound(path@)),
        !succeeded(status) && status != 404 ==> (r matches Err(e) && e@
            == sandbox::VmFailure::Backend {
            backend: "vercel"@,
            message: "fs/read HTTP "@ + shown@ + ": "@ + excerpt(body@),
        }),
{
    if status >= 200 && status < 300 {
        return Ok(());
    }
    if status == 404 {
        return Err(VmError::NotFound(path.to_string()));
    }
    let message = take_excerpt(body);
    let mut s = text::cat3("fs/read HTTP ", shown, ": ");
    s.append(message.as_str());
    Err(sandbox::backend_error("vercel", s))
}

/// A failure between the client and the server: where it happened, and what it was.
pub fn transport_failure(place: &str, message: &str) -> (r: VmError)
    ensures
        r@ == (sandbox::VmFailure::Backend {
            backend: "vercel"@,
            message: place@ + ": "@ + message@,
        }),
{
    sandbox::backend_error("vercel", text::cat3(place, ": ", message))
}

/// A sandbox as the API lists it.
#[derive(Clone, Debug, PartialEq, Eq)]
pub struct ApiSandbox {
    pub name: String,
    pub status: String,
    pub created_at: i64,
    pub tags: Option<Vec<(String, String)>>,
}

/// The pages of a list of sandboxes.
#[derive(Clone, Debug, PartialEq, Eq)]
pub struct SandboxPages {
    pub sandboxes: Vec<ApiSandbox>,
    pub cursor: Option<String>,
}

impl SandboxPages {
    pub fn new() -> (r: SandboxPages)
        ensures
            r.sandboxes@.len() == 0,
            r.cursor is None,
    {
        SandboxPages { sandboxes: Vec::new(), cursor: None }
    }

    /// Takes in a page, and says whether another one follows.
    pub fn page(&mut self, sandboxes: Vec<ApiSandbox>, next: Option<String>) -> (more: bool)
        ensures
            more == (next is Some),
            final(self).sandboxes@ == old(self).sandboxes@ + sandboxes@,
            final(self).cursor == (match next {
                Some(_) => next,
                None => old(self).cursor,
            }),
    {
        let mut page = sandboxes;
        self.sandboxes.append(&mut page);
        match next {
            Some(_) => {
                self.cursor = next;
                true
            },
            None => false,
        }
    }
}

// ─── The output of commands ──────────────────────────────────────────────────

/// The record of a command.
#[derive(Clone, Debug, PartialEq, Eq)]
pub struct ApiCommand {
    pub id: String,
    pub exit_code: Option<i64>,
}

/// An error in the output.
#[derive(Clone, Debug, PartialEq, Eq)]
pub struct ApiLogError {
    pub code: String,
    pub message: String,
}

/// A line of output.
#[derive(Clone, Debug, PartialEq, Eq)]
pub enum ApiLogLine {
    Stdout { data: String },
    Stderr { data: String },
    Error { data: ApiLogError },
}

/// A line of the reply to a command.
#[derive(Clone, Debug, PartialEq, Eq)]
pub enum CmdStreamLine {
    Command { command: ApiCommand },
    Log(ApiLogLine),
}

/// The error for a line that cannot be read.
pub fn unparseable(line: &str, why: &str) -> (r: VmError)
    ensures
        r@ == (sandbox::VmFailure::Backend {
            backend: "vercel"@,
            message: "unparseable command stream line ("@ + why@ + "): "@ + line@,
        }),
{
    let mut s = text::cat3("unparseable command stream line (", why, "): ");
    s.append(line);
    sandbox::backend_error("vercel", s)
}

/// The output of a command by the lines of its reply, or the first error in them.
pub open spec fn output_of(lines: Seq<CmdStreamLine>) -> Result<
    sandbox::OutputView,
    sandbox::VmFailure,
>
    decreases lines.len(),
{
    if lines.len() == 0 {
        Ok(
            sandbox::OutputView {
                stdout: Seq::empty(),
                stderr: Seq::empty(),
                exit_code: (-1) as i32,
                timed_out: false,
                pid: None,
            },
        )
    } else {
        match output_of(lines.drop_last()) {
            Err(f) => Err(f),
            Ok(o) => match lines.last() {
                CmdStreamLine::Command { command } => match command.exit_code {
                    Some(code) => Ok(sandbox::OutputView { exit_code: code as i32, ..o }),
                    None => Ok(o),
                },
                CmdStreamLine::Log(ApiLogLine::Stdout { data }) => Ok(
                    sandbox::OutputView { stdout: o.stdout + data@, ..o },
                ),
                CmdStreamLine::Log(ApiLogLine::Stderr { data }) => Ok(
                    sandbox::OutputView { stderr: o.stderr + data@, ..o },
                ),
                CmdStreamLine::Log(ApiLogLine::Error { data }) => Err(
                    sandbox::VmFailure::Backend {
                        backend: "vercel"@,
                        message: "command error ("@ + data.code@ + "): "@ + data.message@,
                    },
                ),
            },
        }
    }
}

proof fn lemma_first_error(lines: Seq<CmdStreamLine>, n: int)
    requires
        0 <= n <= lines.len(),
        output_of(lines.take(n)) is Err,
    ensures
        output_of(lines) == output_of(lines.take(n)),
    decreases lines.len(),
{
    if n == lines.len() {
        assert(lines.take(n) =~= lines);
    } else {
        assert(lines.drop_last().take(n) =~= lines.take(n));
        lemma_first_error(lines.drop_last(), n);
    }
}

/// The output of a command so far.
#[derive(Clone, Debug, PartialEq, Eq)]
pub struct RunCollector {
    pub stdout: String,
    pub stderr: String,
    pub exit_code: i32,
}

impl RunCollector {
    /// The output so far, as of a finished command.
    pub open spec fn so_far(&self) -> sandbox::OutputView {
        sandbox::OutputView {
            stdout: self.stdout@,
            stderr: self.stderr@,
            exit_code: self.exit_code,
            timed_out: false,
            pid: None,
        }
    }

    pub fn new() -> (r: RunCollector)
        ensures
            output_of(Seq::empty()) == Ok::<_, sandbox::VmFailure>(r.so_far()),
    {
        let r = RunCollector { stdout: String::new(), stderr: String::new(), exit_code: -1 };
        assert(r.stdout@ =~= Seq::<char>::empty());
        assert(r.stderr@ =~= Seq::<char>::empty());
        r
    }

    /// Takes in a line. Whatever lines led to the output so far, the result is what
    /// they come to with this one.
    pub fn line(&mut self, line: &CmdStreamLine) -> (r: Result<(), VmError>)
        ensures
            forall|lines: Seq<CmdStreamLine>| #[trigger]
                output_of(lines) == Ok::<_, sandbox::VmFailure>(old(self).so_far()) ==> match r {
                    Ok(_) => output_of(lines.push(*line)) == Ok::<_, sandbox::VmFailure>(
                        final(self).so_far(),
                    ),
                    Err(e) => output_of(lines.push(*line)) == Err::<sandbox::OutputView, _>(e@),
                },
    {
        assert forall|lines: Seq<CmdStreamLine>|
            (#[trigger] lines.push(*line)).drop_last() == lines && lines.push(*line).last()
                == *line by {
            assert(lines.push(*line).drop_last() =~= lines);
        }
        match line {
            CmdStreamLine::Command { command } => {
                if let Some(code) = command.exit_code {
                    self.exit_code = code as i32;
                }
            },
            CmdStreamLine::Log(ApiLogLine::Stdout { data }) => {
                self.stdout.append(data.as_str());
            },
            CmdStreamLine::Log(ApiLogLine::Stderr { data }) => {
                self.stderr.append(data.as_str());
            },
            CmdStreamLine::Log(ApiLogLine::Error { data }) => {
                let mut s = text::cat3("command error (", data.code.as_str(), "): ");
                s.append(data.message.as_str());
                return Err(sandbox::backend_error("vercel", s));
            },
        }
        Ok(())
    }

    /// The output of the finished command.
    pub fn finish(self) -> (r: RunOutput)
        ensures
            r@ == self.so_far(),
    {
        RunOutput {
            stdout: self.stdout,
            stderr: self.stderr,
            exit_code: self.exit_code,
            timed_out: false,
            pid: None,
        }
    }
}

/// The output of a command by the lines of its reply.
pub fn collect_run_output(lines: &Vec<CmdStreamLine>) -> (r: Result<RunOutput, VmError>)
    ensures
        match output_of(lines@) {
            Ok(o) => r matches Ok(v) && v@ == o,
            Err(f) => r matches Err(e) && e@ == f,
        },
{
    let mut collector = RunCollector::new();
    let mut i: usize = 0;
    assert(lines@.take(0) =~= Seq::<CmdStreamLine>::empty());
    while i < lines.len()
        invariant
            i <= lines@.len(),
            output_of(lines@.take(i as int)) == Ok::<_, sandbox::VmFailure>(collector.so_far()),
        decreases lines@.len() - i,
    {
        assert(lines@.take(i + 1) =~= lines@.take(i as int).push(lines@[i as int]));
        match collector.line(&lines[i]) {
            Ok(_) => {},
            Err(e) => {
                proof {
                    lemma_first_error(lines@, i + 1);
                }
                return Err(e);
            },
        }
        i = i + 1;
    }
    assert(lines@.take(i as int) =~= lines@);
    Ok(collector.finish())
}

/// What a client sees of a command as it runs, and its last exit code.
#[derive(Clone, Debug, PartialEq, Eq)]
pub struct StreamFold {
    pub exit_code: Option<i32>,
}

impl StreamFold {
    pub fn new() -> (r: StreamFold)
        ensures
            r.exit_code is None,
    {
        StreamFold { exit_code: None }
    }

    /// Takes in a line. A record gives the exit code and nothing to see; a record
    /// without one leaves it as it was.
    pub fn line(&mut self, line: CmdStreamLine) -> (r: Option<StreamChunk>)
        ensures
            match line {
                CmdStreamLine::Command { command } => r is None && final(self).exit_code == (
                match command.exit_code {
                    Some(code) => Some(code as i32),
                    None => old(self).exit_code,
                }),
                CmdStreamLine::Log(ApiLogLine::Stdout { data }) => r == Some(
                    StreamChunk::Stdout { data },
                ) && *final(self) == *old(self),
                CmdStreamLine::Log(ApiLogLine::Stderr { data }) => r == Some(
                    StreamChunk::Stderr { data },
                ) && *final(self) == *old(self),
                CmdStreamLine::Log(ApiLogLine::Error { data }) => r matches Some(
                    StreamChunk::Error { message },
                ) && message@ == data.code@ + ": "@ + data.message@ && *final(self) == *old(self),
            },
    {
        match line {
            CmdStreamLine::Command { command } => {
                if let Some(code) = command.exit_code {
                    self.exit_code = Some(code as i32);
                }
                None
            },
            CmdStreamLine::Log(ApiLogLine::Stdout { data }) => Some(StreamChunk::Stdout { data }),
            CmdStreamLine::Log(ApiLogLine::Stderr { data }) => Some(StreamChunk::Stderr { data }),
            CmdStreamLine::Log(ApiLogLine::Error { data }) => Some(
                StreamChunk::Error {
                    message: text::cat3(data.code.as_str(), ": ", data.message.as_str()),
                },
            ),
        }
    }

    /// What is seen at the end.
    pub fn finish(&self) -> (r: StreamChunk)
        ensures
            r == (StreamChunk::Exit {
                code: match self.exit_code {
                    Some(code) => code,
                    None => (-1) as i32,
                },
            }),
    {
        StreamChunk::Exit {
            code: match self.exit_code {
                Some(code) => code,
                None => -1,
            },
        }
    }
}

/// The script's output, or an error where it failed.
pub fn shell_ok(script: &str, out: RunOutput) -> (r: Result<RunOutput, VmError>)
    ensures
        out.exit_code == 0 ==> r == Ok::<_, VmError>(out),
        out.exit_code != 0 ==> (r matches Err(e) && e@ == sandbox::VmFailure::Backend {
            backend: "vercel"@,
            message: "`"@ + script@ + "` exited "@ + sandbox::signed_decimal(out.exit_code as int)
                + ": "@ + text::trimmed(out.stderr@),
        }),
{
    if out.exit_code == 0 {
        return Ok(out);
    }
    let mut s = text::cat3("`", script, "` exited ");
    sandbox::push_signed(&mut s, out.exit_code);
    s.append(": ");
    let t = text::trim(out.stderr.as_str());
    s.append(t.as_str());
    Err(sandbox::backend_error("vercel", s))
}

// ─── Laws ────────────────────────────────────────────────────────────────────

/// A request goes to the path on the server, with the token, and for the team where there
/// is one.
pub proof fn requests_go_to_their_path(client: VercelClient, method: Method, path: Seq<char>)
    ensures
        ({
            let c = client.call(method, path);
            &&& c.method == method
            &&& c.url == client.config.base_url@ + path
            &&& c.bearer == client.config.token@
            &&& client.config.team_id is Some ==> c.query.len() == 1 && c.query[0] == (
                "teamId"@,
                client.config.team_id->0@,
            )
            &&& client.config.team_id is None ==> c.query.len() == 0
            &&& c.headers.len() == 0
            &&& c.body is None
        }),
{
}

/// What a request asks for, its headers and its body are added to it, behind what it has.
pub proof fn requests_keep_what_they_have(
    call: ApiCall,
    key: Seq<char>,
    value: Seq<char>,
    body: json::JsonView,
)
    ensures
        call.asking(key, value).query == call.query.push((key, value)),
        call.with_header(key, value).headers == call.headers.push((key, value)),
        call.sending(body).body == Some(body),
        call.asking(key, value).url == call.url && call.with_header(key, value).url == call.url
            && call.sending(body).url == call.url,
        call.asking(key, value).bearer == call.bearer && call.with_header(key, value).bearer
            == call.bearer && call.sending(body).bearer == call.bearer,
        call.asking(key, value).method == call.method && call.with_header(key, value).method
            == call.method && call.sending(body).method == call.method,
        call.asking(key, value).body == call.body && call.with_header(key, value).body == call.body,
        call.asking(key, value).headers == call.headers && call.sending(body).headers
            == call.headers,
        call.with_header(key, value).query == call.query && call.sending(body).query == call.query,
{
}

/// Sandboxes and the endpoints of sessions have their paths, and a body names its path and
/// the directory it is seen from.
pub proof fn paths_name_what_they_are_of(
    name: Seq<char>,
    endpoint: Seq<char>,
    path: Seq<char>,
    cwd: Seq<char>,
)
    ensures
        sandbox_path(name) == "/v2/sandboxes/"@ + name,
        session_path(name, endpoint) == "/v2/sandboxes/sessions/"@ + name + endpoint,
        path_body(path, cwd) is Object,
        json::holds(path_body(path, cwd)->Object_0, "path"@, json::JsonView::Str(path)),
        json::holds(path_body(path, cwd)->Object_0, "cwd"@, json::JsonView::Str(cwd)),
{
    reveal_strlit("path");
    reveal_strlit("cwd");
    assert("path"@.len() == 4);
    assert("cwd"@.len() == 3);
}

/// A reply with a status from 200 to 299 is a success. Any other is a failure with the
/// message of the API, or with the start of the reply where there is none; one of 404 says
/// that something was not found.
pub proof fn replies_succeed_or_fail_by_their_status(
    status: u16,
    shown: Seq<char>,
    api_message: Option<Seq<char>>,
    body: Seq<char>,
)
    ensures
        ({
            let f = reply_failure(status, shown, api_message, body);
            let message = if api_message is Some {
                api_message->0
            } else {
                excerpt(body)
            };
            &&& 200 <= status <= 299 ==> f is None
            &&& status == 404 ==> f == Some(sandbox::VmFailure::NotFound(message))
            &&& (status < 200 || status > 299) && status != 404 ==> f == Some(
                sandbox::VmFailure::Backend {
                    backend: "vercel"@,
                    message: "HTTP "@ + shown + ": "@ + message,
                },
            )
            &&& succeeded(status) <==> 200 <= status <= 299
        }),
        excerpt(body).is_prefix_of(body),
        excerpt(body).len() <= 300,
        body.len() <= 300 ==> excerpt(body) == body,
        body.len() > 300 ==> excerpt(body).len() == 300,
{
}

/// What a command writes is gathered by where it writes it, in order; its exit code is the
/// last that a record gives, and -1 before there is one.
pub proof fn output_is_gathered_in_order(
    lines: Seq<CmdStreamLine>,
    o: sandbox::OutputView,
    data: String,
    id: String,
    code: i64,
)
    requires
        output_of(lines) == Ok::<_, sandbox::VmFailure>(o),
        i32::MIN <= code <= i32::MAX,
    ensures
        ({
            let out = output_of(lines.push(CmdStreamLine::Log(ApiLogLine::Stdout { data })));
            let err = output_of(lines.push(CmdStreamLine::Log(ApiLogLine::Stderr { data })));
            let done = output_of(
                lines.push(
                    CmdStreamLine::Command { command: ApiCommand { id, exit_code: Some(code) } },
                ),
            );
            let going = output_of(
                lines.push(CmdStreamLine::Command { command: ApiCommand { id, exit_code: None } }),
            );
            &&& out is Ok && (out->Ok_0).stdout == o.stdout + data@ && (out->Ok_0).stderr
                == o.stderr && (out->Ok_0).exit_code == o.exit_code
            &&& err is Ok && (err->Ok_0).stderr == o.stderr + data@ && (err->Ok_0).stdout
                == o.stdout && (err->Ok_0).exit_code == o.exit_code
            &&& done is Ok && (done->Ok_0).exit_code == code && (done->Ok_0).stdout == o.stdout
                && (done->Ok_0).stderr == o.stderr
            &&& going is Ok && going->Ok_0 == o
            &&& !o.timed_out && o.pid is None
            &&& lines.len() == 0 ==> o.stdout.len() == 0 && o.stderr.len() == 0 && o.exit_code
                == -1
        }),
{
    let out = CmdStreamLine::Log(ApiLogLine::Stdout { data });
    let err = CmdStreamLine::Log(ApiLogLine::Stderr { data });
    let done = CmdStreamLine::Command { command: ApiCommand { id, exit_code: Some(code) } };
    let going = CmdStreamLine::Command { command: ApiCommand { id, exit_code: None } };
    assert(lines.push(out).drop_last() =~= lines);
    assert(lines.push(err).drop_last() =~= lines);
    assert(lines.push(done).drop_last() =~= lines);
    assert(lines.push(going).drop_last() =~= lines);
    lemma_foreground(lines);
}

proof fn lemma_foreground(lines: Seq<CmdStreamLine>)
    ensures
        output_of(lines) matches Ok(o) ==> !o.timed_out && o.pid is None,
    decreases lines.len(),
{
    if lines.len() > 0 {
        lemma_foreground(lines.drop_last());
    }
}

/// The first error that a command reports is what it comes to, whatever follows.
pub proof fn the_first_error_counts(
    lines: Seq<CmdStreamLine>,
    data: ApiLogError,
    more: Seq<CmdStreamLine>,
)
    requires
        output_of(lines) is Ok,
    ensures
        output_of(lines.push(CmdStreamLine::Log(ApiLogLine::Error { data })) + more) == Err::<
            sandbox::OutputView,
            _,
        >(
            sandbox::VmFailure::Backend {
                backend: "vercel"@,
                message: "command error ("@ + data.code@ + "): "@ + data.message@,
            },
        ),
{
    let first = lines.push(CmdStreamLine::Log(ApiLogLine::Error { data }));
    assert(first.drop_last() =~= lines);
    assert((first + more).take(first.len() as int) =~= first);
    lemma_first_error(first + more, first.len() as int);
}

/// Every request of the client goes to the endpoint that it is for, with what it asks.
pub proof fn requests_go_to_their_endpoints(
    client: &VercelClient,
    name: &str,
    cursor: &Option<String>,
    body: Json,
    r: ApiRequest,
)
    ensures
        call_ensures(VercelClient::create_sandbox, (client, body), r) ==> r@.method == Method::Post
            && r@.url == client.config.base_url@ + "/v3/sandboxes"@ && r@.body == Some(body@)
            && r@.bearer == client.config.token@,
        call_ensures(VercelClient::delete_sandbox, (client, name), r) ==> r@.method
            == Method::Delete && r@.url == client.config.base_url@ + ("/v2/sandboxes/"@ + name@)
            && r@.query.last() == ("projectId"@, client.config.project_id@) && r@.body is None,
        call_ensures(VercelClient::get_sandbox, (client, name, false), r) ==> r@.method
            == Method::Get && r@.url == client.config.base_url@ + ("/v2/sandboxes/"@ + name@)
            && r@.query.last() == ("projectId"@, client.config.project_id@),
        call_ensures(VercelClient::get_sandbox, (client, name, true), r) ==> r@.method
            == Method::Get && r@.url == client.config.base_url@ + ("/v2/sandboxes/"@ + name@)
            && r@.query.last() == ("resume"@, "true"@),
        call_ensures(VercelClient::list_sandboxes, (client, name, cursor), r) ==> r@.method
            == Method::Get && r@.url == client.config.base_url@ + "/v2/sandboxes"@
            && r@.query.contains(("namePrefix"@, name@)) && r@.query.contains(
            ("project"@, client.config.project_id@),
        ) && (*cursor is Some ==> r@.query.last() == ("cursor"@, (*cursor)->0@)),
{
    if call_ensures(VercelClient::list_sandboxes, (client, name, cursor), r) {
        let first = client.call(Method::Get, "/v2/sandboxes"@).query.len() as int;
        assert(r@.query[first] == ("project"@, client.config.project_id@));
        assert(r@.query[first + 1] == ("namePrefix"@, name@));
    }
}

/// What a client does with a session goes to the endpoint of the session.
pub proof fn sessions_have_their_endpoints(
    client: &VercelClient,
    session: &str,
    path: &str,
    cwd: &str,
    body: Json,
    r: ApiRequest,
)
    ensures
        ({
            let at = client.config.base_url@;
            let of = |endpoint: Seq<char>| at + ("/v2/sandboxes/sessions/"@ + session@ + endpoint);
            &&& call_ensures(VercelClient::stop_session, (client, session), r) ==> r@.url == of(
                "/stop"@,
            ) && r@.method == Method::Post
            &&& call_ensures(VercelClient::create_snapshot, (client, session), r) ==> r@.url == of(
                "/snapshot"@,
            ) && r@.method == Method::Post
            &&& call_ensures(VercelClient::start_command, (client, session, body), r) ==> r@.url
                == of("/cmd"@) && r@.body == Some(body@)
            &&& call_ensures(VercelClient::fs_read, (client, session, path, cwd), r) ==> r@.url
                == of("/fs/read"@) && r@.body == Some(path_body(path@, cwd@))
            &&& call_ensures(VercelClient::fs_mkdir, (client, session, path, cwd), r) ==> r@.url
                == of("/fs/mkdir"@) && r@.body == Some(path_body(path@, cwd@))
            &&& call_ensures(VercelClient::fs_write, (client, session, cwd), r) ==> r@.url == of(
                "/fs/write"@,
            ) && r@.headers == seq![
                ("content-type"@, "application/gzip"@),
                ("x-cwd"@, cwd@),
            ]
        }),
{
    if call_ensures(VercelClient::fs_write, (client, session, cwd), r) {
        assert(r@.headers =~= seq![
            ("content-type"@, "application/gzip"@),
            ("x-cwd"@, cwd@),
        ]);
    }
}

/// What a command writes is shown as it comes, and its exit code at the end.
pub proof fn output_is_shown_as_it_comes(
    fold: &mut StreamFold,
    data: String,
    id: String,
    code: i64,
    r: Option<sandbox::StreamChunk>,
)
    requires
        i32::MIN <= code <= i32::MAX,
    ensures
        call_ensures(
            StreamFold::line,
            (fold, CmdStreamLine::Log(ApiLogLine::Stdout { data })),
            r,
        ) ==> r == Some(sandbox::StreamChunk::Stdout { data }) && *final(fold) == *old(fold),
        call_ensures(
            StreamFold::line,
            (fold, CmdStreamLine::Log(ApiLogLine::Stderr { data })),
            r,
        ) ==> r == Some(sandbox::StreamChunk::Stderr { data }) && *final(fold) == *old(fold),
        call_ensures(
            StreamFold::line,
            (
                fold,
                CmdStreamLine::Command { command: ApiCommand { id, exit_code: Some(code) } },
            ),
            r,
        ) ==> r is None && final(fold).exit_code is Some && final(fold).exit_code->0 == code,
{
}

/// The pages of a list follow each other, and another one is asked for where the last one
/// said so.
pub proof fn pages_follow_each_other(
    pages: &mut SandboxPages,
    sandboxes: Vec<ApiSandbox>,
    next: Option<String>,
    more: bool,
)
    requires
        call_ensures(SandboxPages::page, (pages, sandboxes, next), more),
    ensures
        final(pages).sandboxes@ == old(pages).sandboxes@ + sandboxes@,
        more <==> next is Some,
        next is Some ==> final(pages).cursor == next,
{
}

} // verus!
