//! Anthropic models on Google Vertex.
//!
//! The body and the response stream are those of the direct API. The model stands
//! in the URL, the body names the Vertex version, and a Google access token
//! authorises the request.

use crate::anthropic;
use crate::anthropic::HttpRequest;
use crate::paths;
use crate::text;
use crate::types::{CerseiError, CompletionRequest, ProviderCapabilities};
use vstd::prelude::*;
use vstd::string::*;

verus! {

pub const VERTEX_VERSION: &'static str = "vertex-2023-10-16";

pub const CLOUD_PLATFORM_SCOPE: &'static str = "https://www.googleapis.com/auth/cloud-platform";

/// Where credentials come from.
#[derive(Clone, Debug, PartialEq, Eq)]
pub enum VertexAuthSpec {
    /// A token that is not refreshed.
    Static(String),
    /// Application default credentials.
    Adc,
    /// A service account file.
    ServiceAccountFile(String),
}

/// A place where credentials may be found.
#[derive(Clone, Debug, PartialEq, Eq)]
pub enum VertexProbe {
    /// The variable `VERTEX_ACCESS_TOKEN`.
    AccessToken,
    /// Application default credentials.
    Adc,
    /// A service account file at a path.
    File(String),
    /// `gcloud auth print-access-token`.
    Gcloud,
}

/// What a probe found.
#[derive(Clone, Debug, PartialEq, Eq)]
pub enum ProbeReply {
    /// Nothing.
    Missing,
    /// The thing is there.
    Present,
    /// The value of a variable.
    Value(String),
    /// The standard output of a command that succeeded.
    Output(Vec<u8>),
}

/// The place that is looked at after `n` others held nothing.
pub open spec fn is_probe(n: int, probe: Option<VertexProbe>) -> bool {
    if n == 0 {
        probe == Some(VertexProbe::AccessToken)
    } else if n == 1 {
        probe == Some(VertexProbe::Adc)
    } else if n == 2 {
        probe matches Some(VertexProbe::File(p)) && p@ == "service-account.json"@
    } else if n == 3 {
        probe matches Some(VertexProbe::File(p)) && p@ == "/workspace/service-account.json"@
    } else if n == 4 {
        probe == Some(VertexProbe::Gcloud)
    } else {
        probe is None
    }
}

/// The place to look at after `n` others held nothing; none after the last.
pub fn probe_after(n: usize) -> (r: Option<VertexProbe>)
    ensures
        is_probe(n as int, r),
{
    if n == 0 {
        Some(VertexProbe::AccessToken)
    } else if n == 1 {
        Some(VertexProbe::Adc)
    } else if n == 2 {
        Some(VertexProbe::File("service-account.json".to_string()))
    } else if n == 3 {
        Some(VertexProbe::File("/workspace/service-account.json".to_string()))
    } else if n == 4 {
        Some(VertexProbe::Gcloud)
    } else {
        None
    }
}

/// The file with the default credentials of a user, in a directory.
pub open spec fn user_credentials(dir: Seq<char>) -> Seq<char> {
    paths::joined_path(dir, "application_default_credentials.json"@)
}

/// The files that may hold default credentials, in the order to look at them: the one
/// that is named, unless its name is empty, and that of the user, in the directory for
/// configurations or else below the home directory.
pub fn adc_candidates(
    key_file: Option<String>,
    config_dir: Option<String>,
    home: Option<String>,
) -> (r: Vec<String>)
    ensures
        text::views(r@) == (match key_file {
            Some(f) if f@.len() > 0 => seq![f@],
            _ => Seq::empty(),
        }) + (match (config_dir, home) {
            (Some(dir), _) => seq![user_credentials(dir@)],
            (None, Some(h)) => seq![user_credentials(paths::joined_path(h@, ".config/gcloud"@))],
            (None, None) => Seq::empty(),
        }),
{
    let mut r: Vec<String> = Vec::new();
    if let Some(f) = key_file {
        if text::chars_of(f.as_str()).len() > 0 {
            r.push(f);
        }
    }
    let dir = match config_dir {
        Some(d) => Some(d),
        None => match home {
            Some(h) => Some(paths::join_path(h.as_str(), ".config/gcloud")),
            None => None,
        },
    };
    if let Some(d) = dir {
        r.push(paths::join_path(d.as_str(), "application_default_credentials.json"));
    }
    assert(text::views(r@) =~= (match key_file {
        Some(f) if f@.len() > 0 => seq![f@],
        _ => Seq::empty(),
    }) + (match (config_dir, home) {
        (Some(d), _) => seq![user_credentials(d@)],
        (None, Some(h)) => seq![user_credentials(paths::joined_path(h@, ".config/gcloud"@))],
        (None, None) => Seq::empty(),
    }));
    r
}

/// The credentials that a probe yields with what it found: a token that is more
/// than white space, default credentials or a file that is there, or the trimmed
/// output of a command.
pub fn resolve_auth_spec(probe: VertexProbe, reply: ProbeReply) -> (r: Option<VertexAuthSpec>)
    ensures
        match (probe, reply) {
            (VertexProbe::AccessToken, ProbeReply::Value(t)) => r == (if text::trimmed(t@).len()
                > 0 {
                Some(VertexAuthSpec::Static(t))
            } else {
                None
            }),
            (VertexProbe::Adc, ProbeReply::Present) => r == Some(VertexAuthSpec::Adc),
            (VertexProbe::File(p), ProbeReply::Present) => r == Some(
                VertexAuthSpec::ServiceAccountFile(p),
            ),
            (VertexProbe::Gcloud, ProbeReply::Output(bytes)) => {
                let t = text::trimmed(text::utf8_lossy(bytes@));
                if t.len() > 0 {
                    r matches Some(VertexAuthSpec::Static(s)) && s@ == t
                } else {
                    r is None
                }
            },
            _ => r is None,
        },
{
    match (probe, reply) {
        (VertexProbe::AccessToken, ProbeReply::Value(t)) => {
            let trimmed = text::trim(t.as_str());
            if text::chars_of(trimmed.as_str()).len() > 0 {
                Some(VertexAuthSpec::Static(t))
            } else {
                None
            }
        },
        (VertexProbe::Adc, ProbeReply::Present) => Some(VertexAuthSpec::Adc),
        (VertexProbe::File(p), ProbeReply::Present) => Some(VertexAuthSpec::ServiceAccountFile(p)),
        (VertexProbe::Gcloud, ProbeReply::Output(bytes)) => {
            let out = text::from_utf8_lossy(bytes.as_slice());
            let t = text::trim(out.as_str());
            if text::chars_of(t.as_str()).len() > 0 {
                Some(VertexAuthSpec::Static(t))
            } else {
                None
            }
        },
        _ => None,
    }
}

/// The error when no place holds credentials.
pub fn no_credentials() -> (r: CerseiError)
    ensures
        r matches CerseiError::Auth(m) && m@
            == "no Vertex credentials: run `gcloud auth application-default login` (ADC), set GOOGLE_APPLICATION_CREDENTIALS, provide ./service-account.json, or set VERTEX_ACCESS_TOKEN"@,
{
    CerseiError::Auth(
        "no Vertex credentials: run `gcloud auth application-default login` (ADC), set GOOGLE_APPLICATION_CREDENTIALS, provide ./service-account.json, or set VERTEX_ACCESS_TOKEN".to_string(),
    )
}

/// The Vertex provider.
#[derive(Clone, Debug, PartialEq)]
pub struct AnthropicVertex {
    pub auth_spec: VertexAuthSpec,
    pub project_id: String,
    pub location: String,
    pub endpoint: String,
    pub default_model: String,
    pub thinking_budget: Option<u32>,
}

/// The host that serves a location.
pub open spec fn endpoint_of(location: Seq<char>) -> Seq<char> {
    if location == "global"@ {
        "aiplatform.googleapis.com"@
    } else {
        location + "-aiplatform.googleapis.com"@
    }
}

/// The address of a model.
pub open spec fn url_of(
    endpoint: Seq<char>,
    project: Seq<char>,
    location: Seq<char>,
    model: Seq<char>,
) -> Seq<char> {
    "https://"@ + endpoint + "/v1/projects/"@ + project + "/locations/"@ + location
        + "/publishers/anthropic/models/"@ + model + ":streamRawPredict"@
}

impl AnthropicVertex {
    /// The provider for a project and a location. `default_model` is asked where a request
    /// names no model.
    pub fn new(
        auth_spec: VertexAuthSpec,
        project_id: String,
        location: String,
        default_model: &str,
    ) -> (r: Result<AnthropicVertex, CerseiError>)
        ensures
            r matches Ok(v) && v.auth_spec == auth_spec && v.project_id == project_id && v.location
                == location && v.endpoint@ == endpoint_of(location@) && v.default_model@
                == default_model@ && v.thinking_budget is None,
    {
        let endpoint = if text::same(location.as_str(), "global") {
            "aiplatform.googleapis.com".to_string()
        } else {
            text::cat(location.as_str(), "-aiplatform.googleapis.com")
        };
        Ok(
            AnthropicVertex {
                auth_spec,
                project_id,
                location,
                endpoint,
                default_model: default_model.to_string(),
                thinking_budget: None,
            },
        )
    }

    /// The provider from the environment: `project_id` and `location` are the
    /// values of `VERTEX_PROJECT_ID` and `VERTEX_LOCATION`, `auth_spec` is what
    /// the probes gave.
    pub fn from_env(
        project_id: Option<String>,
        location: Option<String>,
        auth_spec: Result<VertexAuthSpec, CerseiError>,
        default_model: &str,
    ) -> (r: Result<AnthropicVertex, CerseiError>)
        ensures
            project_id is None ==> (r matches Err(CerseiError::Config(m)) && m@
                == "VERTEX_PROJECT_ID not set"@),
            project_id is Some ==> match auth_spec {
                Err(e) => r == Err::<AnthropicVertex, CerseiError>(e),
                Ok(a) => r matches Ok(v) && v.auth_spec == a && v.project_id == project_id->0
                    && v.location@ == anthropic::setting_or(location, "global"@) && v.endpoint@
                    == endpoint_of(v.location@) && v.default_model@ == default_model@
                    && v.thinking_budget is None,
            },
    {
        match project_id {
            None => Err(CerseiError::Config("VERTEX_PROJECT_ID not set".to_string())),
            Some(p) => match auth_spec {
                Err(e) => Err(e),
                Ok(a) => AnthropicVertex::new(a, p, anthropic::setting(location, "global"), default_model),
            },
        }
    }

    /// The provider with another default model.
    pub fn with_model(self, model: String) -> (r: AnthropicVertex)
        ensures
            r == (AnthropicVertex { default_model: model, ..self }),
    {
        AnthropicVertex { default_model: model, ..self }
    }

    /// The token, where it need not be minted.
    pub fn static_token(&self) -> (r: Option<String>)
        ensures
            match self.auth_spec {
                VertexAuthSpec::Static(t) => r matches Some(s) && s@ == t@,
                _ => r is None,
            },
    {
        match &self.auth_spec {
            VertexAuthSpec::Static(t) => Some(t.clone()),
            _ => None,
        }
    }

    /// The address of a model.
    pub fn model_url(&self, model: &str) -> (r: String)
        ensures
            r@ == url_of(self.endpoint@, self.project_id@, self.location@, model@),
    {
        let mut s = "https://".to_string();
        s.append(self.endpoint.as_str());
        s.append("/v1/projects/");
        s.append(self.project_id.as_str());
        s.append("/locations/");
        s.append(self.location.as_str());
        s.append("/publishers/anthropic/models/");
        s.append(model);
        s.append(":streamRawPredict");
        s
    }

    /// The name of the provider.
    pub fn name(&self) -> (r: &'static str)
        ensures
            r@ == "vertex"@,
    {
        "vertex"
    }

    /// The size of the context window of every model, in tokens.
    pub fn context_window(&self, model: &str) -> (r: u64)
        ensures
            r == 200_000,
    {
        200_000
    }

    /// What the provider can do.
    pub fn capabilities(&self, model: &str) -> (r: ProviderCapabilities)
        ensures
            r == (ProviderCapabilities {
                streaming: true,
                tool_use: true,
                vision: true,
                thinking: true,
                system_prompt: true,
                caching: true,
            }),
    {
        ProviderCapabilities {
            streaming: true,
            tool_use: true,
            vision: true,
            thinking: true,
            system_prompt: true,
            caching: true,
        }
    }

    /// The HTTP request for a completion, authorised with `token`.
    pub fn plan(&self, request: &CompletionRequest, token: &str) -> (r: HttpRequest)
        ensures
            r.url@ == url_of(
                self.endpoint@,
                self.project_id@,
                self.location@,
                anthropic::model_for(request.model@, self.default_model@),
            ),
            anthropic::headers_view(r.headers@) == seq![
                ("authorization"@, "Bearer "@ + token@),
                ("content-type"@, "application/json"@),
            ],
            r.body@ == anthropic::body_json(
                None,
                request@,
                anthropic::budget_for(request@.options, self.thinking_budget),
                Some(VERTEX_VERSION@),
            ),
    {
        let model = anthropic::choose_model(request.model.as_str(), self.default_model.as_str());
        let budget = anthropic::choose_budget(request, self.thinking_budget);
        let body = anthropic::build_anthropic_body(None, request, budget, Some(VERTEX_VERSION));
        let mut headers: Vec<(String, String)> = Vec::new();
        headers.push(("authorization".to_string(), text::cat("Bearer ", token)));
        headers.push(("content-type".to_string(), "application/json".to_string()));
        assert(anthropic::headers_view(headers@) =~= seq![
            ("authorization"@, "Bearer "@ + token@),
            ("content-type"@, "application/json"@),
        ]);
        HttpRequest { url: self.model_url(model.as_str()), headers, body }
    }
}

// ─── Laws ────────────────────────────────────────────────────────────────────

/// A location has a host of its own, but for the global one.
pub proof fn locations_have_their_hosts(location: Seq<char>)
    ensures
        endpoint_of("global"@) == "aiplatform.googleapis.com"@,
        location != "global"@ ==> endpoint_of(location) == location + "-aiplatform.googleapis.com"@,
{
}

/// A model is asked at its host, in the project and the location.
pub proof fn models_are_asked_in_their_project(
    endpoint: Seq<char>,
    project: Seq<char>,
    location: Seq<char>,
    model: Seq<char>,
)
    ensures
        ("https://"@ + endpoint + "/v1/projects/"@ + project + "/locations/"@ + location + "/"@)
            .is_prefix_of(url_of(endpoint, project, location, model)),
        ("/models/"@ + model + ":streamRawPredict"@).is_suffix_of(
            url_of(endpoint, project, location, model),
        ),
{
    reveal_strlit("/publishers/anthropic/models/");
    reveal_strlit("/");
    reveal_strlit("/models/");
    let url = url_of(endpoint, project, location, model);
    let start = "https://"@ + endpoint + "/v1/projects/"@ + project + "/locations/"@ + location
        + "/"@;
    let end = "/models/"@ + model + ":streamRawPredict"@;
    let middle = "/publishers/anthropic/models/"@;
    assert(middle.subrange(0, 1) =~= "/"@);
    assert(middle.subrange(middle.len() - 8, middle.len() as int) =~= "/models/"@);
    let before = "https://"@ + endpoint + "/v1/projects/"@ + project + "/locations/"@ + location;
    assert(url =~= before + middle + (model + ":streamRawPredict"@));
    assert(url.subrange(0, start.len() as int) =~= start) by {
        assert(url.subrange(0, start.len() as int) =~= before + middle.subrange(0, 1));
    }
    assert(url.subrange(url.len() - end.len(), url.len() as int) =~= end) by {
        assert(url.subrange(url.len() - end.len(), url.len() as int) =~= middle.subrange(
            middle.len() - 8,
            middle.len() as int,
        ) + (model + ":streamRawPredict"@));
    }
}

/// Credentials are looked for in a token that is set, in the default credentials, in the
/// two files and with the command line tool, in this order, and nowhere else.
pub proof fn credentials_are_looked_for_in_order(probe: Option<VertexProbe>, n: int)
    ensures
        is_probe(0, probe) ==> probe is Some && probe->0 is AccessToken,
        is_probe(1, probe) ==> probe is Some && probe->0 is Adc,
        is_probe(2, probe) ==> probe is Some && probe->0 is File && (probe->0)->File_0@
            == "service-account.json"@,
        is_probe(3, probe) ==> probe is Some && probe->0 is File && (probe->0)->File_0@
            == "/workspace/service-account.json"@,
        is_probe(4, probe) ==> probe is Some && probe->0 is Gcloud,
        n > 4 && is_probe(n, probe) ==> probe is None,
{
}

/// The default credentials of a user are in a file of one name in the directory.
pub proof fn user_credentials_have_one_name(dir: Seq<char>)
    requires
        dir.len() > 0 && dir.last() != '/',
    ensures
        user_credentials(dir) == dir + "/application_default_credentials.json"@,
{
    reveal_strlit("application_default_credentials.json");
    reveal_strlit("/application_default_credentials.json");
    assert("application_default_credentials.json"@[0] == 'a');
    paths::paths_are_seen_from_their_base(dir, "application_default_credentials.json"@);
    assert("/application_default_credentials.json"@ =~= seq!['/']
        + "application_default_credentials.json"@);
    assert(dir + seq!['/'] + "application_default_credentials.json"@ =~= dir
        + "/application_default_credentials.json"@);
}

/// A request goes to the model's own address with the token, and its body names the version
/// and no model.
pub proof fn requests_go_to_the_address_of_the_model(
    provider: &AnthropicVertex,
    request: &CompletionRequest,
    token: &str,
    r: HttpRequest,
)
    requires
        call_ensures(AnthropicVertex::plan, (provider, request, token), r),
    ensures
        request.model@.len() > 0 ==> r.url@ == url_of(
            provider.endpoint@,
            provider.project_id@,
            provider.location@,
            request.model@,
        ),
        request.model@.len() == 0 ==> r.url@ == url_of(
            provider.endpoint@,
            provider.project_id@,
            provider.location@,
            provider.default_model@,
        ),
        r.headers@.len() == 2,
        r.headers@[0].0@ == "authorization"@ && r.headers@[0].1@ == "Bearer "@ + token@,
        r.headers@[1].0@ == "content-type"@ && r.headers@[1].1@ == "application/json"@,
        r.body@ == anthropic::body_json(
            None,
            request@,
            anthropic::budget_for(request@.options, provider.thinking_budget),
            Some("vertex-2023-10-16"@),
        ),
{
    let h = anthropic::headers_view(r.headers@);
    assert(h.len() == 2);
    assert(h[0] == anthropic::header(r.headers@[0]));
    assert(h[1] == anthropic::header(r.headers@[1]));
}

/// What a probe found becomes credentials: a token that is more than white space, default
/// credentials or a file that is there, or the trimmed output of the tool.
pub proof fn probes_give_credentials(
    token: String,
    path: String,
    r: Option<VertexAuthSpec>,
)
    ensures
        call_ensures(resolve_auth_spec, (VertexProbe::AccessToken, ProbeReply::Value(token)), r)
            ==> (r is Some <==> text::trimmed(token@).len() > 0) && (r is Some ==> r->0
            == VertexAuthSpec::Static(token)),
        call_ensures(resolve_auth_spec, (VertexProbe::Adc, ProbeReply::Present), r) ==> r == Some(
            VertexAuthSpec::Adc,
        ),
        call_ensures(resolve_auth_spec, (VertexProbe::File(path), ProbeReply::Present), r) ==> r
            == Some(VertexAuthSpec::ServiceAccountFile(path)),
        call_ensures(resolve_auth_spec, (VertexProbe::AccessToken, ProbeReply::Missing), r)
            ==> r is None,
{
}

} // verus!
