//! The glob tool: find files by pattern.
//!
//! The walk honours ignore rules, stops at the limit of results and gives up after
//! [`GLOB_DEADLINE_SECS`], so that a pattern over a huge tree costs the agent one
//! corrective turn.

use crate::json;
use crate::json::{Json, JsonObject};
use crate::paths::FoundPath;
use crate::runner;
use crate::runner::ToolResult;
use crate::search;
use crate::search::{GlobOptions, SearchError, Span};
use crate::text;
use crate::wire;
use vstd::prelude::*;
use vstd::string::*;

verus! {

/// How long one call may walk, in seconds.
pub const GLOB_DEADLINE_SECS: u64 = 30;

/// The limit of results where a call names none.
pub const DEFAULT_LIMIT: usize = 200;

/// What a tool may do.
#[derive(Clone, Copy, Debug, PartialEq, Eq, Structural)]
pub enum PermissionLevel {
    ReadOnly,
    Write,
    Execute,
}

/// What a tool is for.
#[derive(Clone, Copy, Debug, PartialEq, Eq, Structural)]
pub enum ToolCategory {
    FileSystem,
    Shell,
    Web,
}

/// The glob tool.
#[derive(Clone, Copy, Debug, PartialEq, Eq)]
pub struct GlobTool;

/// What a call of the tool asks for.
#[derive(Clone, Debug, PartialEq, Eq)]
pub struct GlobRequest {
    pub pattern: String,
    pub path: Option<String>,
    pub limit: Option<usize>,
    pub no_ignore: bool,
    pub hidden: bool,
}

/// The limit of a call.
pub open spec fn limit_of(request: GlobRequest) -> usize {
    match request.limit {
        Some(n) => n,
        None => DEFAULT_LIMIT,
    }
}

/// A property of the input: its type and what it is for.
pub open spec fn property(kind: Seq<char>, description: Seq<char>) -> Map<
    Seq<char>,
    json::JsonView,
> {
    wire::typed(kind).insert("description"@, json::JsonView::Str(description))
}

/// A switch that is off by default.
pub open spec fn switch(description: Seq<char>) -> json::JsonView {
    json::JsonView::Object(
        property("boolean"@, description).insert("default"@, json::JsonView::Bool(false)),
    )
}

/// The schema of the input.
pub open spec fn schema() -> json::JsonView {
    json::JsonView::Object(
        wire::typed("object"@).insert(
            "properties"@,
            json::JsonView::Object(
                wire::nothing().insert(
                    "pattern"@,
                    json::JsonView::Object(
                        property("string"@, "Glob pattern (e.g. **/*.rs)"@),
                    ),
                ).insert(
                    "path"@,
                    json::JsonView::Object(
                        property(
                            "string"@,
                            "Directory to search in (defaults to the working directory)"@,
                        ),
                    ),
                ).insert(
                    "limit"@,
                    json::JsonView::Object(
                        property("integer"@, "Max results to return (default 200)"@),
                    ),
                ).insert("no_ignore"@, switch("Include .gitignore'd files"@)).insert(
                    "hidden"@,
                    switch("Include hidden files/directories"@),
                ),
            ),
        ).insert("required"@, json::JsonView::Array(seq![json::JsonView::Str("pattern"@)])),
    )
}

/// The paths of what was found.
pub open spec fn found_texts(found: Seq<FoundPath>) -> Seq<Seq<char>> {
    Seq::new(found.len(), |i: int| found[i].path@)
}

/// What a call gives back that found something.
pub open spec fn listing(found: Seq<FoundPath>, limit: int) -> Seq<char> {
    let shown = if found.len() > limit {
        found_texts(found).take(limit)
    } else {
        found_texts(found)
    };
    let list = text::joined(shown, "\n"@);
    if found.len() > limit {
        list + "\n\n[Showing the first "@ + text::decimal(limit as nat)
            + " matches; more exist. Use a more specific pattern to narrow results.]"@
    } else {
        list
    }
}

/// What a call gives back whose walk took too long.
pub open spec fn too_large(secs: nat, base_dir: Seq<char>) -> Seq<char> {
    "Glob timed out after "@ + text::decimal(secs) + "s — the tree under `"@ + base_dir
        + "` is too large to walk. Narrow `path` to a subdirectory or use a more specific pattern."@
}

/// What a call gives back.
pub open spec fn rendered(
    outcome: Result<Vec<FoundPath>, SearchError>,
    limit: int,
    base_dir: Seq<char>,
) -> runner::Outcome {
    match outcome {
        Ok(found) => runner::Outcome {
            content: if found@.len() == 0 {
                "No files matched the pattern."@
            } else {
                listing(found@, limit)
            },
            is_error: false,
        },
        Err(SearchError::Timeout(s)) => runner::Outcome {
            content: too_large(s.secs as nat, base_dir),
            is_error: true,
        },
        Err(e) => runner::Outcome {
            content: "Glob failed: "@ + search::error_text(e),
            is_error: true,
        },
    }
}

fn make_property(kind: &str, description: &str) -> (r: JsonObject)
    ensures
        r@ == property(kind@, description@),
{
    let mut o = wire::typed_object(kind);
    o.set("description", Json::str(description));
    o
}

fn make_switch(description: &str) -> (r: Json)
    ensures
        r@ == switch(description@),
{
    let mut o = make_property("boolean", description);
    o.set("default", Json::Bool(false));
    Json::Object(o)
}

impl GlobTool {
    pub fn name(&self) -> (r: &'static str)
        ensures
            r@ == "Glob"@,
    {
        "Glob"
    }

    pub fn description(&self) -> (r: &'static str)
        ensures
            r@
                == "Find files matching a glob pattern. Honors .gitignore and skips hidden files by default."@,
    {
        "Find files matching a glob pattern. Honors .gitignore and skips hidden files by default."
    }

    pub fn permission_level(&self) -> (r: PermissionLevel)
        ensures
            r == PermissionLevel::ReadOnly,
    {
        PermissionLevel::ReadOnly
    }

    pub fn category(&self) -> (r: ToolCategory)
        ensures
            r == ToolCategory::FileSystem,
    {
        ToolCategory::FileSystem
    }

    /// The schema of the input.
    pub fn input_schema(&self) -> (r: Json)
        ensures
            r@ == schema(),
    {
        let mut properties = JsonObject::new();
        properties.set(
            "pattern",
            Json::Object(make_property("string", "Glob pattern (e.g. **/*.rs)")),
        );
        properties.set(
            "path",
            Json::Object(
                make_property(
                    "string",
                    "Directory to search in (defaults to the working directory)",
                ),
            ),
        );
        properties.set(
            "limit",
            Json::Object(make_property("integer", "Max results to return (default 200)")),
        );
        properties.set("no_ignore", make_switch("Include .gitignore'd files"));
        properties.set("hidden", make_switch("Include hidden files/directories"));
        let mut required: Vec<Json> = Vec::new();
        required.push(Json::str("pattern"));
        proof {
            json::lemma_items_view(required@);
            assert(json::items_view(required@) =~= seq![json::JsonView::Str("pattern"@)]);
        }
        let mut o = wire::typed_object("object");
        o.set("properties", Json::Object(properties));
        o.set("required", Json::Array(required));
        Json::Object(o)
    }

    /// The answer to a call whose input could not be read.
    pub fn invalid_input(&self, complaint: &str) -> (r: ToolResult)
        ensures
            r@ == (runner::Outcome {
                content: "Invalid input: "@ + complaint@,
                is_error: true,
            }),
    {
        ToolResult::error(text::cat("Invalid input: ", complaint))
    }

    /// The directory that a call searches in.
    pub fn base_dir(&self, request: &GlobRequest, working_dir: &str) -> (r: String)
        ensures
            r@ == (match request.path {
                Some(p) => p@,
                None => working_dir@,
            }),
    {
        match &request.path {
            Some(p) => p.clone(),
            None => working_dir.to_string(),
        }
    }

    /// The options of the search. One result more than the limit is asked for, to
    /// tell whether more exist.
    pub fn options(&self, request: &GlobRequest) -> (r: GlobOptions)
        ensures
            r.max_results == Some(
                if limit_of(*request) == usize::MAX {
                    usize::MAX
                } else {
                    (limit_of(*request) + 1) as usize
                },
            ),
            r.deadline == Some(Span { secs: GLOB_DEADLINE_SECS, nanos: 0 }),
            r.no_ignore == request.no_ignore,
            r.hidden == request.hidden,
    {
        let limit: usize = match request.limit {
            Some(n) => n,
            None => DEFAULT_LIMIT,
        };
        GlobOptions {
            max_results: Some(
                if limit == usize::MAX {
                    usize::MAX
                } else {
                    limit + 1
                },
            ),
            deadline: Some(Span { secs: GLOB_DEADLINE_SECS, nanos: 0 }),
            no_ignore: request.no_ignore,
            hidden: request.hidden,
        }
    }

    /// What a call gives back for the outcome of its search.
    pub fn render(
        &self,
        request: &GlobRequest,
        outcome: Result<Vec<FoundPath>, SearchError>,
        base_dir: &str,
    ) -> (r: ToolResult)
        requires
            outcome matches Err(e) ==> e.normal(),
        ensures
            r@ == rendered(outcome, limit_of(*request) as int, base_dir@),
    {
        let limit: usize = match request.limit {
            Some(n) => n,
            None => DEFAULT_LIMIT,
        };
        match outcome {
            Ok(found) => {
                if found.len() == 0 {
                    return ToolResult {
                        content: "No files matched the pattern.".to_string(),
                        is_error: false,
                    };
                }
                let n: usize = if found.len() > limit {
                    limit
                } else {
                    found.len()
                };
                let mut shown: Vec<String> = Vec::new();
                let mut i: usize = 0;
                while i < n
                    invariant
                        i <= n <= found@.len(),
                        shown@.len() == i,
                        forall|j: int| 0 <= j < i ==> (#[trigger] shown@[j])@ == found@[j].path@,
                    decreases n - i,
                {
                    shown.push(found[i].path.clone());
                    i = i + 1;
                }
                assert(text::views(shown@) =~= (if found@.len() > limit {
                    found_texts(found@).take(limit as int)
                } else {
                    found_texts(found@)
                }));
                let mut content = text::join(&shown, "\n");
                if found.len() > limit {
                    content.append("\n\n[Showing the first ");
                    text::push_decimal(&mut content, limit as u64);
                    content.append(
                        " matches; more exist. Use a more specific pattern to narrow results.]",
                    );
                }
                ToolResult { content, is_error: false }
            },
            Err(SearchError::Timeout(s)) => {
                let mut content = "Glob timed out after ".to_string();
                text::push_decimal(&mut content, s.secs);
                content.append("s — the tree under `");
                content.append(base_dir);
                content.append(
                    "` is too large to walk. Narrow `path` to a subdirectory or use a more specific pattern.",
                );
                ToolResult::error(content)
            },
            Err(e) => {
                let message = e.message();
                ToolResult::error(text::cat("Glob failed: ", message.as_str()))
            },
        }
    }
}

/// That more matches exist is said exactly when more were found than the limit.
pub proof fn more_matches_are_reported(found: Seq<FoundPath>, limit: int)
    requires
        0 <= limit,
    ensures
        found.len() <= limit ==> listing(found, limit) == text::joined(found_texts(found), "\n"@),
        found.len() > limit ==> listing(found, limit) == text::joined(
            found_texts(found).take(limit),
            "\n"@,
        ) + "\n\n[Showing the first "@ + text::decimal(limit as nat)
            + " matches; more exist. Use a more specific pattern to narrow results.]"@,
{
}

proof fn lemma_property_names()
    ensures
        "pattern"@ != "path"@,
        "pattern"@ != "limit"@,
        "pattern"@ != "no_ignore"@,
        "pattern"@ != "hidden"@,
        "path"@ != "limit"@,
        "path"@ != "no_ignore"@,
        "path"@ != "hidden"@,
        "limit"@ != "no_ignore"@,
        "limit"@ != "hidden"@,
        "no_ignore"@ != "hidden"@,
{
    reveal_strlit("pattern");
    reveal_strlit("path");
    reveal_strlit("limit");
    reveal_strlit("no_ignore");
    reveal_strlit("hidden");
    assert("pattern"@.len() == 7);
    assert("path"@.len() == 4);
    assert("limit"@.len() == 5);
    assert("no_ignore"@.len() == 9);
    assert("hidden"@.len() == 6);
}


proof fn lemma_schema_names()
    ensures
        "type"@ != "properties"@,
        "type"@ != "required"@,
        "type"@ != "description"@,
        "type"@ != "default"@,
        "properties"@ != "required"@,
        "properties"@ != "description"@,
        "properties"@ != "default"@,
        "required"@ != "description"@,
        "required"@ != "default"@,
        "description"@ != "default"@,
{
    reveal_strlit("type");
    reveal_strlit("properties");
    reveal_strlit("required");
    reveal_strlit("description");
    reveal_strlit("default");
    assert("type"@.len() == 4);
    assert("properties"@.len() == 10);
    assert("required"@.len() == 8);
    assert("description"@.len() == 11);
    assert("default"@.len() == 7);
}


/// A member of the schema: an object of a type.
pub open spec fn is_property(m: Map<Seq<char>, json::JsonView>, name: Seq<char>, kind: Seq<char>) -> bool {
    m.contains_key(name) && m[name] is Object && json::holds(
        m[name]->Object_0,
        "type"@,
        json::JsonView::Str(kind),
    )
}

/// The input is an object that needs a pattern and may have a path, a limit and the two
/// switches, which are off by default.
pub proof fn the_schema_names_what_a_call_takes()
    ensures
        ({
            let s = schema()->Object_0;
            let p = s["properties"@]->Object_0;
            &&& schema() is Object
            &&& json::holds(s, "type"@, json::JsonView::Str("object"@))
            &&& json::holds(
                s,
                "required"@,
                json::JsonView::Array(seq![json::JsonView::Str("pattern"@)]),
            )
            &&& s.contains_key("properties"@) && s["properties"@] is Object
            &&& is_property(p, "pattern"@, "string"@)
            &&& is_property(p, "path"@, "string"@)
            &&& is_property(p, "limit"@, "integer"@)
            &&& is_property(p, "no_ignore"@, "boolean"@)
            &&& is_property(p, "hidden"@, "boolean"@)
            &&& json::holds(p["no_ignore"@]->Object_0, "default"@, json::JsonView::Bool(false))
            &&& json::holds(p["hidden"@]->Object_0, "default"@, json::JsonView::Bool(false))
        }),
{
    lemma_property_names();
    lemma_schema_names();
}

/// A call gives back the paths that were found, one on a line and in their order, where
/// there are no more than its limit, or 200 where it has none; it says so where nothing
/// was found. What went wrong is an error.
pub proof fn calls_give_back_what_was_found(
    request: GlobRequest,
    found: Vec<FoundPath>,
    base_dir: Seq<char>,
    error: SearchError,
)
    requires
        !(error is Timeout),
    ensures
        ({
            let limit = if request.limit is Some {
                request.limit->0 as int
            } else {
                200
            };
            let r = rendered(Ok(found), limit_of(request) as int, base_dir);
            let e = rendered(Err(error), limit_of(request) as int, base_dir);
            &&& !r.is_error
            &&& found@.len() == 0 ==> r.content == "No files matched the pattern."@
            &&& 0 < found@.len() <= limit ==> r.content == text::joined(
                Seq::new(found@.len(), |i: int| found@[i].path@),
                "\n"@,
            )
            &&& found@.len() > limit && found@.len() > 0 ==> text::joined(
                Seq::new(limit as nat, |i: int| found@[i].path@),
                "\n"@,
            ).is_prefix_of(r.content)
            &&& e.is_error
            &&& search::error_text(error).is_suffix_of(e.content)
        }),
{
    let limit = limit_of(request) as int;
    let r = rendered(Ok(found), limit, base_dir);
    let e = rendered(Err(error), limit, base_dir);
    assert(found_texts(found@) =~= Seq::new(found@.len(), |i: int| found@[i].path@));
    if found@.len() > limit && found@.len() > 0 {
        let shown = Seq::new(limit as nat, |i: int| found@[i].path@);
        assert(found_texts(found@).take(limit) =~= shown);
        let list = text::joined(shown, "\n"@);
        assert(r.content.subrange(0, list.len() as int) =~= list);
    }
    let message = search::error_text(error);
    assert(e.content.subrange(e.content.len() - message.len(), e.content.len() as int)
        =~= message);
}

/// A walk that took too long is an error that names how long and where.
pub proof fn long_walks_are_errors(span: Span, limit: int, base_dir: Seq<char>)
    ensures
        ({
            let r = rendered(Err(SearchError::Timeout(span)), limit, base_dir);
            &&& r.is_error
            &&& r.content == "Glob timed out after "@ + text::decimal(span.secs as nat)
                + "s — the tree under `"@ + base_dir
                + "` is too large to walk. Narrow `path` to a subdirectory or use a more specific pattern."@
        }),
{
}

/// A call asks for one result more than its limit, and for no longer than half a minute, and
/// searches in its own directory or else in the one at hand.
pub proof fn calls_ask_for_one_result_more(
    tool: &GlobTool,
    request: &GlobRequest,
    working_dir: &str,
    r: GlobOptions,
    dir: String,
)
    ensures
        call_ensures(GlobTool::options, (tool, request), r) ==> r.deadline == Some(
            Span { secs: 30, nanos: 0 },
        ) && r.no_ignore == request.no_ignore && r.hidden == request.hidden && (request.limit
            is None ==> r.max_results == Some(201usize)) && (request.limit is Some
            && request.limit->0 < usize::MAX ==> r.max_results is Some && r.max_results->0
            == request.limit->0 + 1),
        call_ensures(GlobTool::base_dir, (tool, request, working_dir), dir) ==> dir@ == (
        if request.path is Some {
            request.path->0@
        } else {
            working_dir@
        }),
{
}

} // verus!
