use cersei::glob_tool::{GlobRequest, GlobTool};
use cersei::json::Json;
use cersei::paths::FoundPath;
use cersei::search::{
    self, GlobOptions, GlobWalk, GrepOptions, GrepWalk, SearchError, SearchMatch, Span, WalkState,
};
use cersei::sort;
use grep::matcher::Matcher;

const NOW: Span = Span { secs: 0, nanos: 1 };

fn glob(
    pattern: &str,
    base: &str,
    opts: GlobOptions,
    files: &[&str],
) -> Result<Vec<String>, SearchError> {
    let plan = search::plan_glob(pattern, base, &opts)?;
    let mut walk = GlobWalk::new();
    for f in files {
        if !f.starts_with(&plan.root) {
            continue;
        }
        if walk.visit(&plan, NOW, Some(f.to_string())) == WalkState::Quit {
            break;
        }
    }
    walk.finish(&plan, NOW).map(|v| v.into_iter().map(|p| p.path).collect())
}

#[test]
fn glob_finds_nested_files_recursively() {
    let files = ["/t/src/mid.rs", "/t/top.rs", "/t/src/deep/low.rs", "/t/src/readme.md"];
    let paths = glob("**/*.rs", "/t", GlobOptions::default(), &files).unwrap();
    assert_eq!(paths.len(), 3);
    assert_eq!(paths, vec!["/t/src/deep/low.rs", "/t/src/mid.rs", "/t/top.rs"]);
}

#[test]
fn glob_star_does_not_cross_separators() {
    let files = ["/t/top.rs", "/t/sub/nested.rs"];
    let paths = glob("*.rs", "/t", GlobOptions::default(), &files).unwrap();
    assert_eq!(paths.len(), 1);
    assert!(paths[0].ends_with("top.rs"));
}

#[test]
fn glob_stops_at_max_results() {
    let names: Vec<String> = (0..50).map(|i| format!("/t/f{i:02}.rs")).collect();
    let files: Vec<&str> = names.iter().map(|s| s.as_str()).collect();
    let opts = GlobOptions { max_results: Some(10), ..Default::default() };
    let paths = glob("*.rs", "/t", opts, &files).unwrap();
    assert_eq!(paths.len(), 10);
}

#[test]
fn a_limited_glob_picks_from_the_full_result() {
    let names: Vec<String> = [7, 3, 9, 0, 5].iter().map(|i| format!("/t/f{i}.rs")).collect();
    let mut files: Vec<&str> = names.iter().map(|s| s.as_str()).collect();
    files.insert(1, "/t/other.md");
    let all = glob("*.rs", "/t", GlobOptions::default(), &files).unwrap();
    assert_eq!(all.len(), 5);
    for m in 0..8 {
        let opts = GlobOptions { max_results: Some(m), ..Default::default() };
        let some = glob("*.rs", "/t", opts, &files).unwrap();
        assert_eq!(some.len(), m.min(all.len()));
        assert!(some.windows(2).all(|w| w[0] < w[1]));
        assert!(some.iter().all(|p| all.contains(p)));
        // Another walk comes to the same files in another order.
        let mut turned = files.clone();
        turned.reverse();
        let opts = GlobOptions { max_results: Some(m), ..Default::default() };
        let others = glob("*.rs", "/t", opts, &turned).unwrap();
        assert_eq!(others.len(), some.len());
        assert!(others.iter().all(|p| all.contains(p)));
    }
}

#[test]
fn glob_expired_deadline_is_a_timeout_error() {
    let opts =
        GlobOptions { deadline: Some(Span { secs: 0, nanos: 0 }), ..Default::default() };
    let r = glob("**/*.rs", "/t", opts, &["/t/a.rs"]);
    assert!(matches!(r, Err(SearchError::Timeout(_))));
}

#[test]
fn glob_absolute_pattern_replaces_the_base() {
    let files = ["/t/here.rs", "/elsewhere/found.rs"];
    let paths = glob("/elsewhere/*.rs", "/t", GlobOptions::default(), &files).unwrap();
    assert_eq!(paths.len(), 1);
    assert!(paths[0].ends_with("found.rs"));
}

#[test]
fn glob_literal_pattern_matches_a_single_file() {
    let paths =
        glob("Cargo.toml", "/t", GlobOptions::default(), &["/t/Cargo.toml", "/t/x"]).unwrap();
    assert_eq!(paths.len(), 1);
    assert!(paths[0].ends_with("Cargo.toml"));
}

#[test]
fn glob_walks_hidden_files_when_asked_or_named() {
    let plan = |p: &str, o: GlobOptions| search::plan_glob(p, "/t", &o).unwrap();
    assert!(!plan("**/*.yml", GlobOptions::default()).hidden);
    assert!(plan("**/*.yml", GlobOptions { hidden: true, ..Default::default() }).hidden);
    assert!(plan("**/*.yml", GlobOptions { no_ignore: true, ..Default::default() }).hidden);
    assert!(plan(".github/**/*.yml", GlobOptions::default()).hidden);
    assert!(!plan("./x/../*.yml", GlobOptions::default()).hidden);
    assert!(plan("*", GlobOptions { no_ignore: true, ..Default::default() }).no_ignore);
}

#[test]
fn walks_start_at_the_literal_prefix() {
    assert_eq!(search::literal_prefix("/t/src/**/*.rs"), "/t/src");
    assert_eq!(search::literal_prefix("/t/a.rs"), "/t/a.rs");
    assert_eq!(search::literal_prefix("*.rs"), "");
    assert_eq!(search::literal_prefix("/t/{a,b}/c"), "/t");
    assert_eq!(search::literal_prefix("/t/[ab]/c"), "/t");
    assert_eq!(search::literal_prefix("/t/a?/c"), "/t");
    let plan = search::plan_glob("src/**/*.rs", "/t", &GlobOptions::default()).unwrap();
    assert_eq!(plan.root, "/t/src");
}

#[test]
fn an_invalid_glob_is_an_error() {
    assert!(matches!(
        glob("[a", "/t", GlobOptions::default(), &[]),
        Err(SearchError::InvalidPattern(_))
    ));
}

#[test]
fn unreadable_entries_are_passed_over() {
    let plan = search::plan_glob("*.rs", "/t", &GlobOptions::default()).unwrap();
    let mut walk = GlobWalk::new();
    assert_eq!(walk.visit(&plan, NOW, None), WalkState::Continue);
    assert_eq!(walk.finish(&plan, NOW), Ok(vec![]));
}

#[test]
fn search_errors_are_written_out() {
    assert_eq!(
        SearchError::Timeout(Span { secs: 1, nanos: 500_000_000 }).message(),
        "timed out after 1.5s"
    );
    assert_eq!(SearchError::IoError("disk".to_string()).message(), "I/O error: disk");
    assert_eq!(SearchError::InvalidPattern("x".to_string()).message(), "invalid pattern: x");
    assert_eq!(SearchError::CommandFailed("x".to_string()).message(), "command failed: x");
}

fn hit(file: &str, line: usize) -> SearchMatch {
    SearchMatch { file: file.to_string(), line_number: line, line_content: String::new() }
}

#[test]
fn finds_match_with_line_number_and_trimmed_content() {
    let plan = search::plan_grep("TARGET", "/t", &GrepOptions::default()).unwrap();
    let mut walk = GrepWalk::new();
    let mut hits = vec![];
    for (i, line) in "alpha\nbeta TARGET here\ngamma\n".split_inclusive('\n').enumerate() {
        if plan.matcher.is_match(line.as_bytes()).unwrap() {
            hits.push(search::line_match("/t/a.txt", i as u64 + 1, line));
        }
    }
    assert_eq!(walk.visit(plan.max_results, hits, false), WalkState::Continue);
    let m = walk.finish(plan.max_results);
    assert_eq!(m.len(), 1);
    assert_eq!(m[0].line_number, 2);
    assert_eq!(m[0].line_content, "beta TARGET here");
    assert!(m[0].file.ends_with("a.txt"));
    assert_eq!(search::line_match("/t/a.txt", 2, "beta\r\n").line_content, "beta");
}

#[test]
fn results_are_sorted_deterministically() {
    let mut walk = GrepWalk::new();
    assert_eq!(walk.visit(None, vec![hit("/t/z.txt", 1)], false), WalkState::Continue);
    assert_eq!(
        walk.visit(None, vec![hit("/t/a.txt", 2), hit("/t/a.txt", 1)], false),
        WalkState::Continue
    );
    let m = walk.finish(None);
    assert_eq!(m.len(), 3);
    assert!(m[0].file.ends_with("a.txt") && m[0].line_number == 1);
    assert!(m[1].file.ends_with("a.txt") && m[1].line_number == 2);
    assert!(m[2].file.ends_with("z.txt"));
}

#[test]
fn max_results_caps_output() {
    let mut walk = GrepWalk::new();
    let hits: Vec<SearchMatch> = (1..=50).map(|i| hit("/t/a.txt", i)).collect();
    assert_eq!(walk.visit(Some(10), hits, false), WalkState::Quit);
    assert_eq!(walk.finish(Some(10)).len(), 10);
}

#[test]
fn case_insensitive_matching() {
    let sensitive = search::plan_grep("hello", "/t", &GrepOptions::default()).unwrap();
    assert!(!sensitive.matcher.is_match(b"Hello World").unwrap());
    let opts = GrepOptions { case_insensitive: true, ..Default::default() };
    let insensitive = search::plan_grep("hello", "/t", &opts).unwrap();
    assert!(insensitive.matcher.is_match(b"Hello World").unwrap());
    assert!(!insensitive.matcher.is_match(b"other").unwrap());
}

#[test]
fn glob_filter_restricts_file_types() {
    let opts = GrepOptions { glob_filter: Some("*.rs".to_string()), ..Default::default() };
    let plan = search::plan_grep("MATCH", "/t", &opts).unwrap();
    let filter = plan.filter.unwrap();
    assert!(filter.matched("/t/a.rs", false).is_whitelist());
    assert!(filter.matched("/t/b.txt", false).is_ignore());
    assert!(search::plan_grep("MATCH", "/t", &GrepOptions::default()).unwrap().filter.is_none());
}

#[test]
fn everything_is_searched_when_asked() {
    let plan = search::plan_grep("MATCH", "/t", &GrepOptions::default()).unwrap();
    assert_eq!(plan.binary_mark, 0);
    assert!(!plan.hidden && !plan.no_ignore);
    let opts = GrepOptions { no_ignore: true, ..Default::default() };
    let plan = search::plan_grep("MATCH", "/t", &opts).unwrap();
    assert!(plan.hidden && plan.no_ignore);
    let opts = GrepOptions { hidden: true, ..Default::default() };
    let plan = search::plan_grep("MATCH", "/t", &opts).unwrap();
    assert!(plan.hidden && !plan.no_ignore);
}

#[test]
fn invalid_regex_is_an_error() {
    let r = search::plan_grep("(unclosed", "/t", &GrepOptions::default());
    assert!(matches!(r, Err(SearchError::InvalidPattern(_))));
}

#[test]
fn an_invalid_filter_is_an_error() {
    let opts = GrepOptions { glob_filter: Some("[a".to_string()), ..Default::default() };
    assert!(matches!(
        search::plan_grep("x", "/t", &opts),
        Err(SearchError::InvalidPattern(_))
    ));
}

#[test]
fn sorting_keeps_everything() {
    let paths: Vec<FoundPath> = ["b", "a/c", "a", "b", "a-b"]
        .iter()
        .map(|p| FoundPath { path: p.to_string() })
        .collect();
    let sorted: Vec<String> = sort::sort(paths).into_iter().map(|p| p.path).collect();
    assert_eq!(sorted, vec!["a", "a/c", "a-b", "b", "b"]);
}

// ─── The tool ────────────────────────────────────────────────────────────────

fn ask(limit: Option<usize>) -> GlobRequest {
    GlobRequest {
        pattern: "*.rs".to_string(),
        path: None,
        limit,
        no_ignore: false,
        hidden: false,
    }
}

fn run_tool(request: &GlobRequest, count: usize) -> cersei::runner::ToolResult {
    let names: Vec<String> = (0..count).map(|i| format!("/t/f{i:02}.rs")).collect();
    let files: Vec<&str> = names.iter().map(|s| s.as_str()).collect();
    let base = GlobTool.base_dir(request, "/t");
    let found = glob(&request.pattern, &base, GlobTool.options(request), &files)
        .map(|v| v.into_iter().map(|path| FoundPath { path }).collect());
    GlobTool.render(request, found, &base)
}

#[test]
fn defaults_to_the_working_directory() {
    let res = run_tool(&ask(None), 1);
    assert!(!res.is_error);
    assert!(res.content.contains("f00.rs"));
    let mut elsewhere = ask(None);
    elsewhere.path = Some("/e".to_string());
    assert_eq!(GlobTool.base_dir(&elsewhere, "/t"), "/e");
}

#[test]
fn reports_that_more_matches_exist_beyond_the_limit() {
    let res = run_tool(&ask(Some(10)), 12);
    assert!(!res.is_error);
    assert_eq!(res.content.matches(".rs").count(), 10);
    assert!(res.content.contains("more exist"));
}

#[test]
fn exactly_limit_matches_is_not_reported_as_truncated() {
    let res = run_tool(&ask(Some(10)), 10);
    assert!(!res.is_error);
    assert!(!res.content.contains("more exist"));
}

#[test]
fn the_tool_says_when_nothing_matches_and_when_it_fails() {
    assert_eq!(run_tool(&ask(None), 0).content, "No files matched the pattern.");
    let timed_out = GlobTool.render(
        &ask(None),
        Err(SearchError::Timeout(Span { secs: 30, nanos: 0 })),
        "/t",
    );
    assert!(timed_out.is_error);
    assert!(timed_out.content.starts_with("Glob timed out after 30s"));
    let failed =
        GlobTool.render(&ask(None), Err(SearchError::IoError("disk".to_string())), "/t");
    assert!(failed.is_error);
    assert!(failed.content.starts_with("Glob failed: "));
    assert_eq!(GlobTool.invalid_input("no pattern").content, "Invalid input: no pattern");
}

#[test]
fn the_tool_describes_its_input() {
    assert_eq!(GlobTool.name(), "Glob");
    let schema = GlobTool.input_schema();
    assert_eq!(schema.get("type"), Some(&Json::str("object")));
    assert!(schema.get("properties").unwrap().get("pattern").is_some());
    assert_eq!(GlobTool.options(&ask(None)).max_results, Some(201));
    assert_eq!(GlobTool.options(&ask(Some(usize::MAX))).max_results, Some(usize::MAX));
}
