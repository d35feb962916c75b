use cersei::json::Json;
use cersei::ndjson::{NdjsonLines, NextLine};
use cersei::sandbox::{
    self, CpuLimit, FileKind, RunOutput, RunRequest, SandboxOpts, SandboxStatus, StreamChunk,
    VmError,
};
use cersei::search::Span;
use cersei::sprites::{self, DirWalk, ListedEntry, SpriteError, SpriteRun, SpriteStatus, SpritesCommands, SpritesRuntime};
use cersei::vercel::{
    self, ApiCommand, ApiLogError, ApiLogLine, ApiSandbox, CmdStreamLine, Method, RunCollector,
    SandboxPages, StreamFold, VercelClient, VercelConfig,
};
use cersei::vercel_runtime::{self, CommandContext, VercelFilesystem, VercelRun, VercelRuntime};
use std::io::Read;

fn opts(image: &str) -> SandboxOpts {
    SandboxOpts {
        image: image.to_string(),
        env: vec![],
        labels: vec![],
        workdir: None,
        volumes: vec![],
        mem_limit: None,
        cpu_limit: None,
        from_snapshot: None,
    }
}

fn request(command: &str) -> RunRequest {
    RunRequest {
        command: command.to_string(),
        env: vec![],
        workdir: None,
        timeout: None,
        background: false,
    }
}

fn pair(a: &str, b: &str) -> (String, String) {
    (a.to_string(), b.to_string())
}

fn text<'a>(v: &'a Json, path: &[&str]) -> Option<&'a str> {
    let mut v = v;
    for p in path {
        v = v.get(p)?;
    }
    v.as_str()
}

// ─── Sprites ─────────────────────────────────────────────────────────────────

#[test]
fn sprites_fs_pointer_roundtrip() {
    let ptr = sprites::encode_fs_pointer("cersei-vm-abc", "v3");
    assert_eq!(ptr, "sprite=cersei-vm-abc;checkpoint=v3");
    let (sprite, checkpoint) = sprites::parse_fs_pointer(&ptr).unwrap();
    assert_eq!(sprite, "cersei-vm-abc");
    assert_eq!(checkpoint, "v3");
}

#[test]
fn fs_pointer_rejects_garbage() {
    assert!(sprites::parse_fs_pointer("docker-image:tag").is_err());
    assert!(sprites::parse_fs_pointer("sprite=;checkpoint=v1").is_err());
    assert!(sprites::parse_fs_pointer("sprite=x").is_err());
}

#[test]
fn a_malformed_sprite_pointer_is_named() {
    assert_eq!(
        sprites::parse_fs_pointer("sprite=x"),
        Err(VmError::Snapshot("malformed sprites fs_pointer: sprite=x".to_string()))
    );
}

#[test]
fn the_last_part_of_a_pointer_counts() {
    let (sprite, checkpoint) =
        sprites::parse_fs_pointer("sprite=a;checkpoint=1;other;sprite=b;checkpoint=2").unwrap();
    assert_eq!((sprite.as_str(), checkpoint.as_str()), ("b", "2"));
}

#[test]
fn sprites_status_mapping() {
    assert_eq!(sprites::map_status(SpriteStatus::Cold), SandboxStatus::Running);
    assert_eq!(sprites::map_status(SpriteStatus::Warm), SandboxStatus::Running);
    assert_eq!(sprites::map_status(SpriteStatus::Running), SandboxStatus::Running);
    assert_eq!(sprites::map_status(SpriteStatus::Stopped), SandboxStatus::Exited);
}

#[test]
fn sprite_errors_are_mapped() {
    assert_eq!(
        sprites::map_sprites_err(SpriteError::NotFound("x".to_string())),
        VmError::NotFound("x".to_string())
    );
    assert_eq!(
        sprites::map_sprites_err(SpriteError::Timeout),
        VmError::Timeout(Span { secs: 120, nanos: 0 })
    );
    assert_eq!(
        sprites::map_sprites_err(SpriteError::Other("boom".to_string())),
        VmError::Backend { backend: "sprites".to_string(), message: "boom".to_string() }
    );
}

#[test]
fn shell_quote_escapes_single_quotes() {
    assert_eq!(sprites::shell_quote("echo 'hi'"), "'echo '\\''hi'\\'''");
}

#[test]
fn both_back_ends_quote_alike() {
    for s in ["", "plain", "it's", "''", "a\nb $x `y`"] {
        assert_eq!(sprites::shell_quote(s), vercel_runtime::shell_quote(s));
    }
    assert_eq!(vercel_runtime::shell_quote(""), "''");
}

#[test]
fn sprites_runtime_reports_capabilities() {
    let rt = SpritesRuntime;
    assert_eq!(rt.name(), "sprites");
    let caps = rt.capabilities();
    assert!(caps.snapshots);
    assert!(caps.remote);
    assert!(caps.network_isolation);
    assert!(!caps.shared_volumes);
    assert!(!caps.pause_resume);
}

#[test]
fn sprites_are_sized_by_their_limits() {
    let mut o = opts("x");
    o.mem_limit = Some(512 * 1024 * 1024 + 5);
    o.cpu_limit = Some(CpuLimit { whole: 1, fraction: true });
    let size = SpritesRuntime.size(&o);
    assert_eq!(size.ram_mb, Some(512));
    assert_eq!(size.cpus, Some(2));
    o.mem_limit = Some(10);
    o.cpu_limit = Some(CpuLimit { whole: 0, fraction: false });
    let size = SpritesRuntime.size(&o);
    assert_eq!(size.ram_mb, Some(1));
    assert_eq!(size.cpus, Some(1));
    let size = SpritesRuntime.size(&opts("x"));
    assert_eq!(size.ram_mb, None);
    assert_eq!(size.cpus, None);
    assert_eq!(SpritesRuntime.image("cersei-vm-a"), "sprite://cersei-vm-a");
}

#[test]
fn sprite_commands_run_in_a_shell() {
    let commands = SpritesCommands {
        env: vec![pair("A", "1"), pair("B", "2")],
        workdir: Some("/work".to_string()),
    };
    let mut req = request("make test");
    req.env = vec![pair("B", "3")];
    let c = commands.build(&req, &req.command);
    assert_eq!(c.program, "/bin/sh");
    assert_eq!(c.args, vec!["-c".to_string(), "make test".to_string()]);
    assert_eq!(c.current_dir, Some("/work".to_string()));
    assert_eq!(c.envs, vec![pair("A", "1"), pair("B", "2"), pair("B", "3")]);
    req.workdir = Some("/other".to_string());
    assert_eq!(commands.build(&req, "x").current_dir, Some("/other".to_string()));
}

#[test]
fn sprite_requests_are_planned() {
    let commands = SpritesCommands { env: vec![], workdir: None };
    let mut req = request("sleep 5");
    match commands.plan(&req) {
        SpriteRun::Foreground(c, limit) => {
            assert_eq!(c.args[1], "sleep 5");
            assert_eq!(limit, Span { secs: 120, nanos: 0 });
        }
        other => panic!("expected a foreground run, got {other:?}"),
    }
    req.timeout = Some(Span { secs: 3600, nanos: 0 });
    match commands.plan(&req) {
        SpriteRun::Foreground(_, limit) => assert_eq!(limit, Span { secs: 600, nanos: 0 }),
        other => panic!("expected a foreground run, got {other:?}"),
    }
    req.background = true;
    match commands.plan(&req) {
        SpriteRun::Background(c) => {
            assert_eq!(c.args[1], "nohup sh -c 'sleep 5' >/dev/null 2>&1 & echo $!")
        }
        other => panic!("expected a background run, got {other:?}"),
    }
}

#[test]
fn the_directory_of_a_file_is_made_first() {
    assert_eq!(sprites::dir_to_create("/work/notes/a.txt"), Some("/work/notes".to_string()));
    assert_eq!(sprites::dir_to_create("notes/a.txt"), Some("notes".to_string()));
    // The directory is named as it was written.
    assert_eq!(sprites::dir_to_create("a//b/c"), Some("a//b".to_string()));
    assert_eq!(sprites::dir_to_create("a/./b/c"), Some("a/./b".to_string()));
    assert_eq!(sprites::dir_to_create("//a/./c/."), Some("//a".to_string()));
    assert_eq!(sprites::dir_to_create("a//./b/"), Some("a".to_string()));
    assert_eq!(sprites::dir_to_create("././a"), Some(".".to_string()));
    assert_eq!(sprites::dir_to_create("./."), None);
    assert_eq!(sprites::dir_to_create("//a"), None);
    assert_eq!(sprites::dir_to_create("/a.txt"), None);
    assert_eq!(sprites::dir_to_create("a.txt"), None);
    assert_eq!(sprites::dir_to_create("/"), None);
    assert_eq!(sprites::dir_to_create(""), None);
}

fn listed(name: &str, is_dir: bool) -> ListedEntry {
    ListedEntry { name: name.to_string(), is_dir, size: 7, modified_unix_ms: Some(5) }
}

#[test]
fn directories_are_walked_down_to_the_depth() {
    let mut walk = DirWalk::new("/w", 2);
    let first = walk.next().unwrap();
    assert_eq!((first.path.as_str(), first.level), ("/w", 1));
    walk.listed(&first, &vec![listed("a", true), listed("f.txt", false), listed("b", true)]);
    let second = walk.next().unwrap();
    assert_eq!((second.path.as_str(), second.level), ("/w/b", 2));
    walk.listed(&second, &vec![listed("deep", true)]);
    let third = walk.next().unwrap();
    assert_eq!((third.path.as_str(), third.level), ("/w/a", 2));
    walk.listed(&third, &vec![]);
    assert_eq!(walk.next(), None);
    let paths: Vec<&str> = walk.entries.iter().map(|e| e.path.as_str()).collect();
    assert_eq!(paths, vec!["/w/a", "/w/f.txt", "/w/b", "/w/b/deep"]);
    assert_eq!(walk.entries[0].kind, FileKind::Dir);
    assert_eq!(walk.entries[1].kind, FileKind::File);
    assert_eq!(walk.entries[1].size, 7);
    assert_eq!(walk.entries[1].modified_unix_ms, 5);
}

#[test]
fn a_depth_of_nothing_lists_one_level() {
    let mut walk = DirWalk::new("/w", 0);
    let first = walk.next().unwrap();
    walk.listed(&first, &vec![listed("a", true)]);
    assert_eq!(walk.next(), None);
    assert_eq!(walk.entries.len(), 1);
    let e = sprites::stat_entry("/x", true, 3, None);
    assert_eq!((e.kind, e.size, e.modified_unix_ms), (FileKind::Dir, 3, 0));
}

// ─── What the back ends share ────────────────────────────────────────────────

#[test]
fn names_and_ids_lead_to_each_other() {
    assert_eq!(sandbox::server_name("abc"), "cersei-vm-abc");
    assert_eq!(sandbox::server_name("cersei-vm-abc"), "cersei-vm-abc");
    assert_eq!(sandbox::new_server_name("abc"), "cersei-vm-abc");
    assert_eq!(sandbox::sandbox_id("cersei-vm-abc"), "abc");
    assert_eq!(sandbox::sandbox_id("other"), "other");
}

#[test]
fn timeouts_have_a_default_and_a_maximum() {
    assert_eq!(sandbox::effective_timeout(None), Span { secs: 120, nanos: 0 });
    assert_eq!(
        sandbox::effective_timeout(Some(Span { secs: 3, nanos: 5 })),
        Span { secs: 3, nanos: 5 }
    );
    assert_eq!(
        sandbox::effective_timeout(Some(Span { secs: 601, nanos: 0 })),
        Span { secs: 600, nanos: 0 }
    );
    let out = sandbox::timed_out_output(Span { secs: 2, nanos: 500_000_000 });
    assert_eq!(out.stderr, "timeout after 2.5s");
    assert_eq!(out.exit_code, -1);
    assert!(out.timed_out);
}

#[test]
fn background_runs_hand_back_their_process_id() {
    let out = sandbox::background_output(" 4711\n", "warn".to_string(), 0);
    assert_eq!(out.pid, Some(4711));
    assert_eq!(out.stdout, "");
    assert_eq!(out.stderr, "warn");
    assert_eq!(sandbox::background_output("none", String::new(), 1).pid, None);
    assert_eq!(sandbox::background_output("4294967296", String::new(), 1).pid, None);
}

#[test]
fn signals_are_sent_by_kill() {
    assert_eq!(sandbox::kill_command(15, 42), "kill -15 42");
    assert_eq!(sandbox::signal_outcome(15, 42, true, "ignored"), Ok(()));
    assert_eq!(
        sandbox::signal_outcome(9, 42, false, " no such process\n"),
        Err(VmError::Lifecycle("kill -9 42: no such process".to_string()))
    );
}

#[test]
fn what_a_back_end_cannot_do_is_an_error() {
    let mut o = opts("x");
    assert_eq!(sandbox::reject_volumes("sprites", &o), Ok(()));
    o.volumes = vec!["data".to_string()];
    assert_eq!(
        sandbox::reject_volumes("sprites", &o),
        Err(VmError::Invalid("sprites backend does not support volume mounts".to_string()))
    );
    assert_eq!(sandbox::reject_directory("vercel", "/tmp/x", false), Ok(()));
    assert_eq!(
        sandbox::reject_directory("vercel", "/tmp/x", true),
        Err(VmError::Invalid(
            "vercel upload supports files only, /tmp/x is a directory".to_string()
        ))
    );
    assert_eq!(
        sandbox::watch_unsupported("vercel"),
        VmError::Lifecycle("watch not implemented for vercel backend".to_string())
    );
}

// ─── Vercel ──────────────────────────────────────────────────────────────────

#[test]
fn vercel_fs_pointer_roundtrip() {
    let ptr = vercel_runtime::encode_fs_pointer("snap_123");
    assert_eq!(ptr, "vercel-snapshot=snap_123");
    assert_eq!(vercel_runtime::parse_fs_pointer(&ptr).unwrap(), "snap_123");
    assert!(vercel_runtime::parse_fs_pointer("vercel-snapshot=").is_err());
    assert!(vercel_runtime::parse_fs_pointer("sprite=x;checkpoint=y").is_err());
}

#[test]
fn vercel_status_mapping() {
    assert_eq!(vercel_runtime::map_status("pending"), SandboxStatus::Creating);
    assert_eq!(vercel_runtime::map_status("running"), SandboxStatus::Running);
    assert_eq!(vercel_runtime::map_status("snapshotting"), SandboxStatus::Running);
    assert_eq!(vercel_runtime::map_status("stopping"), SandboxStatus::Paused);
    assert_eq!(vercel_runtime::map_status("stopped"), SandboxStatus::Paused);
    assert_eq!(vercel_runtime::map_status("aborted"), SandboxStatus::Killed);
    assert_eq!(vercel_runtime::map_status("failed"), SandboxStatus::Failed);
}

#[test]
fn an_unknown_status_counts_as_running() {
    assert_eq!(vercel_runtime::map_status("dreaming"), SandboxStatus::Running);
}

#[test]
fn tar_gz_contains_relative_entry() {
    let archive =
        vercel_runtime::build_tar_gz("/work/notes/hello.txt", b"hi there", 1_700_000_000).unwrap();
    let gz = flate2::read::GzDecoder::new(archive.as_slice());
    let mut tar = tar::Archive::new(gz);
    let mut entries = tar.entries().unwrap();
    let mut entry = entries.next().unwrap().unwrap();
    assert_eq!(entry.path().unwrap().display().to_string(), "work/notes/hello.txt");
    assert_eq!(entry.header().mode().unwrap(), 0o644);
    assert_eq!(entry.header().mtime().unwrap(), 1_700_000_000);
    let mut content = String::new();
    entry.read_to_string(&mut content).unwrap();
    assert_eq!(content, "hi there");
    assert!(entries.next().is_none());
}

#[test]
fn a_path_that_no_archive_can_hold_is_an_error() {
    assert!(matches!(vercel_runtime::build_tar_gz("/", b"x", 0), Err(VmError::Io(_))));
    assert!(matches!(vercel_runtime::build_tar_gz("/a/../b", b"x", -5), Err(VmError::Io(_))));
}

#[test]
fn paths_are_seen_from_the_root() {
    assert_eq!(vercel_runtime::relative_to_root("/a/b"), "a/b");
    assert_eq!(vercel_runtime::relative_to_root("//a//b/"), "a//b");
    assert_eq!(vercel_runtime::relative_to_root("/./a/."), "a");
    assert_eq!(vercel_runtime::relative_to_root("a/b/"), "a/b/");
}

#[test]
fn vercel_runtime_reports_capabilities() {
    let rt = VercelRuntime::new(VercelConfig::new("tok", "prj_test"));
    assert_eq!(rt.name(), "vercel");
    let caps = rt.capabilities();
    assert!(caps.snapshots);
    assert!(caps.pause_resume);
    assert!(caps.remote);
    assert!(caps.network_isolation);
    assert!(!caps.shared_volumes);
}

#[test]
fn create_body_maps_opts() {
    let rt = VercelRuntime::new(
        VercelConfig::new("tok", "prj_test").with_sandbox_timeout_ms(60_000),
    );
    let mut o = opts("cersei/sandbox-base:latest");
    o.env = vec![pair("FOO", "bar")];
    o.labels = vec![pair("team", "cersei")];
    o.cpu_limit = Some(CpuLimit { whole: 2, fraction: true });
    let body = Json::Object(rt.create_body(&o, "cersei-vm-x"));
    assert_eq!(text(&body, &["projectId"]), Some("prj_test"));
    assert_eq!(text(&body, &["name"]), Some("cersei-vm-x"));
    assert_eq!(text(&body, &["env", "FOO"]), Some("bar"));
    assert_eq!(text(&body, &["tags", "team"]), Some("cersei"));
    assert_eq!(body.get("resources").unwrap().get("vcpus").unwrap().as_u64(), Some(3));
    assert_eq!(body.get("timeout").unwrap().as_u64(), Some(60_000));
    // The default image must not be forwarded.
    assert!(body.get("image").is_none());

    let custom = opts("vercel/sandbox/node:22");
    let body = Json::Object(rt.create_body(&custom, "cersei-vm-y"));
    assert_eq!(text(&body, &["image"]), Some("vercel/sandbox/node:22"));
    assert!(body.get("env").is_none());
    assert!(body.get("tags").is_none());
    assert!(body.get("resources").is_none());
}

#[test]
fn a_sandbox_is_planned_from_a_snapshot() {
    let rt = VercelRuntime::new(VercelConfig::new("tok", "prj"));
    let body = rt.plan_create(&opts("i"), "n", Some("vercel-snapshot=s1")).unwrap();
    assert_eq!(text(&body, &["source", "type"]), Some("snapshot"));
    assert_eq!(text(&body, &["source", "snapshotId"]), Some("s1"));
    assert!(rt.plan_create(&opts("i"), "n", None).unwrap().get("source").is_none());
    assert_eq!(
        rt.plan_create(&opts("i"), "n", Some("junk")),
        Err(VmError::Snapshot("malformed vercel fs_pointer: junk".to_string()))
    );
    let mut o = opts("i");
    o.volumes = vec!["v".to_string()];
    assert_eq!(
        rt.plan_create(&o, "n", None),
        Err(VmError::Invalid("vercel backend does not support volume mounts".to_string()))
    );
    assert_eq!(rt.image("n"), "vercel://n");
    assert_eq!(rt.workdir(&opts("i"), &Some("/home".to_string())), Some("/home".to_string()));
}

#[test]
fn settings_come_out_of_the_environment() {
    let s = |t: &str| Some(t.to_string());
    let c = VercelConfig::from_env(s("tok"), s("prj"), s("team"), s("http://x")).unwrap();
    assert_eq!(c.token, "tok");
    assert_eq!(c.project_id, "prj");
    assert_eq!(c.team_id, s("team"));
    assert_eq!(c.base_url, "http://x");
    let c = VercelConfig::from_env(s("tok"), s("prj"), None, None).unwrap();
    assert_eq!(c.base_url, "https://vercel.com/api");
    assert_eq!(c.team_id, None);
    assert_eq!(
        VercelConfig::from_env(None, None, None, None),
        Err(VmError::Invalid("VERCEL_TOKEN is not set".to_string()))
    );
    assert_eq!(
        VercelConfig::from_env(s("tok"), None, None, None),
        Err(VmError::Invalid("VERCEL_PROJECT_ID is not set".to_string()))
    );
    let c = VercelConfig::new("a", "b").with_team_id("t").with_base_url("u");
    assert_eq!((c.team_id, c.base_url.as_str()), (s("t"), "u"));
}

#[test]
fn requests_carry_the_team_and_the_token() {
    let client = VercelClient::new(VercelConfig::new("tok", "prj").with_team_id("team_1"));
    let r = client.get_sandbox("n", true);
    assert_eq!(r.method, Method::Get);
    assert_eq!(r.url, "https://vercel.com/api/v2/sandboxes/n");
    assert_eq!(r.bearer, "tok");
    assert_eq!(
        r.query,
        vec![pair("teamId", "team_1"), pair("projectId", "prj"), pair("resume", "true")]
    );
    let r = client.list_sandboxes("cersei-vm-", &Some("c2".to_string()));
    assert_eq!(
        r.query,
        vec![
            pair("teamId", "team_1"),
            pair("project", "prj"),
            pair("namePrefix", "cersei-vm-"),
            pair("cursor", "c2")
        ]
    );
    let client = VercelClient::new(VercelConfig::new("tok", "prj"));
    assert_eq!(client.stop_session("s").url, "https://vercel.com/api/v2/sandboxes/sessions/s/stop");
    assert!(client.create_snapshot("s").url.ends_with("/sessions/s/snapshot"));
    assert_eq!(client.delete_sandbox("n").method, Method::Delete);
    assert!(client.create_sandbox(Json::Null).url.ends_with("/v3/sandboxes"));
    assert!(client.start_command("s", Json::Null).url.ends_with("/sessions/s/cmd"));
    let r = client.fs_read("s", "a.txt", "/w");
    assert!(r.url.ends_with("/sessions/s/fs/read"));
    assert_eq!(text(r.body.as_ref().unwrap(), &["path"]), Some("a.txt"));
    assert_eq!(text(r.body.as_ref().unwrap(), &["cwd"]), Some("/w"));
    assert!(client.fs_mkdir("s", "d", "/").url.ends_with("/sessions/s/fs/mkdir"));
    let r = client.fs_write("s", "/");
    assert_eq!(r.headers, vec![pair("content-type", "application/gzip"), pair("x-cwd", "/")]);
}

#[test]
fn replies_are_judged_by_their_status() {
    assert_eq!(vercel::check_reply(204, "204 No Content", None, "x"), Ok(()));
    assert_eq!(
        vercel::check_reply(404, "404 Not Found", Some("gone".to_string()), "x"),
        Err(VmError::NotFound("gone".to_string()))
    );
    let long = "y".repeat(400);
    assert_eq!(
        vercel::check_reply(500, "500 Internal Server Error", None, &long),
        Err(VmError::Backend {
            backend: "vercel".to_string(),
            message: format!("HTTP 500 Internal Server Error: {}", "y".repeat(300)),
        })
    );
    assert_eq!(vercel::check_read("/a", 200, "200 OK", ""), Ok(()));
    assert_eq!(
        vercel::check_read("/a", 404, "404 Not Found", ""),
        Err(VmError::NotFound("/a".to_string()))
    );
    assert_eq!(
        vercel::check_read("/a", 403, "403 Forbidden", "no"),
        Err(VmError::Backend {
            backend: "vercel".to_string(),
            message: "fs/read HTTP 403 Forbidden: no".to_string(),
        })
    );
    assert_eq!(
        vercel::transport_failure("request failed", "reset"),
        VmError::Backend {
            backend: "vercel".to_string(),
            message: "request failed: reset".to_string(),
        }
    );
}

#[test]
fn pages_follow_each_other() {
    let one = |n: &str| ApiSandbox {
        name: n.to_string(),
        status: "running".to_string(),
        created_at: 1,
        tags: None,
    };
    let mut pages = SandboxPages::new();
    assert!(pages.page(vec![one("a"), one("b")], Some("next".to_string())));
    assert_eq!(pages.cursor, Some("next".to_string()));
    assert!(!pages.page(vec![one("c")], None));
    let names: Vec<&str> = pages.sandboxes.iter().map(|s| s.name.as_str()).collect();
    assert_eq!(names, vec!["a", "b", "c"]);
}

fn stdout(s: &str) -> CmdStreamLine {
    CmdStreamLine::Log(ApiLogLine::Stdout { data: s.to_string() })
}

fn stderr(s: &str) -> CmdStreamLine {
    CmdStreamLine::Log(ApiLogLine::Stderr { data: s.to_string() })
}

fn record(code: Option<i64>) -> CmdStreamLine {
    CmdStreamLine::Command { command: ApiCommand { id: "c".to_string(), exit_code: code } }
}

fn failure(code: &str, message: &str) -> CmdStreamLine {
    CmdStreamLine::Log(ApiLogLine::Error {
        data: ApiLogError { code: code.to_string(), message: message.to_string() },
    })
}

#[test]
fn the_output_of_a_command_is_collected() {
    let out = vercel::collect_run_output(&vec![
        record(None),
        stdout("a"),
        stderr("x"),
        stdout("b"),
        record(Some(2)),
    ])
    .unwrap();
    assert_eq!(out.stdout, "ab");
    assert_eq!(out.stderr, "x");
    assert_eq!(out.exit_code, 2);
    assert_eq!(out.pid, None);
    assert_eq!(vercel::collect_run_output(&vec![]).unwrap().exit_code, -1);
    assert_eq!(
        vercel::collect_run_output(&vec![stdout("a"), failure("boom", "it broke"), stdout("b")]),
        Err(VmError::Backend {
            backend: "vercel".to_string(),
            message: "command error (boom): it broke".to_string(),
        })
    );
    let mut c = RunCollector::new();
    assert_eq!(c.line(&stdout("z")), Ok(()));
    assert_eq!(c.finish().stdout, "z");
}

#[test]
fn a_stream_shows_output_as_it_comes() {
    let mut fold = StreamFold::new();
    assert_eq!(fold.line(stdout("a")), Some(StreamChunk::Stdout { data: "a".to_string() }));
    assert_eq!(fold.line(record(None)), None);
    assert_eq!(fold.finish(), StreamChunk::Exit { code: -1 });
    assert_eq!(fold.line(record(Some(3))), None);
    assert_eq!(fold.line(record(None)), None);
    assert_eq!(
        fold.line(failure("boom", "it broke")),
        Some(StreamChunk::Error { message: "boom: it broke".to_string() })
    );
    assert_eq!(fold.line(stderr("e")), Some(StreamChunk::Stderr { data: "e".to_string() }));
    assert_eq!(fold.finish(), StreamChunk::Exit { code: 3 });
}

#[test]
fn an_unparseable_line_is_named() {
    assert_eq!(
        vercel::unparseable("{", "EOF"),
        VmError::Backend {
            backend: "vercel".to_string(),
            message: "unparseable command stream line (EOF): {".to_string(),
        }
    );
}

fn lines_of(chunks: &[&[u8]]) -> Vec<String> {
    let mut reader = NdjsonLines::new();
    let mut out = vec![];
    for c in chunks {
        reader.feed(c);
        while let NextLine::Line(t) = reader.next_line() {
            out.push(t);
        }
        assert_eq!(reader.next_line(), NextLine::Wait);
    }
    reader.finish();
    loop {
        match reader.next_line() {
            NextLine::Line(t) => out.push(t),
            NextLine::End => break,
            NextLine::Wait => panic!("waiting after the end"),
        }
    }
    assert_eq!(reader.next_line(), NextLine::End);
    out
}

#[test]
fn ndjson_splitter_handles_partial_lines() {
    let body = "{\"stream\":\"stdout\",\"data\":\"a\"}\n{\"stream\":\"std";
    let tail = "err\",\"data\":\"b\"}\n{\"command\":{\"id\":\"c\",\"exitCode\":0}}";
    let lines = lines_of(&[body.as_bytes(), tail.as_bytes()]);
    assert_eq!(
        lines,
        vec![
            "{\"stream\":\"stdout\",\"data\":\"a\"}".to_string(),
            "{\"stream\":\"stderr\",\"data\":\"b\"}".to_string(),
            "{\"command\":{\"id\":\"c\",\"exitCode\":0}}".to_string(),
        ]
    );
    let out =
        vercel::collect_run_output(&vec![stdout("a"), stderr("b"), record(Some(0))]).unwrap();
    assert_eq!(out.stdout, "a");
    assert_eq!(out.stderr, "b");
    assert_eq!(out.exit_code, 0);
}

#[test]
fn lines_do_not_depend_on_the_chunks() {
    let all = "  {\"a\":1}\r\n\n\n{\"ö\":2}\n   \nlast".as_bytes();
    let whole = lines_of(&[all]);
    assert_eq!(
        whole,
        vec!["{\"a\":1}".to_string(), "{\"ö\":2}".to_string(), "last".to_string()]
    );
    for i in 0..all.len() {
        assert_eq!(lines_of(&[&all[..i], &all[i..]]), whole);
    }
    assert_eq!(lines_of(&[b"\xff\n"]), vec!["\u{fffd}".to_string()]);
}

#[test]
fn command_bodies_name_the_shell() {
    let base = CommandContext {
        env: vec![pair("A", "1"), pair("B", "2")],
        workdir: Some("/w".to_string()),
    };
    let mut req = request("ls");
    req.env = vec![pair("B", "3")];
    let body = vercel_runtime::command_body(&req, "ls -l", &base);
    assert_eq!(text(&body, &["command"]), Some("/bin/sh"));
    assert_eq!(body.get("args").unwrap().item(0).unwrap().as_str(), Some("-c"));
    assert_eq!(body.get("args").unwrap().item(1).unwrap().as_str(), Some("ls -l"));
    assert_eq!(text(&body, &["env", "A"]), Some("1"));
    assert_eq!(text(&body, &["env", "B"]), Some("3"));
    assert_eq!(body.get("sudo").unwrap().as_bool(), Some(false));
    assert_eq!(body.get("wait").unwrap().as_bool(), Some(true));
    assert_eq!(body.get("logs").unwrap().as_bool(), Some(true));
    assert_eq!(text(&body, &["cwd"]), Some("/w"));
    let bare = vercel_runtime::shell_body("x", &CommandContext { env: vec![], workdir: None });
    assert!(bare.get("cwd").is_none());
    req.background = true;
    match vercel_runtime::plan_run(&req, &base) {
        VercelRun::Background(b) => assert_eq!(
            b.get("args").unwrap().item(1).unwrap().as_str(),
            Some("nohup sh -c 'ls' >/dev/null 2>&1 & echo $!")
        ),
        other => panic!("expected a background run, got {other:?}"),
    }
    req.background = false;
    match vercel_runtime::plan_run(&req, &base) {
        VercelRun::Foreground(_, limit) => assert_eq!(limit.secs, 120),
        other => panic!("expected a foreground run, got {other:?}"),
    }
}

fn finished(code: i32, stderr: &str) -> RunOutput {
    RunOutput {
        stdout: "out".to_string(),
        stderr: stderr.to_string(),
        exit_code: code,
        timed_out: false,
        pid: None,
    }
}

#[test]
fn a_failing_script_is_an_error() {
    assert_eq!(vercel::shell_ok("ls", finished(0, "")).unwrap().stdout, "out");
    assert_eq!(
        vercel::shell_ok("ls", finished(-2, " bad \n")),
        Err(VmError::Backend {
            backend: "vercel".to_string(),
            message: "`ls` exited -2: bad".to_string(),
        })
    );
}

#[test]
fn files_are_listed_by_find() {
    let fs = VercelFilesystem { workdir: Some("/w".to_string()) };
    assert_eq!(
        fs.list_script("it's", 0),
        "find 'it'\\''s' -mindepth 1 -maxdepth 1 -printf '%y\\t%s\\t%T@\\t%p\\n' 2>/dev/null || true"
    );
    let rows = fs.list_rows("d\t4096\t1.5\t/w/a\nl\t1\tx\t/w/l\nf\tbig\t2\t/w/a\tb\nshort\tline\n");
    assert_eq!(rows.len(), 3);
    assert_eq!(rows[0].kind, FileKind::Dir);
    assert_eq!(rows[0].size, 4096);
    assert_eq!(rows[0].modified, "1.5");
    assert_eq!(rows[1].kind, FileKind::Symlink);
    assert_eq!(rows[2].kind, FileKind::File);
    assert_eq!(rows[2].size, 0);
    assert_eq!(rows[2].path, "/w/a\tb");
    let e = rows[0].clone().entry(1500);
    assert_eq!((e.path.as_str(), e.size, e.modified_unix_ms), ("/w/a", 4096, 1500));
}

#[test]
fn files_are_looked_at_by_stat() {
    let fs = VercelFilesystem { workdir: None };
    assert_eq!(fs.stat_script("/a b"), "stat -c '%F|%s|%Y' '/a b' 2>/dev/null || true");
    let e = fs.read_stat("/a", "regular file|12|1700\n").unwrap();
    assert_eq!(
        (e.path.as_str(), e.kind, e.size, e.modified_unix_ms),
        ("/a", FileKind::File, 12, 1_700_000)
    );
    assert_eq!(fs.read_stat("/a", "directory|1|x").unwrap().kind, FileKind::Dir);
    assert_eq!(fs.read_stat("/a", "directory|1|x").unwrap().modified_unix_ms, 0);
    assert_eq!(fs.read_stat("/a", "symbolic link|1|-2").unwrap().kind, FileKind::Symlink);
    assert_eq!(fs.read_stat("/a", "symbolic link|1|-2").unwrap().modified_unix_ms, -2000);
    assert_eq!(fs.read_stat("/a", " \n"), Err(VmError::NotFound("/a".to_string())));
    assert_eq!(
        fs.read_stat("/a", "weird|1\n"),
        Err(VmError::Backend {
            backend: "vercel".to_string(),
            message: "bad stat output: weird|1".to_string(),
        })
    );
}

#[test]
fn paths_start_from_the_working_directory() {
    let fs = VercelFilesystem { workdir: Some("/w".to_string()) };
    assert_eq!(fs.cwd(), "/w");
    assert_eq!(fs.absolute("a/b"), "/w/a/b");
    assert_eq!(fs.absolute("/a"), "/a");
    assert_eq!(VercelFilesystem { workdir: None }.absolute("a"), "/a");
    assert_eq!(fs.mkdir_script("a'b"), "mkdir 'a'\\''b'");
    assert_eq!(fs.remove_script("x", true), "rm -rf 'x'");
    assert_eq!(fs.remove_script("x", false), "rm -f 'x'");
}
