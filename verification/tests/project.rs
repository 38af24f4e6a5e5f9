//! Projects: settings, manifests, generated files, processes and reports.
use collab::clock::{parse_time, Timestamp};
use collab::config::{
    assign, deprecation, first_found, hostname, load_config, local_config_path, parse_dotenv,
    search_dirs, server_token, settings, split_refs, Assigned, Config,
};
use collab::init::{
    dashboard_config, generate, render_claude_md, tasks_text, ProjectConfig, WorkerConfig,
};
use collab::lifecycle::{
    at_list, blocked, build_worker_env, check_start, command_of, kill_step, manifest_warning,
    parse_target, read_manifest, spawn_worker, to_start, validate_workdir, KillStage, KillStep,
    ManifestFile, PidTable, Sighting, Workdir, WorkerManifestEntry,
};
use collab::manifest::{
    fallback_warning, find_collab_dir_from, find_manifest, govern, governing_dir, manifest_candidates,
    refuse_project, resolve_worker, resolve_worker_manifest, role_show, role_source, team_entries,
    team_pids_file_path, Governing,
};
use collab::report::{already_running, fmt_time, usage, whoami, Auth, Costs, Whoami};
use collab::server::usage::{UsageResponse, UsageRow};
use collab::team::{TeamConfig, TeamManagedMarker, TeamWorker};

fn now() -> Timestamp {
    parse_time("2026-04-17T12:00:00Z").unwrap()
}

fn some(s: &str) -> Option<String> {
    Some(s.to_string())
}

fn names(v: &[&str]) -> Vec<String> {
    v.iter().map(|s| s.to_string()).collect()
}

// ── Settings ────────────────────────────────────────────────────────────────
fn config(host: Option<&str>, instance: Option<&str>, token: Option<&str>) -> Config {
    Config {
        host: host.map(str::to_string),
        instance: instance.map(str::to_string),
        token: token.map(str::to_string),
    }
}

#[test]
fn nearer_files_win_field_by_field() {
    let c = load_config(Some(config(Some("near"), None, None)), Some(config(Some("far"), Some("me"), None)));
    assert_eq!(c.host.as_deref(), Some("near"));
    assert_eq!(c.instance.as_deref(), Some("me"));
    assert!(c.token.is_none());
}

#[test]
fn flags_win_over_variables_and_files() {
    let s = settings(some("f"), None, some("e"), some("env-me"), None, config(Some("c"), Some("c"), Some("tok")));
    assert_eq!(s.server, "f");
    assert_eq!(s.instance.as_deref(), Some("env-me"));
    assert_eq!(s.token.as_deref(), Some("tok"));
    let d = settings(None, None, None, None, None, config(None, None, None));
    assert_eq!(d.server, "http://localhost:8000");
}

#[test]
fn admin_token_and_team_token_coexist_via_separate_env_vars() {
    assert_eq!(server_token(some("adm"), some("tok"), some("file")).as_deref(), Some("adm"));
    assert_eq!(server_token(None, some("tok"), some("file")).as_deref(), Some("tok"));
    assert_eq!(server_token(None, None, some("file")).as_deref(), Some("file"));
}

#[test]
fn searches_stop_before_home() {
    let dirs = search_dirs("/home/ada/work/x", &some("/home/ada"));
    assert_eq!(dirs, vec!["/home/ada/work/x", "/home/ada/work"]);
    assert!(search_dirs("/home/ada", &some("/home/ada")).is_empty());
    let local = |found: Vec<bool>| local_config_path("/home/ada/work", &some("/home/ada"), &found);
    assert_eq!(local(vec![true]).as_deref(), Some("/home/ada/work/.collab.toml"));
    assert!(local(vec![false, true]).is_none());
    assert!(local_config_path("/home/ada", &some("/home/ada"), &vec![true]).is_none());
    assert!(local_config_path("/home/ada/work", &None, &vec![true]).is_none());
    assert_eq!(first_found(&names(&["/a", "/b"]), &vec![false, true]).as_deref(), Some("/b"));
    assert!(first_found(&names(&["/a"]), &vec![false]).is_none());
}

#[test]
fn dotenv_files_are_read_line_by_line() {
    let pairs = parse_dotenv("# c\n\nA=1\nexport B=\"two words\"\nC='x'\nnonsense\n");
    assert!(pairs.contains(&("A".to_string(), "1".to_string())));
    assert_eq!(pairs.iter().filter(|p| p.1 == "two words").count(), 1);
    assert!(pairs.contains(&("C".to_string(), "x".to_string())));
}

#[test]
fn dotenv_shadow_prints_warning_when_shell_shadows_env_file() {
    match assign("COLLAB_TOKEN", "value-from-env-file", &some("value-from-shell"), "/p/.env") {
        Assigned::Shadowed(w) => {
            let w = w.to_lowercase();
            assert!(w.contains("shadow") || w.contains("overrides") || w.contains("already set"), "got: {}", w);
            assert!(!w.contains("value-from"), "secrets stay hidden");
        }
        _ => panic!("no warning"),
    }
    assert!(matches!(assign("A", "1", &None, "/p/.env"), Assigned::Taken));
    assert!(matches!(assign("A", "1", &some("1"), "/p/.env"), Assigned::Kept));
}

#[test]
fn older_commands_still_work() {
    assert!(deprecation(&names(&["add", "@x", "hi"])).unwrap().contains("collab send"));
    assert!(deprecation(&names(&["lifecycle-status"])).unwrap().contains("collab ps"));
    assert!(deprecation(&names(&["stream", "--role", "x"])).unwrap().contains("--status"));
    assert!(deprecation(&names(&["send", "@x", "hi"])).is_none());
}

#[test]
fn references_are_separated_by_commas() {
    assert_eq!(split_refs("abc, def"), names(&["abc", "def"]));
    assert_eq!(hostname(&some("h"), &some("m")), "h");
    assert_eq!(hostname(&None, &some("m")), "m");
}

// ── Projects ────────────────────────────────────────────────────────────────
fn worker(name: &str, next: &[&str]) -> WorkerConfig {
    WorkerConfig {
        name: name.to_string(),
        role: format!("{} role", name),
        tasks: None,
        avatar: None,
        color: None,
        model: None,
        cli_template: None,
        cli_template_light: None,
        reports_to: None,
        works_with: vec![],
        hands_off_to: names(next),
    }
}

fn project() -> ProjectConfig {
    ProjectConfig::new(
        "http://localhost:8000".to_string(),
        None,
        some("/code"),
        some("haiku"),
        vec![worker("a", &["b"]), worker("b", &[])],
    )
}

#[test]
fn projects_get_a_file_for_each_worker() {
    let plan = generate(&project(), &some("/out"), &some("/cwd"));
    assert_eq!(plan.base, "/out");
    assert_eq!(plan.agents.len(), 2);
    assert_eq!(plan.agents[0].path, "/out/a/AGENT.md");
    assert!(plan.agents[0].contents.contains("You are **a**"));
    assert_eq!(plan.manifest.len(), 2);
    assert_eq!(plan.manifest[0].codebase_path, "/code");
    assert_eq!(plan.manifest[0].hands_off_to, names(&["b"]));
    assert!(plan.dashboard.contents.contains("\"a\""));
}

#[test]
fn projects_are_written_below_the_directory_for_workers() {
    let mut c = project();
    c.cli_template_light = some("small -p {prompt}");
    c.workers[0].cli_template_light = some("tiny -p {prompt}");
    c.workers[0].reports_to = some("b");
    c.workers[0].works_with = names(&["b"]);
    let plan = generate(&c, &None, &some("/cwd"));
    assert_eq!(plan.agents[0].path, "./workers/a/AGENT.md");
    assert_eq!(plan.agents[1].path, "./workers/b/AGENT.md");
    assert_eq!(plan.dashboard.path, "./workers/dashboard-config.json");
    assert_eq!(plan.manifest_path, ".collab/workers.json");
    assert_eq!(plan.manifest[0].output_dir, "/cwd/workers/a");
    assert_eq!(plan.manifest[0].cli_template_light.as_deref(), Some("tiny -p {prompt}"));
    assert_eq!(plan.manifest[1].cli_template_light.as_deref(), Some("small -p {prompt}"));
    assert_eq!(plan.manifest[0].reports_to.as_deref(), Some("b"));
    let l = resolve_worker_manifest(&None, &Some(plan.manifest), "a");
    assert_eq!(l.reports_to.as_deref(), Some("b"));
    assert_eq!(l.works_with, names(&["b"]));
}

#[test]
fn dashboards_quote_names_as_json() {
    let odd = worker("a\"b\\c\n\t\u{8}\u{c}\r\u{1}\u{1f}\u{7f}/\u{e9}", &[]);
    let text = dashboard_config(&vec![odd]);
    let quoted = "\"a\\\"b\\\\c\\n\\t\\b\\f\\r\\u0001\\u001f\u{7f}/\u{e9}\"";
    assert!(text.contains(quoted), "got: {}", text);
}

#[test]
fn markers_are_looked_for_upward() {
    assert_eq!(governing_dir("/a/b", &vec![false, true, true]).as_deref(), Some("/a"));
    assert_eq!(governing_dir("/a/b", &vec![true]).as_deref(), Some("/a/b"));
    assert!(governing_dir("/a/b", &vec![false, false, false]).is_none());
}

#[test]
fn agent_files_list_everybody_else() {
    let c = project();
    let md = render_claude_md(&c.workers[0], &c.workers, &c.server, &c.codebase_path, "haiku", &None, "/out");
    assert!(md.contains("b role"));
    assert!(md.contains("export COLLAB_INSTANCE=a"));
    assert!(dashboard_config(&c.workers).contains("\"b\""));
    assert!(tasks_text(&some("draw")).contains("draw"));
}

#[test]
fn broken_projects_name_their_file() {
    let e = ProjectConfig::from_yaml(Err("line 3".to_string()), "workers.yml").err().unwrap();
    assert!(e.contains("workers.yml") && e.contains("line 3"));
}

// ── Processes ───────────────────────────────────────────────────────────────
fn entry(name: &str) -> WorkerManifestEntry {
    WorkerManifestEntry {
        name: name.to_string(),
        role: "r".to_string(),
        codebase_path: "/code".to_string(),
        model: "haiku".to_string(),
        output_dir: "/out".to_string(),
        cli_template: None,
        cli_template_light: None,
        reports_to: None,
        works_with: vec![],
        hands_off_to: vec![],
        shared_data_dir: None,
    }
}

#[test]
fn working_directories_must_be_directories() {
    assert_eq!(validate_workdir("~/x", Workdir::Dir("/home/ada/x".to_string())).unwrap(), "/home/ada/x");
    assert!(validate_workdir("/x", Workdir::File("/x".to_string())).is_err());
    assert!(validate_workdir("/x", Workdir::Unreachable("gone".to_string())).err().unwrap().contains("gone"));
}

#[test]
fn processes_get_few_variables() {
    let env = build_worker_env("me", "http://s", &some("tok"), &some("/bin"), &None);
    let keys: Vec<&str> = env.iter().map(|p| p.0.as_str()).collect();
    assert!(keys.contains(&"COLLAB_INSTANCE") && keys.contains(&"COLLAB_TOKEN") && keys.contains(&"PATH"));
    assert!(!keys.contains(&"HOME"));
    let l = spawn_worker("/w", "haiku", "me", "http://s", &None, &some("t {prompt}"), &None, &None).ok().unwrap();
    assert!(l.args.contains(&"worker".to_string()) && l.args.contains(&"t {prompt}".to_string()));
    assert!(spawn_worker("/w", &"m".repeat(21), "me", "http://s", &None, &None, &None, &None).is_err());
    assert!(command_of(&entry("a")).contains("haiku"));
}

#[test]
fn process_tables_hold_each_name_once() {
    let mut t = PidTable::new();
    t.save_worker_pid("a", 1, "cmd", now());
    t.save_worker_pid("a", 2, "cmd", now());
    t.save_worker_pid("b", 3, "cmd", now());
    assert_eq!(t.entries.len(), 2);
    assert!(t.entries.iter().any(|e| e.name == "a" && e.state.pid == 2));
    assert!(t.status().contains("a"));
    assert_eq!(t.to_stop(&names(&["a", "zz"])), names(&["a"]));
    let alive: Vec<bool> = t.entries.iter().map(|e| e.name == "a").collect();
    let said = t.clean_up(&alive);
    assert_eq!(said.len(), 1);
    assert!(said[0].contains("b (PID 3"));
    assert_eq!(t.entries.len(), 1);
    assert!(t.remove_worker_pid("a"));
}

#[test]
fn stopping_goes_from_asking_to_force() {
    assert_eq!(kill_step(KillStage::Asked, false), KillStep::NotFound);
    assert_eq!(kill_step(KillStage::Asked, true), KillStep::Terminate);
    assert_eq!(kill_step(KillStage::Terminated, true), KillStep::Kill);
    assert_eq!(kill_step(KillStage::Terminated, false), KillStep::Stopped);
}

#[test]
fn targets_are_names_or_everybody() {
    assert_eq!(parse_target(" all ").unwrap(), names(&["all"]));
    assert_eq!(parse_target("@a").unwrap(), names(&["a"]));
    assert_eq!(parse_target("a").unwrap(), names(&["a"]));
    assert_eq!(parse_target("@a b").unwrap_err(), "Invalid instance name: a b");
    assert_eq!(parse_target("a,b").unwrap_err(), "Invalid target: a,b");
    assert_eq!(to_start(vec![entry("a"), entry("b")], &names(&["all"])).len(), 2);
    let chosen = to_start(vec![entry("a"), entry("b")], &names(&["b"]));
    assert_eq!(chosen.len(), 1);
    assert_eq!(at_list(&names(&["a", "b"])), "@a, @b");
}

#[test]
fn running_workers_block_a_start() {
    let seen = |t: &str| Sighting { instance_id: "a".to_string(), last_seen: t.to_string() };
    assert_eq!(blocked(&vec![entry("a")], &vec![seen("2026-04-17T11:59:50Z")], now()), names(&["a"]));
    assert!(blocked(&vec![entry("a")], &vec![seen("2026-04-17T11:00:00Z")], now()).is_empty());
    assert!(check_start(&vec![entry("a")], &vec![seen("2026-04-17T11:59:50Z")], now()).is_err());
}

#[test]
fn manifests_are_read_or_explained() {
    assert!(read_manifest("/m", ManifestFile::Missing).is_err());
    assert!(read_manifest("/m", ManifestFile::Unreadable("denied".to_string())).err().unwrap().contains("denied"));
    assert!(read_manifest("/m", ManifestFile::Invalid("line 2".to_string())).err().unwrap().contains("line 2"));
    assert_eq!(read_manifest("/m", ManifestFile::Entries(vec![entry("a")])).ok().unwrap().len(), 1);
    assert!(manifest_warning("/m", 0o600).is_none());
    assert!(manifest_warning("/m", 0o666).is_some());
}

// ── Finding manifests ───────────────────────────────────────────────────────
fn member(name: &str) -> TeamWorker {
    TeamWorker {
        name: name.to_string(),
        role: format!("{} role", name),
        codebase_path: format!("/code/{}", name),
        tasks: None,
        avatar: None,
        color: None,
        model: None,
        cli_template: None,
        reports_to: None,
        works_with: vec![],
        hands_off_to: vec![],
    }
}

fn team() -> TeamConfig {
    TeamConfig {
        team: "t".to_string(),
        server: "http://s".to_string(),
        shared_data_dir: None,
        cli_template: some("x {prompt}"),
        model: some("haiku"),
        workers: vec![member("a"), member("b")],
    }
}

#[test]
fn lifecycle_commands_find_team_yaml_via_marker() {
    let c = manifest_candidates("/w/x");
    assert!(c.len() >= 2);
    let mut found = vec![false; c.len()];
    assert!(find_collab_dir_from("/w/x", &found).is_none());
    found[1] = true;
    assert!(find_collab_dir_from("/w/x", &found).is_some());
    assert!(find_manifest("/w", &None, false, false).is_err());
    assert!(find_manifest("/w", &some("/w/.collab"), false, false).is_ok());
}

#[test]
fn members_are_found_in_their_team() {
    let l = resolve_worker_manifest(&Some(team()), &None, "a");
    assert_eq!(l.codebase_path.as_deref(), Some("/code/a"));
    assert_eq!(l.cli_template.as_deref(), Some("x {prompt}"));
    assert!(l.teammates.iter().any(|t| t.0 == "b"));
    let r = resolve_worker(None, None, None, &l, "/here");
    assert_eq!((r.workdir.as_str(), r.model.as_str()), ("/code/a", "haiku"));
    let flags = resolve_worker(some("/mine"), some("m"), some("c"), &l, "/here");
    assert_eq!((flags.workdir.as_str(), flags.model.as_str()), ("/mine", "m"));
    let nobody = resolve_worker_manifest(&None, &Some(vec![entry("z")]), "a");
    assert!(nobody.codebase_path.is_none());
    assert_eq!(team_entries(&team()).len(), 2);
    assert!(fallback_warning("/t.yml", "gone").contains("gone"));
}

#[test]
fn governing_manifests_are_shown() {
    let g = govern(Some(("/t/team.yml".to_string(), Ok(team()))), None).ok().unwrap();
    assert!(role_show(&g, &some("a")).unwrap().contains("a role"));
    assert!(role_show(&g, &None).is_err());
    assert_eq!(role_source(&g).unwrap(), "/t/team.yml");
    let legacy = govern(None, Some(("/w/workers.yml".to_string(), Ok(project())))).ok().unwrap();
    assert!(matches!(legacy, Governing::Legacy(..)));
    let nothing = govern(None, None).ok().unwrap();
    assert!(role_show(&nothing, &some("a")).is_err());
    assert!(role_source(&nothing).is_err());
    assert!(govern(Some(("/t".to_string(), Err("bad".to_string()))), None).is_err());
}

#[test]
fn team_processes_are_recorded_at_home() {
    assert!(team_pids_file_path(&some("/home/ada"), "t").unwrap().starts_with("/home/ada/"));
    assert!(team_pids_file_path(&None, "t").is_err());
    let m = TeamManagedMarker::new("t", "/t/team.yml", now());
    assert!(refuse_project(&m).contains("'t'"));
}

// ── Reports ─────────────────────────────────────────────────────────────────
fn who(token: Option<&str>, admin: Option<&str>, auth: Auth) -> Whoami {
    Whoami {
        server: "http://s".to_string(),
        instance: None,
        marker: None,
        admin_token: admin.map(str::to_string),
        token: token.map(str::to_string),
        auth,
        codebase: None,
        local_config: None,
        global_config: None,
    }
}

#[test]
fn whoami_labels_token_as_team_when_token_is_team_token() {
    let auth = Auth::Tried { roster: true, admin: false, hint: String::new() };
    let text = whoami(&who(Some("tm_0123456789abcdef"), None, auth));
    assert!(text.to_lowercase().contains("team"), "got: {}", text);
    assert!(!text.contains("tm_0123456789abcdef"), "tokens stay hidden");
}

#[test]
fn whoami_probes_auth_even_without_instance() {
    let auth = Auth::Tried { roster: false, admin: true, hint: String::new() };
    let text = whoami(&who(None, Some("adm_0123456789abcdef"), auth));
    assert!(!text.contains("skipped"));
    assert!(whoami(&who(None, None, Auth::Skipped)).contains("auth"));
}

#[test]
fn running_twice_is_explained() {
    let t = already_running("me", 7, "host", 3);
    assert!(t.contains("7") && t.contains("host") && t.contains("me"));
}

#[test]
fn usage_is_shown_in_a_table() {
    assert_eq!(fmt_time(59).trim(), "00:59");
    assert_eq!(fmt_time(61).trim(), "01:01");
    assert_eq!(fmt_time(3_661).trim(), "1:01:01");
    let row = UsageRow {
        worker: "builder".to_string(),
        input_tokens: 1_500,
        cache_creation_tokens: 0,
        cache_read_tokens: 0,
        output_tokens: 20,
        duration_secs: 61,
        calls: 2,
        light_calls: 0,
        full_calls: 2,
        cli: "cursor".to_string(),
        updated_at: now(),
    };
    let u = UsageResponse {
        workers: vec![row],
        total_input_tokens: 1_500,
        total_cache_creation_tokens: 0,
        total_cache_read_tokens: 0,
        total_output_tokens: 20,
        total_duration_secs: 61,
        total_calls: 2,
        total_light_calls: 0,
        total_full_calls: 2,
    };
    let text = usage(&u, &vec![Some(4)], &None);
    assert!(text.contains("builder"));
    let costs = Costs { rows: names(&["$1.25"]), total: "$1.25".to_string() };
    assert!(usage(&u, &vec![Some(4)], &Some(costs)).contains("$1.25"));
    let none = UsageResponse { workers: vec![], ..u };
    assert!(usage(&none, &vec![], &None).contains("No usage data yet"));
}
