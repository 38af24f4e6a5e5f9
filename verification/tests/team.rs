//! Team manifests: what is accepted, what is refused and how older fields are read.
use collab::clock::{parse_time, Timestamp};
use collab::init::{ProjectConfig, WorkerConfig};
use collab::team::{
    expand_tilde, yaml_is_team_config, TeamConfig, TeamError, TeamManagedMarker, TeamWorker,
};
use collab::team_cli::{
    adopt, adopted_text, create, find_team, list, lookup_failure, minted_text, plan_adoption,
    read_legacy, rotate_token, show, show_members, CreateReply, TeamSummary,
};
use collab::server::teams::{CreateTeamResponse, MintTokenResponse};
use collab::team_init::{plan, render_agent_md, resolve_codebase_path, Codebase, Site};
use serde_yaml::Value;

// ── Reading YAML into the library's types ───────────────────────────────────
fn text(v: &Value, key: &str) -> Option<String> {
    v.get(key).and_then(Value::as_str).map(str::to_string)
}

fn texts(v: &Value, key: &str) -> Vec<String> {
    match v.get(key).and_then(Value::as_sequence) {
        Some(items) => items.iter().map(|i| i.as_str().unwrap().to_string()).collect(),
        None => Vec::new(),
    }
}

fn worker(v: &Value) -> Result<TeamWorker, String> {
    Ok(TeamWorker {
        name: text(v, "name").ok_or("missing field `name`")?,
        role: text(v, "role").ok_or("missing field `role`")?,
        codebase_path: text(v, "codebase_path").ok_or("missing field `codebase_path`")?,
        tasks: text(v, "tasks"),
        avatar: text(v, "avatar"),
        color: v.get("color").and_then(Value::as_u64).map(|c| c as u8),
        model: text(v, "model"),
        cli_template: text(v, "cli_template"),
        reports_to: text(v, "reports_to"),
        works_with: texts(v, "works_with"),
        hands_off_to: texts(v, "hands_off_to"),
    })
}

fn read(yaml: &str) -> Result<TeamConfig, String> {
    let v: Value = serde_yaml::from_str(yaml).map_err(|e| e.to_string())?;
    let mut workers = Vec::new();
    for w in v.get("workers").and_then(Value::as_sequence).ok_or("missing field `workers`")? {
        workers.push(worker(w)?);
    }
    Ok(TeamConfig {
        team: text(&v, "team").ok_or("missing field `team`")?,
        server: text(&v, "server").unwrap_or("http://localhost:8000".to_string()),
        shared_data_dir: text(&v, "shared_data_dir"),
        cli_template: text(&v, "cli_template"),
        model: text(&v, "model"),
        workers,
    })
}

fn accepted(yaml: &str) -> TeamConfig {
    match TeamConfig::from_yaml(read(yaml)) {
        Ok(cfg) => cfg,
        Err(e) => panic!("refused: {}", e.message()),
    }
}

fn refused(yaml: &str) -> String {
    match TeamConfig::from_yaml(read(yaml)) {
        Ok(_) => panic!("accepted"),
        Err(e) => e.message(),
    }
}

#[test]
fn detects_team_yaml_by_leading_key() {
    let team = "team: blender\nworkers: []\n";
    let workers = "workers:\n  - name: foo\n";
    assert!(yaml_is_team_config(team));
    assert!(!yaml_is_team_config(workers));
    let team_with_header = "# my team\n\nteam: blender\nworkers: []\n";
    assert!(yaml_is_team_config(team_with_header));
}

#[test]
fn parses_minimal_team_yaml() {
    let yaml = r#"
team: blender
workers:
  - name: rigger
    role: "Rigs characters"
    codebase_path: /tmp/rig
  - name: shader
    role: "Writes shaders"
    codebase_path: /tmp/shade
"#;
    let cfg = accepted(yaml);
    assert_eq!(cfg.team, "blender");
    assert_eq!(cfg.workers.len(), 2);
}

#[test]
fn rejects_duplicate_worker_names() {
    let yaml = r#"
team: t
workers:
  - name: dup
    role: r
    codebase_path: /a
  - name: dup
    role: r
    codebase_path: /b
"#;
    let err = refused(yaml);
    assert!(err.contains("duplicate worker name"), "got: {}", err);
}

#[test]
fn allows_multiple_workers_per_codebase() {
    let yaml = r#"
team: t
workers:
  - name: a
    role: r
    codebase_path: /same
  - name: b
    role: r
    codebase_path: /same
"#;
    let cfg = accepted(yaml);
    assert_eq!(cfg.workers.len(), 2);
}

#[test]
fn rejects_unknown_hands_off_to_target() {
    let yaml = r#"
team: t
workers:
  - name: a
    role: r
    codebase_path: /a
    hands_off_to: [ghost]
"#;
    let err = refused(yaml);
    assert!(err.contains("unknown teammate"), "got: {}", err);
}

#[test]
fn rejects_self_loop_hands_off_to() {
    let yaml = r#"
team: t
workers:
  - name: a
    role: r
    codebase_path: /a
    hands_off_to: [a]
"#;
    let err = refused(yaml);
    assert!(
        err.contains("itself") || err.contains("self-loop"),
        "got: {}",
        err
    );
}

#[test]
fn rejects_invalid_team_name() {
    let yaml = r#"
team: "bad name with spaces"
workers:
  - name: a
    role: r
    codebase_path: /a
"#;
    let err = refused(yaml);
    assert!(err.contains("team name"), "got: {}", err);
}

#[test]
fn rejects_empty_workers() {
    let yaml = r#"
team: t
workers: []
"#;
    let err = refused(yaml);
    assert!(err.contains("no workers"), "got: {}", err);
}


#[test]
fn parses_reports_to_and_works_with() {
    let yaml = r#"
team: t
workers:
  - name: a
    role: r
    codebase_path: /a
    reports_to: b
    works_with: [c]
  - name: b
    role: r
    codebase_path: /b
  - name: c
    role: r
    codebase_path: /c
"#;
    let cfg = accepted(yaml);
    let a = cfg.workers.iter().find(|w| w.name == "a").unwrap();
    assert_eq!(a.reports_to.as_deref(), Some("b"));
    assert_eq!(a.works_with, vec!["c".to_string()]);
    assert!(a.hands_off_to.is_empty());
}

#[test]
fn migrates_hands_off_to_singleton_to_reports_to() {
    let yaml = r#"
team: t
workers:
  - name: a
    role: r
    codebase_path: /a
    hands_off_to: [b]
  - name: b
    role: r
    codebase_path: /b
"#;
    let cfg = accepted(yaml);
    let a = cfg.workers.iter().find(|w| w.name == "a").unwrap();
    assert_eq!(a.reports_to.as_deref(), Some("b"));
    assert!(a.works_with.is_empty());
}

#[test]
fn migrates_hands_off_to_multiple_splits_across_fields() {
    let yaml = r#"
team: t
workers:
  - name: a
    role: r
    codebase_path: /a
    hands_off_to: [b, c, d]
  - name: b
    role: r
    codebase_path: /b
  - name: c
    role: r
    codebase_path: /c
  - name: d
    role: r
    codebase_path: /d
"#;
    let cfg = accepted(yaml);
    let a = cfg.workers.iter().find(|w| w.name == "a").unwrap();
    assert_eq!(a.reports_to.as_deref(), Some("b"));
    assert_eq!(a.works_with, vec!["c".to_string(), "d".to_string()]);
}

#[test]
fn explicit_new_fields_skip_legacy_migration() {
    let yaml = r#"
team: t
workers:
  - name: a
    role: r
    codebase_path: /a
    reports_to: b
    hands_off_to: [c]
  - name: b
    role: r
    codebase_path: /b
  - name: c
    role: r
    codebase_path: /c
"#;
    let cfg = accepted(yaml);
    let a = cfg.workers.iter().find(|w| w.name == "a").unwrap();
    assert_eq!(a.reports_to.as_deref(), Some("b"));
    assert!(a.works_with.is_empty());
    assert_eq!(a.hands_off_to, vec!["c".to_string()]);
}

#[test]
fn rejects_reports_to_self_reference() {
    let yaml = r#"
team: t
workers:
  - name: a
    role: r
    codebase_path: /a
    reports_to: a
"#;
    let err = refused(yaml);
    assert!(err.contains("itself"), "got: {}", err);
}

#[test]
fn rejects_works_with_unknown_teammate() {
    let yaml = r#"
team: t
workers:
  - name: a
    role: r
    codebase_path: /a
    works_with: [ghost]
"#;
    let err = refused(yaml);
    assert!(err.contains("unknown teammate") && err.contains("ghost"), "got: {}", err);
}

#[test]
fn rejects_reports_to_unknown_teammate() {
    let yaml = r#"
team: t
workers:
  - name: a
    role: r
    codebase_path: /a
    reports_to: ghost
"#;
    let err = refused(yaml);
    assert!(err.contains("unknown teammate") && err.contains("ghost"), "got: {}", err);
}

#[test]
fn worker_cli_template_overrides_team_default() {
    let yaml = r#"
team: t
cli_template: "team-default {prompt}"
workers:
  - name: a
    role: r
    codebase_path: /a
    cli_template: "worker-override {prompt}"
  - name: b
    role: r
    codebase_path: /b
"#;
    let cfg = accepted(yaml);
    assert_eq!(
        cfg.resolved_cli_template(&cfg.workers[0]).unwrap(),
        "worker-override {prompt}"
    );
    assert_eq!(
        cfg.resolved_cli_template(&cfg.workers[1]).unwrap(),
        "team-default {prompt}"
    );
}

#[test]
fn tilde_expansion_works() {
    let home = Some("/home/ada".to_string());
    let expanded = expand_tilde("~/foo", &home);
    assert!(expanded.contains("foo"));
    assert!(!expanded.starts_with('~'));
    let as_is = expand_tilde("/absolute/path", &home);
    assert_eq!(as_is, "/absolute/path");
}

// ── Every refusal ───────────────────────────────────────────────────────────
fn error(yaml: &str) -> TeamError {
    TeamConfig::from_yaml(read(yaml)).err().unwrap()
}

#[test]
fn unreadable_yaml_is_reported() {
    assert!(matches!(error("team: [\n"), TeamError::Unreadable(_)));
    let e = TeamConfig::from_yaml(Err("line 1".to_string())).err().unwrap();
    assert!(e.message().contains("line 1"));
}

#[test]
fn each_refusal_has_its_own_reason() {
    let named = |name: &str, rest: &str| {
        format!("team: t\nworkers:\n  - name: {}\n    role: r\n    codebase_path: /a\n{}", name, rest)
    };
    assert!(matches!(error(&named("\"a b\"", "")), TeamError::WorkerName(_)));
    assert!(matches!(error("team: t\nworkers:\n  - name: a\n    role: r\n    codebase_path: \"\"\n"),
        TeamError::NoCodebase(_)));
    assert!(matches!(error(&named("a", "    works_with: [\"no good\"]\n")), TeamError::BadTarget(..)));
    assert!(matches!(error(&named("a", "    works_with: [a]\n")), TeamError::Itself(..)));
    assert!(matches!(error(&named("a", "    works_with: [b]\n")), TeamError::Unknown(..)));
    assert!(matches!(error("team: t\nworkers: []\n"), TeamError::NoWorkers));
    assert!(matches!(error("team: \"\"\nworkers: []\n"), TeamError::TeamName(_)));
}

#[test]
fn reading_an_accepted_manifest_again_changes_nothing() {
    let yaml = "team: t\nworkers:\n  - name: a\n    role: r\n    codebase_path: /a\n    hands_off_to: [b, c]\n  - name: b\n    role: r\n    codebase_path: /b\n  - name: c\n    role: r\n    codebase_path: /c\n";
    let again = TeamConfig::from_yaml(Ok(accepted(yaml))).ok().unwrap();
    assert_eq!(again.workers.len(), 3);
    assert_eq!(again.workers[0].reports_to.as_deref(), Some("b"));
    assert_eq!(again.workers[0].works_with, vec!["c"]);
    assert_eq!(again.workers[0].hands_off_to, vec!["b", "c"]);
}

#[test]
fn older_fields_are_warned_about() {
    let yaml = "team: t\nworkers:\n  - name: a\n    role: r\n    codebase_path: /a\n    hands_off_to: [b, c]\n  - name: b\n    role: r\n    codebase_path: /b\n    hands_off_to: [c]\n  - name: c\n    role: r\n    codebase_path: /c\n";
    let warnings = read(yaml).ok().unwrap().migration_warnings();
    assert_eq!(warnings.len(), 1);
    assert!(warnings[0].contains("`reports_to`"), "got: {}", warnings[0]);
    assert!(accepted(yaml).migration_warnings().is_empty());
}

#[test]
fn a_worker_model_wins_over_the_team_model() {
    let yaml = "team: t\nmodel: team-model\nworkers:\n  - name: a\n    role: r\n    codebase_path: /a\n    model: own\n  - name: b\n    role: r\n    codebase_path: /b\n";
    let cfg = accepted(yaml);
    assert_eq!(cfg.resolved_model(&cfg.workers[0]).as_deref(), Some("own"));
    assert_eq!(cfg.resolved_model(&cfg.workers[1]).as_deref(), Some("team-model"));
}

#[test]
fn a_lone_tilde_is_the_home_directory() {
    let home = Some("/home/ada".to_string());
    assert_eq!(expand_tilde("~", &home), "/home/ada");
    assert_eq!(expand_tilde("~/foo", &home), "/home/ada/foo");
    assert_eq!(expand_tilde("~foo", &home), "~foo");
    assert_eq!(expand_tilde("~/foo", &None), "~/foo");
}

#[test]
fn markers_name_the_team_and_the_time() {
    let m = TeamManagedMarker::new("t", "/x/team.yml", at(0));
    assert_eq!(m.team, "t");
    assert_eq!(m.source, "/x/team.yml");
    assert_eq!(m.generated_at, "2024-03-27T14:30:45+00:00");
    assert_eq!(TeamManagedMarker::path_in("/repo"), "/repo/.collab/team-managed");
}

// ── Writing a team into its codebases ───────────────────────────────────────
fn at(offset: i64) -> Timestamp {
    let t = parse_time("2024-03-27T14:30:45Z").unwrap();
    Timestamp { secs: t.secs + offset, nanos: t.nanos }
}

fn site(dir: &str) -> Site {
    Site { found: Codebase::Dir(dir.to_string()), has_workers_yml: false, marker: None }
}

fn team_yaml(team: &str, workers: &[(&str, &str, &str)]) -> String {
    let mut s = format!("team: {}\nworkers:\n", team);
    for (name, role, path) in workers {
        s.push_str(&format!("  - name: {}\n    role: {}\n    codebase_path: {}\n", name, role, path));
    }
    s
}

#[test]
fn init_writes_agent_md_and_marker_into_each_codebase() {
    let cfg = accepted(&team_yaml("t", &[("a", "role-a", "/w/repo-a"), ("b", "role-b", "/w/repo-b")]));
    let sites = vec![site("/w/repo-a"), site("/w/repo-b")];
    let planned = plan(&cfg, &sites, "/w/team.yml", at(0)).unwrap();
    assert_eq!(planned.len(), 2);
    assert_eq!(planned[0].agent.path, "/w/repo-a/a/AGENT.md");
    assert_eq!(planned[1].agent.path, "/w/repo-b/b/AGENT.md");
    assert_eq!(planned[0].marker.team, "t");
    assert_eq!(planned[1].marker.team, "t");
    let agent_a = &planned[0].agent.contents;
    assert!(agent_a.contains("You are **a**"));
    assert!(agent_a.contains("team **t**"));
    assert!(agent_a.contains("`b`"), "teammate listed");
    assert!(agent_a.contains("managed-by: team=t"), "provenance header present");
}

#[test]
fn init_refuses_when_workers_yml_exists_in_codebase() {
    let cfg = accepted(&team_yaml("t", &[("a", "r", "/w/repo")]));
    let sites = vec![Site { found: Codebase::Dir("/w/repo".to_string()), has_workers_yml: true, marker: None }];
    let err = plan(&cfg, &sites, "/w/team.yml", at(0)).err().unwrap();
    assert!(err.contains("workers.yml"), "got: {}", err);
}

#[test]
fn init_refuses_when_codebase_already_managed_by_different_team() {
    let cfg = accepted(&team_yaml("new-team", &[("a", "r", "/w/repo")]));
    let marker = TeamManagedMarker::new("other-team", "/other/team.yml", at(0));
    let sites = vec![Site {
        found: Codebase::Dir("/w/repo".to_string()),
        has_workers_yml: false,
        marker: Some(marker),
    }];
    let err = plan(&cfg, &sites, "/w/team.yml", at(0)).err().unwrap();
    assert!(err.contains("managed by team 'other-team'"), "got: {}", err);
}

#[test]
fn init_is_idempotent_when_same_team_reinits() {
    let cfg = accepted(&team_yaml("t", &[("a", "r", "/w/repo")]));
    let first = plan(&cfg, &vec![site("/w/repo")], "/w/team.yml", at(0)).unwrap();
    let marker = TeamManagedMarker::new(&first[0].marker.team, "/w/team.yml", at(0));
    let sites = vec![Site {
        found: Codebase::Dir("/w/repo".to_string()),
        has_workers_yml: false,
        marker: Some(marker),
    }];
    let second = plan(&cfg, &sites, "/w/team.yml", at(0)).unwrap();
    assert_eq!(second[0].agent.path, "/w/repo/a/AGENT.md");
    assert_eq!(first[0].agent.contents, second[0].agent.contents);
}

#[test]
fn init_refuses_when_codebase_path_does_not_exist() {
    let cfg = accepted("team: t\nworkers:\n  - name: a\n    role: r\n    codebase_path: /no/such/dir\n");
    let sites = vec![Site {
        found: Codebase::Unreachable("No such file or directory (os error 2)".to_string()),
        has_workers_yml: false,
        marker: None,
    }];
    let err = plan(&cfg, &sites, "/w/team.yml", at(0)).err().unwrap();
    assert!(err.contains("does not exist") || err.contains("isn't accessible"), "got: {}", err);
}

#[test]
fn agent_md_includes_cross_codebase_sibling_paths() {
    let cfg = accepted(&team_yaml(
        "multi",
        &[("alpha", "alpha-role", "/w/a-repo"), ("beta", "beta-role", "/w/b-repo")],
    ));
    let planned = plan(&cfg, &vec![site("/w/a-repo"), site("/w/b-repo")], "/w/team.yml", at(0)).unwrap();
    assert!(planned[0].agent.contents.contains("/w/b-repo"));
}

#[test]
fn a_file_is_no_codebase() {
    assert!(resolve_codebase_path("/w/f", &Codebase::File).is_err());
    assert_eq!(resolve_codebase_path("~/f", &Codebase::Dir("/home/ada/f".to_string())).unwrap(), "/home/ada/f");
}

#[test]
fn agent_files_say_where_they_come_from() {
    let cfg = accepted(&team_yaml("t", &[("a", "r", "/w/repo")]));
    let md = render_agent_md(&cfg, &cfg.workers[0], "/w/team.yml", "today");
    assert!(md.contains("/w/team.yml"));
    assert!(md.contains("_(none)_"), "nobody else in the team");
}

// ── Taking over an older manifest ───────────────────────────────────────────
fn legacy() -> ProjectConfig {
    let person = |name: &str, role: &str, next: Vec<String>| WorkerConfig {
        name: name.to_string(),
        role: role.to_string(),
        tasks: None,
        avatar: None,
        color: None,
        model: None,
        cli_template: None,
        cli_template_light: None,
        reports_to: None,
        works_with: vec![],
        hands_off_to: next,
    };
    ProjectConfig::new(
        "http://localhost:8000".to_string(),
        None,
        None,
        None,
        vec![
            person("coder", "Software engineer", vec![]),
            person("hacker", "Security", vec!["coder".to_string()]),
        ],
    )
}

#[test]
fn adopt_creates_team_yml_from_workers_yml_when_missing() {
    let cfg = adopt(&legacy(), None, "/w/my-project").unwrap();
    assert_eq!(cfg.workers.len(), 2);
    assert!(cfg.workers.iter().all(|w| !w.codebase_path.is_empty()));
    assert_eq!(cfg.workers[0].codebase_path, "/w/my-project");
    let text = adopted_text(&legacy(), "/w/my-project/workers.yml", "/w/team.yml");
    assert!(text.contains("/w/team.yml"));
}

#[test]
fn adopt_refuses_when_worker_name_collides() {
    let existing = accepted("team: t\nworkers:\n  - name: coder\n    role: other role\n    codebase_path: /w/somewhere-else\n");
    let err = adopt(&legacy(), Some(existing), "/w/repo").err().unwrap();
    assert!(err.contains("already has a worker named 'coder'"), "got: {}", err);
}

#[test]
fn adopt_refuses_team_yml_masquerading_as_workers_yml() {
    let contents = "team: t\nworkers:\n  - name: a\n    role: r\n    codebase_path: /a\n";
    let err = read_legacy(contents, "/w/repo/workers.yml", Ok(legacy())).err().unwrap();
    assert!(err.contains("looks like a team.yml"), "got: {}", err);
}

#[test]
fn adoption_keeps_everybody_who_was_there() {
    let existing = accepted("team: t\nworkers:\n  - name: pm\n    role: plans\n    codebase_path: /w/pm\n");
    let cfg = adopt(&legacy(), Some(existing), "/w/repo").unwrap();
    let names: Vec<&str> = cfg.workers.iter().map(|w| w.name.as_str()).collect();
    assert_eq!(names, vec!["pm", "coder", "hacker"]);
    assert_eq!(cfg.team, "t");
}

#[test]
fn adoption_writes_the_instructions_again() {
    let now = parse_time("2026-04-17T12:00:00Z").unwrap();
    let existing = accepted("team: t\nworkers:\n  - name: pm\n    role: plans\n    codebase_path: /w/pm\n");
    let a = plan_adoption(&legacy(), Some(existing), "/w/repo", "/w/team.yml", now).unwrap();
    assert_eq!(a.team.workers.len(), 3);
    let paths: Vec<&str> = a.files.iter().map(|f| f.agent.path.as_str()).collect();
    assert_eq!(paths, vec!["/w/repo/coder/AGENT.md", "/w/repo/hacker/AGENT.md"]);
    assert!(a.files[1].agent.contents.contains("/w/team.yml"));
    assert!(a.files[1].agent.contents.contains("plans"));
    assert!(a.files.iter().all(|f| f.codebase == "/w/repo" && f.marker.team == "t"));
    let taken = accepted("team: t\nworkers:\n  - name: coder\n    role: r\n    codebase_path: /w/x\n");
    assert!(plan_adoption(&legacy(), Some(taken), "/w/repo", "/w/team.yml", now).is_err());
}

#[test]
fn adopted_workers_keep_whom_they_report_to() {
    let mut p = legacy();
    p.workers[0].reports_to = Some("hacker".to_string());
    p.workers[0].works_with = vec!["hacker".to_string()];
    let cfg = adopt(&p, None, "/w/repo").unwrap();
    assert_eq!(cfg.workers[0].reports_to.as_deref(), Some("hacker"));
    assert_eq!(cfg.workers[0].works_with, vec!["hacker"]);
}

// ── Teams on the server ─────────────────────────────────────────────────────
fn summary(name: &str, id: &str, tokens: i64) -> TeamSummary {
    TeamSummary {
        team_id: id.to_string(),
        name: name.to_string(),
        created_at: "2026-04-17T12:00:00Z".to_string(),
        active_token_count: tokens,
    }
}

#[test]
fn a_new_team_shows_its_token_once() {
    let reply = CreateReply::Created(CreateTeamResponse {
        team_id: "id-1".to_string(),
        name: "blender".to_string(),
        token: "tm_abc".to_string(),
    });
    let text = create(&reply, "blender").unwrap();
    assert!(text.contains("tm_abc") && text.contains("id-1"));
}

#[test]
fn refused_teams_are_explained() {
    let say = |code: u16| create(&CreateReply::Other(code, "HTTP".to_string()), "blender").err().unwrap();
    assert!(say(401).contains("Unauthorized"));
    assert!(say(403).contains("Forbidden"));
    assert!(say(409).contains("blender"));
    assert!(say(500).contains("HTTP"));
}

#[test]
fn teams_are_listed_and_found() {
    let teams = vec![summary("blender", "id-1", 2), summary("maya", "id-2", 0)];
    let text = list(&teams, "http://s");
    assert!(text.contains("blender") && text.contains("maya"));
    assert_eq!(find_team(&teams, "maya", "http://s").unwrap(), 1);
    assert!(find_team(&teams, "nuke", "http://s").err().unwrap().contains("nuke"));
    assert!(show(&teams[0]).contains("id-1"));
}

#[test]
fn members_are_shown_for_their_own_team_only() {
    let cfg = accepted(&team_yaml("t", &[("a", "role-a", "/w/repo-a")]));
    assert!(show_members(&cfg, "t", "/w/team.yml").unwrap().contains("role-a"));
    assert!(show_members(&cfg, "other", "/w/team.yml").is_err());
}

#[test]
fn a_team_token_is_told_about_the_admin_token() {
    let team = lookup_failure(403, "403 Forbidden", &Some("tm_abc".to_string()));
    assert!(team.contains("team token"), "got: {}", team);
    let none = lookup_failure(403, "403 Forbidden", &None);
    assert!(none.contains("COLLAB_ADMIN_TOKEN"), "got: {}", none);
    assert!(lookup_failure(500, "500 Internal", &None).contains("500"));
}

#[test]
fn rotated_tokens_are_shown() {
    let minted = MintTokenResponse { token: "tm_new".to_string(), token_prefix: "0123456789ab".to_string() };
    let text = rotate_token("blender", "id-1", &minted);
    assert!(text.contains("tm_new"));
    assert!(text.contains("id-1"));
    assert!(minted_text("blender", Ok("tm_new".to_string())).contains("tm_new"));
    assert!(minted_text("blender", Err("refused".to_string())).contains("refused"));
}
