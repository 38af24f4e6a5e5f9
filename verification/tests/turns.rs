//! A worker's turn from the queue to the messages that leave it.
use collab::client::Todo;
use collab::clock::{parse_time, Timestamp};
use collab::worker::batch::{
    boot_message, nudge_after_call, offline_messages, on_arrival, should_process,
    status_after_call, tier_of_batch, working_status, Arrival, Batch, BatchState, Step,
    AUTO_KICK_MARKER, MAX_SELF_KICKS,
};
use collab::worker::command::{
    cli_name, command_for, command_from_words, default_template, environment, is_env_assignment,
    is_reserved_variable, CommandError,
};
use collab::worker::events::{
    after_heartbeat, get_role, heartbeat_role, next_backoff, take_events, MAX_BACKOFF_SECS,
};
use collab::worker::output::{
    debug_path, envelope_from, failure_detail, json_candidates, token_counts, unwrap_envelope,
    CollabOutput, DelegateTask, DirectMessage,
};
use collab::worker::prompt::{build_prompt, offload_path, OFFLOAD_BYTES};
use collab::worker::tier::{
    classify_tier, distinct_others, handle_harness_tier, is_ping, is_pure_ack, ping_reply,
    tier_from, HarnessAnswer, PromptTier, Signs, ACK_MAX_LEN,
};
use collab::worker::turn::{
    enforce_delegation, guard_delegation, plan_fallback, plan_handoff, plan_turn, Fallback,
};
use collab::worker::{Message, WorkerHarness, WorkerState, DEFAULT_CLI_TIMEOUT_SECS};

fn now() -> Timestamp {
    parse_time("2026-04-17T12:00:00Z").unwrap()
}

fn from(sender: &str, content: &str) -> Message {
    Message {
        sender: sender.to_string(),
        content: content.to_string(),
        hash: format!("hash-{}", content.len()),
        timestamp: now(),
        recipient: "me".to_string(),
    }
}

fn empty() -> CollabOutput {
    CollabOutput {
        response: None,
        delegate: vec![],
        state_update: WorkerState::default(),
        completed_tasks: vec![],
        messages: vec![],
        wants_to_continue: false,
    }
}

fn names(v: &[&str]) -> Vec<String> {
    v.iter().map(|s| s.to_string()).collect()
}

fn harness(template: Option<&str>) -> WorkerHarness {
    WorkerHarness::new(
        "me".to_string(),
        "/w".to_string(),
        "haiku".to_string(),
        template.map(str::to_string),
        "cursor".to_string(),
        true,
        500,
        Some("pm".to_string()),
        vec![],
        vec![("pm".to_string(), "plans".to_string())],
        &None,
    )
}

// ── Commands ────────────────────────────────────────────────────────────────
#[test]
fn the_default_template_calls_the_configured_tool() {
    let h = harness(None);
    assert_eq!(h.cli_template, "cursor -p {prompt} --model {model} --allowedTools Bash,Read,Write,Edit");
    assert_eq!(h.cli_timeout_secs, DEFAULT_CLI_TIMEOUT_SECS);
    let c = h.command("say \"hi\" $HOME").ok().unwrap();
    assert!(c.enveloped);
    assert_eq!(c.argv[0], "cursor");
    assert_eq!(c.argv[2], "say \"hi\" $HOME", "the prompt stays one argument");
    assert_eq!(c.argv[4], "haiku");
    assert_eq!(c.argv[c.argv.len() - 2..], names(&["--output-format", "json"]));
}

#[test]
fn without_a_tool_the_template_asks_for_one() {
    let t = default_template("");
    assert!(t.contains("{agent}"));
    let e = command_for(&t, "p", "m", "/w", "").err().unwrap();
    assert_eq!(e, CommandError::AgentPlaceholder);
    assert!(e.message(&t, "").contains("replace {agent} with your CLI tool"));
    assert!(e.message(&t, "tool").contains("\n  tool -p {prompt}"));
}

#[test]
fn each_command_error_has_its_input() {
    let err = |t: &str, model: &str| command_for(t, "p", model, "/w", "tool").err().unwrap();
    assert_eq!(err("x {model}", ""), CommandError::NoModel);
    assert_eq!(err("{agent} {prompt}", "m"), CommandError::AgentPlaceholder);
    assert_eq!(err("x 'open", "m"), CommandError::BadQuoting);
    assert_eq!(err("", "m"), CommandError::Empty);
    assert_eq!(err("A=1 B=2", "m"), CommandError::NoCommand);
    assert!(CommandError::BadQuoting.message("x 'open", "tool").contains("x 'open"));
}

#[test]
fn other_tools_get_no_envelope() {
    let c = command_from_words("ollama run", Some(names(&["ollama", "run", "{workdir}"])), "p", "m", "/w", "tool")
        .ok()
        .unwrap();
    assert!(!c.enveloped);
    assert_eq!(c.argv, names(&["ollama", "run", "/w"]));
}

#[test]
fn spawn_cli_applies_env_prefix() {
    let c = command_for("MY_TEST_VAR=hello-from-env /bin/script {prompt}", "go", "m", "/w", "tool").ok().unwrap();
    assert_eq!(c.env, vec![("MY_TEST_VAR".to_string(), "hello-from-env".to_string())]);
    assert_eq!(c.argv, names(&["/bin/script", "go"]));
}

#[test]
fn spawn_cli_strips_collab_env_vars() {
    for v in ["COLLAB_INSTANCE", "COLLAB_SERVER", "COLLAB_TOKEN", "COLLAB_ADMIN_TOKEN"] {
        assert!(is_reserved_variable(v));
    }
    assert!(!is_reserved_variable("PATH") && !is_reserved_variable("COLLABORATE"));
    let template = "COLLAB_INSTANCE=a A=1 COLLAB_SERVER=b COLLAB_ADMIN_TOKEN=c /bin/script {prompt}";
    let c = command_for(template, "go", "m", "/w", "tool").ok().unwrap();
    let pair = |k: &str, v: &str| (k.to_string(), v.to_string());
    assert_eq!(c.env, vec![pair("A", "1")]);
    assert_eq!(c.argv, names(&["/bin/script", "go"]));
    let inherited = vec![pair("PATH", "/bin"), pair("COLLAB_TOKEN", "t"), pair("A", "0")];
    assert_eq!(
        environment(&inherited, &c),
        vec![pair("PATH", "/bin"), pair("A", "0"), pair("A", "1")]
    );
}

#[test]
fn notices_of_tasks_reach_the_tool() {
    let notice = collab::server::todos::NOTICE;
    assert!(!is_ping(notice) && !is_pure_ack(notice));
}

#[test]
fn assignments_need_a_name() {
    assert!(is_env_assignment("_A1=x") && is_env_assignment("A="));
    assert!(!is_env_assignment("=x") && !is_env_assignment("1A=x") && !is_env_assignment("A"));
    assert_eq!(cli_name("cursor -p x"), "cursor");
    assert_eq!(cli_name("  "), "unknown");
}

// ── Answers of the tool ─────────────────────────────────────────────────────
#[test]
fn objects_are_candidates() {
    let fenced = json_candidates("```json\n{}\n```");
    assert_eq!((fenced.len(), fenced[0].first, fenced[0].last), (1, 8, 9));
    assert_eq!(fenced[0].text, "{}");
    let c = json_candidates("text {\"a\": {\"b\": 1}} more {");
    let texts: Vec<&str> = c.iter().map(|x| x.text.as_str()).collect();
    assert_eq!(texts, vec!["{\"a\": {\"b\": 1}}", "{\"b\": 1}"]);
}

#[test]
fn envelopes_are_unwrapped() {
    let raw = "{\"result\":\"hi\",\"usage\":{\"input_tokens\":10,\"cache_creation_input_tokens\":2,\"cache_read_input_tokens\":3,\"output_tokens\":4}}";
    let e = unwrap_envelope(raw, true);
    assert_eq!(e.stdout, "hi");
    assert_eq!((e.input_tokens, e.cache_creation_tokens, e.cache_read_tokens, e.output_tokens), (10, 2, 3, 4));
    let t = token_counts(true, &e, "prompt");
    assert_eq!((t.input, t.cache_creation, t.cache_read, t.output), (10, 2, 3, 4));
    assert_eq!(unwrap_envelope(raw, false).stdout, raw);
    assert_eq!(unwrap_envelope("not json", true).stdout, "not json");
    assert_eq!(envelope_from("raw", true, None, None, None, None, None).input_tokens, 0);
}

#[test]
fn tokens_are_estimated_where_the_tool_does_not_count() {
    let e = unwrap_envelope("12345678", false);
    let t = token_counts(false, &e, "1234567890123456");
    assert_eq!((t.input, t.output), (4, 2));
}

#[test]
fn failures_point_to_the_dump() {
    assert_eq!(debug_path("me"), "/tmp/collab-debug-me.txt");
    assert_eq!(failure_detail("out", "err", "me"), "err");
    assert_eq!(failure_detail("out", " ", "me"), "out");
    let d = failure_detail("", "\n", "me");
    assert!(d.contains("/tmp/collab-debug-me.txt"), "got: {}", d);
}

// ── Tiers ───────────────────────────────────────────────────────────────────
#[test]
fn pings_and_acks_are_recognised() {
    assert!(is_ping("ping") && is_ping("Status") && !is_ping("ping me later please"));
    assert!(is_pure_ack("Acknowledged \u{2014} standing by"));
    assert!(!is_pure_ack(&format!("Acknowledged {}", "x".repeat(ACK_MAX_LEN))));
    assert!(!is_pure_ack("Fixed the auth redirect issue"));
}

#[test]
fn only_pings_and_acks_stay_in_the_harness() {
    assert_eq!(classify_tier(&vec![from("pm", "ping")], "me"), PromptTier::Harness);
    assert_eq!(classify_tier(&vec![from("pm", "Acknowledged")], "me"), PromptTier::Harness);
    assert_eq!(classify_tier(&vec![from("pm", "build it")], "me"), PromptTier::Full);
    let signs = vec![Signs { ping: false, ack: false }];
    assert_eq!(tier_from(&vec![from("pm", "x")], &signs, "me"), PromptTier::Full);
    assert_eq!(PromptTier::Full.label(), "full");
}

#[test]
fn the_harness_answers_pings_itself() {
    let state = WorkerState { status: Some("building".to_string()), ..WorkerState::default() };
    assert!(ping_reply(&state).contains("building"));
    match handle_harness_tier(&vec![from("pm", "ping"), from("pm", "ping")], "me", &state) {
        HarnessAnswer::Status(out) => {
            assert_eq!(out.len(), 1);
            assert_eq!(out[0].to, "pm");
        }
        HarnessAnswer::Swallowed(_) => panic!("swallowed"),
    }
    assert!(matches!(
        handle_harness_tier(&vec![from("pm", "Acknowledged")], "me", &state),
        HarnessAnswer::Swallowed(_)
    ));
    assert_eq!(distinct_others(&vec![from("a", ""), from("me", ""), from("a", ""), from("b", "")], "me"), names(&["a", "b"]));
}

// ── Plans ───────────────────────────────────────────────────────────────────
#[test]
fn spawn_cli_handles_valid_json_response() {
    let output = CollabOutput { response: Some("hello".to_string()), ..empty() };
    let p = plan_turn(&output, &vec![from("human", "hi")], "me", &vec![]);
    assert_eq!(p.replies.len(), 1);
    assert_eq!((p.replies[0].to.as_str(), p.replies[0].text.as_str()), ("human", "hello"));
    assert!(p.todos.is_empty() && p.direct.is_empty());
}

#[test]
fn spawn_cli_dedupes_response_to_delegate_target() {
    let output = CollabOutput {
        response: Some("got it".to_string()),
        delegate: vec![DelegateTask { to: "@human".to_string(), task: "do the thing".to_string() }],
        ..empty()
    };
    let p = plan_turn(&output, &vec![from("human", "please")], "me", &vec![]);
    assert!(p.replies.iter().all(|r| r.to != "human"));
    assert_eq!(p.todos.len(), 1);
    assert_eq!((p.todos[0].to.as_str(), p.todos[0].text.as_str()), ("human", "do the thing"));
}

#[test]
fn unknown_teammates_get_no_tasks() {
    let output = CollabOutput {
        delegate: vec![DelegateTask { to: "@ghost".to_string(), task: "boo".to_string() }],
        messages: vec![DirectMessage { to: "pm".to_string(), text: "fyi".to_string() }],
        completed_tasks: names(&["abc"]),
        ..empty()
    };
    let p = plan_turn(&output, &vec![from("pm", "go")], "me", &names(&["pm"]));
    assert!(p.todos.is_empty());
    assert_eq!(p.rejected.len(), 1);
    assert_eq!(p.direct.len(), 1);
    assert_eq!(p.completions, names(&["abc"]));
}

#[test]
fn finished_work_is_handed_on() {
    let output = CollabOutput {
        response: Some("done with it".to_string()),
        completed_tasks: names(&["abc"]),
        ..empty()
    };
    let p = plan_turn(&output, &vec![from("qa", "go")], "me", &names(&["pm", "qa"]));
    let handed = plan_handoff(&output, &p, "me", &Some("pm".to_string()), 1).unwrap();
    assert_eq!(handed.to, "pm");
    assert!(plan_handoff(&output, &p, "me", &None, 1).is_none());
    assert!(plan_handoff(&output, &p, "me", &Some("pm".to_string()), 0).is_none());
}

#[test]
fn spawn_cli_persists_debug_on_json_parse_fail() {
    let messages = vec![from("human", "hi")];
    match plan_fallback("{\"response\": \"broken because no closing", &messages, "me") {
        Fallback::Broken(_) => {}
        _ => panic!("something was sent"),
    }
    match plan_fallback("Just plain text", &messages, "me") {
        Fallback::Plain(out) => {
            assert_eq!(out[0].to, "human");
            assert_eq!(out[0].text, "Just plain text");
        }
        _ => panic!("nothing was sent"),
    }
    assert!(matches!(plan_fallback("  ", &messages, "me"), Fallback::Nothing));
}

#[test]
fn claims_to_delegate_become_tasks_or_are_taken_back() {
    let claim = |text: &str| CollabOutput { response: Some(text.to_string()), ..empty() };
    let named = guard_delegation(claim("I've delegated the map fix to @pm"), "me", &names(&["pm"]));
    assert_eq!(named.delegate.len(), 1);
    assert_eq!(named.delegate[0].to, "pm");
    let unnamed = enforce_delegation(claim("I've delegated it"), "me", &names(&["pm", "qa"]), true, &vec![]);
    assert!(unnamed.delegate.is_empty());
    assert!(unnamed.response.unwrap().contains("claimed to delegate"));
    let honest = guard_delegation(claim("Fixed it"), "me", &names(&["pm"]));
    assert!(honest.delegate.is_empty());
    assert_eq!(honest.response.as_deref(), Some("Fixed it"));
}

// ── Batches ─────────────────────────────────────────────────────────────────
#[test]
fn a_batch_waits_for_its_window() {
    assert!(!should_process(0, Some(10_000), 500));
    assert!(!should_process(1, Some(499), 500));
    assert!(should_process(1, Some(500), 500));
    assert_eq!(on_arrival("hello", 0), Arrival::Queue { starts_window: true });
    assert_eq!(on_arrival("hello", 1), Arrival::Queue { starts_window: false });
    assert_eq!(on_arrival("ping", 0), Arrival::Answer);
}

#[test]
fn self_kicks_are_limited() {
    let mut s = BatchState::new();
    for _ in 0..MAX_SELF_KICKS {
        assert!(matches!(s.take_up(vec![from("me", "go on")], "me"), Step::Run(_)));
    }
    assert!(matches!(s.take_up(vec![from("me", "go on")], "me"), Step::Paused));
    match s.take_up(vec![from("pm", "new work")], "me") {
        Step::Run(b) => assert!(!b.self_kick),
        Step::Paused => panic!("paused"),
    }
    assert_eq!(s.self_kicks, 0);
}

#[test]
fn a_batch_of_its_own_is_worked_on_in_full() {
    let own = Batch { messages: vec![from("me", "Acknowledged")], self_kick: true, auto_kicks: 0 };
    assert_eq!(tier_of_batch(&own, "me"), PromptTier::Full);
    let other = Batch { messages: vec![from("pm", "ping")], self_kick: false, auto_kicks: 0 };
    assert_eq!(tier_of_batch(&other, "me"), PromptTier::Harness);
}

#[test]
fn pending_tasks_bring_a_nudge() {
    let m = nudge_after_call(false, 0, Some(2), true, "me", now()).unwrap();
    assert!(m.content.starts_with(AUTO_KICK_MARKER));
    assert_eq!((m.sender.as_str(), m.recipient.as_str()), ("system", "me"));
    assert!(nudge_after_call(false, 0, Some(0), true, "me", now()).is_none());
    assert!(nudge_after_call(false, 3, Some(2), true, "me", now()).is_none());
    assert!(nudge_after_call(false, 0, Some(2), false, "me", now()).is_none());
    assert!(nudge_after_call(false, 0, None, true, "me", now()).is_none());
}

#[test]
fn a_session_starts_with_one_message() {
    assert!(boot_message(true, "me", now()).is_none());
    assert_eq!(boot_message(false, "me", now()).unwrap().sender, "system");
    let pending = offline_messages(vec![from("pm", "a"), from("me", "b")], "me");
    assert_eq!(pending.len(), 1);
    assert_eq!(pending[0].content, "a");
}

#[test]
fn statuses_name_what_is_worked_on() {
    assert!(working_status(&vec![from("pm", "build it")], "me").contains("pm"));
    assert!(status_after_call(&Some("idle".to_string()), "dev").contains("idle"));
    assert!(!status_after_call(&None, "dev").is_empty());
}

// ── Events ──────────────────────────────────────────────────────────────────
#[test]
fn events_are_cut_out_of_the_stream() {
    let (events, rest) = take_events("data: {\"a\":1}\n\ndata: {\"b\"");
    assert_eq!(events, names(&["{\"a\":1}"]));
    assert_eq!(rest, "data: {\"b\"");
}

#[test]
fn waiting_doubles_up_to_a_limit() {
    assert_eq!(next_backoff(1), 2);
    assert_eq!(next_backoff(20), MAX_BACKOFF_SECS);
    assert_eq!(next_backoff(u64::MAX), MAX_BACKOFF_SECS);
    assert_eq!(after_heartbeat(0, true), (0, false));
    assert_eq!(after_heartbeat(0, false), (1, true));
}

#[test]
fn roles_come_from_the_agent_file() {
    let md = Some("# x\n\nYour role: Builds maps**\n".to_string());
    assert_eq!(get_role(&md, &None), "Builds maps");
    assert_eq!(get_role(&None, &md), "Builds maps");
    assert!(!get_role(&None, &None).is_empty());
    assert_eq!(heartbeat_role("idle", &md, &None), "Builds maps");
    assert_eq!(heartbeat_role("idle", &None, &None), "idle");
}

// ── Prompts ─────────────────────────────────────────────────────────────────
#[test]
fn prompts_hold_role_tasks_and_messages() {
    let todo = Todo {
        id: "i".to_string(),
        hash: "0123456789".to_string(),
        instance: "me".to_string(),
        assigned_by: "pm".to_string(),
        description: "draw the map".to_string(),
        created_at: now(),
        completed_at: None,
    };
    let p = build_prompt(&harness(None), "Builds maps", "{}", &Some(vec![todo]), &None, &vec![from("pm", "build it")]);
    assert!(p.contains("Builds maps"));
    assert!(p.contains("draw the map"));
    assert!(p.contains("build it"));
    assert!(p.contains("CRITICAL RULES"));
    assert_eq!(harness(None).known_teammates(), names(&["pm"]));
    assert_eq!(harness(None).with_cli_timeout_secs(1).cli_timeout_secs, 1);
}

#[test]
fn long_messages_are_put_into_files() {
    assert!(offload_path(&from("pm", "short")).is_none());
    let long = from("pm", &"x".repeat(OFFLOAD_BYTES + 1));
    assert!(offload_path(&long).unwrap().contains(&long.hash[..4]));
}
