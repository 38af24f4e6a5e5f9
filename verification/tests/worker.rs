//! A worker's decisions: reading the tool's answer, keeping state, delegation and commands.
use collab::worker::command::split_env_prefix;
use collab::worker::output::{
    json_candidates, parse_collab_output, CollabOutput, DelegateTask, DirectMessage,
    reading_of,
};
use collab::worker::tier::{ACK_MAX_LEN, ACK_START_PATTERN};
use collab::worker::{
    is_allowed_delegate_target, merge_state, truncate_at_char_boundary, WorkerState,
};
use regex::Regex;
use serde_json::Value;

// ── Reading JSON into the library's types ───────────────────────────────────
fn optional_text(v: &Value, key: &str) -> Option<Option<String>> {
    match v.get(key) {
        None | Some(Value::Null) => Some(None),
        Some(Value::String(t)) => Some(Some(t.clone())),
        Some(_) => None,
    }
}

fn text_list(v: &Value, key: &str) -> Option<Vec<String>> {
    match v.get(key) {
        None | Some(Value::Null) => Some(Vec::new()),
        Some(Value::Array(items)) => items.iter().map(|i| i.as_str().map(str::to_string)).collect(),
        Some(_) => None,
    }
}

fn pair_list(v: &Value, key: &str, second: &str) -> Option<Vec<(String, String)>> {
    match v.get(key) {
        None | Some(Value::Null) => Some(Vec::new()),
        Some(Value::Array(items)) => items
            .iter()
            .map(|i| {
                Some((
                    i.get("to")?.as_str()?.to_string(),
                    i.get(second)?.as_str()?.to_string(),
                ))
            })
            .collect(),
        Some(_) => None,
    }
}

fn state_of(v: &Value) -> Option<WorkerState> {
    v.as_object()?;
    Some(WorkerState {
        last_task: optional_text(v, "last_task")?,
        pending: optional_text(v, "pending")?,
        files_touched: text_list(v, "files_touched")?,
        status: optional_text(v, "status")?,
    })
}

fn state(json: &str) -> Option<WorkerState> {
    state_of(&serde_json::from_str(json).ok()?)
}

fn decode(json: &str) -> Option<CollabOutput> {
    let v: Value = serde_json::from_str(json).ok()?;
    v.as_object()?;
    Some(CollabOutput {
        response: optional_text(&v, "response")?,
        delegate: pair_list(&v, "delegate", "task")?
            .into_iter()
            .map(|(to, task)| DelegateTask { to, task })
            .collect(),
        state_update: match v.get("state_update") {
            None => WorkerState::default(),
            Some(u) => state_of(u)?,
        },
        completed_tasks: text_list(&v, "completed_tasks")?,
        messages: pair_list(&v, "messages", "text")?
            .into_iter()
            .map(|(to, text)| DirectMessage { to, text })
            .collect(),
        wants_to_continue: match v.get("continue") {
            None => false,
            Some(c) => c.as_bool()?,
        },
    })
}

fn parse(output: &str) -> Option<CollabOutput> {
    let candidates = json_candidates(output);
    let readings = candidates.iter().map(|c| reading_of(&c.text, decode(&c.text))).collect();
    parse_collab_output(&candidates, readings)
}

#[test]
fn truncate_at_char_boundary_never_splits_multibyte() {
    let mut s = String::new();
    while s.len() < 299 { s.push('a'); }
    s.push('×'); // 2 bytes — now at byte 299..=300
    while s.len() < 400 { s.push('b'); }
    let out = truncate_at_char_boundary(&s, 300);
    assert!(out.ends_with('…'));
    assert!(out.starts_with(&"a".repeat(299)));
    assert!(!out.contains('×'), "partial × should not appear");
}

#[test]
fn truncate_at_char_boundary_passes_through_short_input() {
    assert_eq!(truncate_at_char_boundary("hi", 300), "hi");
}

#[test]
fn truncate_at_char_boundary_handles_ascii() {
    let s = "a".repeat(500);
    let out = truncate_at_char_boundary(&s, 100);
    assert_eq!(out.len(), 100 + "…".len());
    assert!(out.ends_with('…'));
}

#[test]
fn allowed_delegate_accepts_self_broadcast_human_and_teammates() {
    let teammates: Vec<String> = s(&["webdev", "architect"]);
    assert!(is_allowed_delegate_target("d4dataminer", "d4dataminer", &teammates), "self");
    assert!(is_allowed_delegate_target("all", "d4dataminer", &teammates), "broadcast");
    assert!(is_allowed_delegate_target("human", "d4dataminer", &teammates), "human");
    assert!(is_allowed_delegate_target("webdev", "d4dataminer", &teammates), "known teammate");
    assert!(!is_allowed_delegate_target("ghost", "d4dataminer", &teammates), "unknown rejected");
}

#[test]
fn allowed_delegate_rejects_unknown_when_teammates_empty() {
    let empty: Vec<String> = Vec::new();
    assert!(!is_allowed_delegate_target("webdev", "d4dataminer", &empty),
        "solo worker must not invent teammates — this is the d4dataminer regression");
    assert!(is_allowed_delegate_target("human", "d4dataminer", &empty));
    assert!(is_allowed_delegate_target("all", "d4dataminer", &empty));
    assert!(is_allowed_delegate_target("d4dataminer", "d4dataminer", &empty), "self");
}

#[test]
fn parse_handles_null_fields() {
    let input = r#"{"response": "hi", "delegate": null, "messages": null, "completed_tasks": null, "continue": false, "state_update": {}}"#;
    let result = parse(input).expect("should parse");
    assert_eq!(result.response.as_deref(), Some("hi"));
    assert!(result.delegate.is_empty());
    assert!(result.messages.is_empty());
    assert!(result.completed_tasks.is_empty());
    assert!(!result.wants_to_continue);
}

#[test]
fn parse_handles_missing_fields() {
    let input = r#"{"response": "hi"}"#;
    let result = parse(input).expect("should parse");
    assert_eq!(result.response.as_deref(), Some("hi"));
    assert!(result.delegate.is_empty());
    assert!(result.messages.is_empty());
    assert!(result.completed_tasks.is_empty());
}

#[test]
fn parse_handles_markdown_fences() {
    let input = "Here is the output:\n\n```json\n{\"response\": \"done\", \"continue\": false}\n```\n";
    let result = parse(input).expect("should parse");
    assert_eq!(result.response.as_deref(), Some("done"));
}

#[test]
fn parse_handles_text_before_json() {
    let input = "Let me check...\n\n{\"response\": \"found it\", \"continue\": false}";
    let result = parse(input).expect("should parse");
    assert_eq!(result.response.as_deref(), Some("found it"));
}

#[test]
fn parse_handles_text_after_json() {
    let input = "{\"response\": \"all good\", \"continue\": false}\n\nHope that helps!";
    let result = parse(input).expect("should parse");
    assert_eq!(result.response.as_deref(), Some("all good"));
}

#[test]
fn parse_handles_nested_json_in_state() {
    let input = r#"{"response": "ok", "state_update": {"status": "working", "files_touched": ["a.rs", "b.rs"]}, "continue": false}"#;
    let result = parse(input).expect("should parse");
    assert_eq!(result.response.as_deref(), Some("ok"));
    assert_eq!(result.state_update.status.as_deref(), Some("working"));
    assert_eq!(result.state_update.files_touched, vec!["a.rs", "b.rs"]);
}

#[test]
fn parse_handles_empty_string() {
    assert!(parse("").is_none());
}

#[test]
fn parse_handles_no_json() {
    assert!(parse("Just some plain text response").is_none());
}

#[test]
fn parse_handles_invalid_json() {
    assert!(parse("{response: broken}").is_none());
}

#[test]
fn parse_passes_over_braces_in_strings() {
    let result = parse(r#"{"response": "a } b"}"#).expect("should parse");
    assert_eq!(result.response.as_deref(), Some("a } b"));
    let result = parse(r#"{"response": "{ \" } \\"}"#).expect("should parse");
    assert_eq!(result.response.as_deref(), Some("{ \" } \\"));
}

#[test]
fn parse_takes_the_last_answer() {
    let two = r#"{"response": "one"} and then {"response": "two"} done"#;
    assert_eq!(parse(two).unwrap().response.as_deref(), Some("two"));
    let braces = r#"a { in the text, {"response": "x"} and { more"#;
    assert_eq!(parse(braces).unwrap().response.as_deref(), Some("x"));
    let wrapped = r#"{note: {"response": "y"}}"#;
    assert_eq!(parse(wrapped).unwrap().response.as_deref(), Some("y"));
    let behind = "```rust\nlet a = \"}\";\n```\n{\"response\": \"z\"}";
    assert_eq!(parse(behind).unwrap().response.as_deref(), Some("z"));
}

#[test]
fn parse_does_not_look_inside_other_json() {
    let input = r#"{"response": 5, "state_update": {"status": "x"}}"#;
    assert!(parse(input).is_none());
    let before = r#"{"response": "ok"} {"response": 5, "state_update": {}}"#;
    assert_eq!(parse(before).unwrap().response.as_deref(), Some("ok"));
}

#[test]
fn parse_handles_continue_true() {
    let input = r#"{"response": null, "continue": true}"#;
    let result = parse(input).expect("should parse");
    assert!(result.response.is_none());
    assert!(result.wants_to_continue);
}

#[test]
fn parse_handles_messages_field() {
    let input = r#"{"response": "sent", "messages": [{"to": "@frontend", "text": "API ready"}], "continue": false}"#;
    let result = parse(input).expect("should parse");
    assert_eq!(result.messages.len(), 1);
    assert_eq!(result.messages[0].to, "@frontend");
    assert_eq!(result.messages[0].text, "API ready");
}

#[test]
fn parse_handles_delegate_field() {
    let input = r#"{"response": "delegated", "delegate": [{"to": "@backend", "task": "fix the bug"}], "continue": false}"#;
    let result = parse(input).expect("should parse");
    assert_eq!(result.delegate.len(), 1);
    assert_eq!(result.delegate[0].to, "@backend");
    assert_eq!(result.delegate[0].task, "fix the bug");
}

#[test]
fn parse_handles_completed_tasks() {
    let input = r#"{"response": "done", "completed_tasks": ["abc123", "def456"], "continue": false}"#;
    let result = parse(input).expect("should parse");
    assert_eq!(result.completed_tasks, vec!["abc123", "def456"]);
}

#[test]
fn parse_extracts_status_from_state() {
    let input = r#"{"response": "ok", "state_update": {"status": "building UI"}, "continue": false}"#;
    let result = parse(input).expect("should parse");
    assert_eq!(result.state_update.status.as_deref(), Some("building UI"));
}

#[test]
fn parse_handles_extra_unknown_fields() {
    let input = r#"{"response": "ok", "unknown_field": 42, "another": "value", "continue": false}"#;
    let result = parse(input).expect("should parse");
    assert_eq!(result.response.as_deref(), Some("ok"));
}


fn prior_full() -> WorkerState {
    WorkerState {
        last_task: Some("abc1234".to_string()),
        pending: Some("follow-up to abc1234".to_string()),
        files_touched: vec!["src/a.rs".to_string(), "src/b.rs".to_string()],
        status: Some("working on map fix".to_string()),
    }
}

#[test]
fn merge_state_missing_state_update_preserves_prior() {
    let incoming = WorkerState::default();
    let merged = merge_state(prior_full(), &incoming);
    assert_eq!(merged.status.as_deref(), Some("working on map fix"));
    assert_eq!(merged.last_task.as_deref(), Some("abc1234"));
    assert_eq!(merged.files_touched.len(), 2);
}

#[test]
fn merge_state_empty_object_preserves_prior() {
    let incoming: WorkerState = state("{}").unwrap();
    let merged = merge_state(prior_full(), &incoming);
    assert_eq!(merged.status.as_deref(), Some("working on map fix"));
    assert_eq!(merged.files_touched.len(), 2);
}

#[test]
fn merge_state_partial_update_replaces_only_provided_fields() {
    let incoming: WorkerState = state(r#"{"status": "idle — map fix landed"}"#).unwrap();
    let merged = merge_state(prior_full(), &incoming);
    assert_eq!(merged.status.as_deref(), Some("idle — map fix landed"));
    assert_eq!(merged.last_task.as_deref(), Some("abc1234"));
    assert_eq!(merged.files_touched, vec!["src/a.rs".to_string(), "src/b.rs".to_string()]);
}

#[test]
fn merge_state_nonempty_files_touched_replaces() {
    let incoming: WorkerState = state(r#"{"files_touched": ["src/map.css"]}"#).unwrap();
    let merged = merge_state(prior_full(), &incoming);
    assert_eq!(merged.files_touched, vec!["src/map.css".to_string()]);
    assert_eq!(merged.status.as_deref(), Some("working on map fix"));
}

#[test]
fn merge_state_full_update_replaces_everything() {
    let incoming = WorkerState {
        last_task: Some("def5678".to_string()),
        pending: None,
        files_touched: vec!["src/x.rs".to_string()],
        status: Some("done".to_string()),
    };
    let merged = merge_state(prior_full(), &incoming);
    assert_eq!(merged.last_task.as_deref(), Some("def5678"));
    assert_eq!(merged.pending.as_deref(), Some("follow-up to abc1234"));
    assert_eq!(merged.status.as_deref(), Some("done"));
    assert_eq!(merged.files_touched, vec!["src/x.rs".to_string()]);
}

#[test]
fn merge_state_null_fields_preserve_prior() {
    let incoming: WorkerState = state(r#"{"last_task": null, "pending": null, "status": null, "files_touched": null}"#
    ).unwrap_or_default();
    let merged = merge_state(prior_full(), &incoming);
    assert_eq!(merged.status.as_deref(), Some("working on map fix"));
    assert_eq!(merged.files_touched.len(), 2);
}

#[test]
fn ack_pattern_matches_acknowledged() {
    let re = Regex::new(ACK_START_PATTERN).unwrap();
    assert!(re.is_match("Acknowledged — gate freeze holds"));
    assert!(re.is_match("Ack — freeze unchanged"));
    assert!(re.is_match("Aligned on gate freeze"));
    assert!(re.is_match("Standing by for joint build"));
    assert!(re.is_match("Same gate on my side"));
    assert!(re.is_match("Holding research/dataset churn per gate"));
    assert!(re.is_match("Received — holding Option A"));
    assert!(re.is_match("Noted; unchanged until PM records"));
    assert!(re.is_match("Gate freeze respected — no validator-driven spec churn"));
    assert!(re.is_match("Freeze holds — standing by"));
}

#[test]
fn ack_pattern_matches_with_at_mentions() {
    let re = Regex::new(ACK_START_PATTERN).unwrap();
    assert!(re.is_match("@researcher Acknowledged — holding"));
    assert!(re.is_match("@project-manager @validator Acknowledged freeze"));
    assert!(re.is_match("@database Aligned: holding research churn"));
}

#[test]
fn ack_pattern_does_not_match_real_messages() {
    let re = Regex::new(ACK_START_PATTERN).unwrap();
    assert!(!re.is_match("Fixed the auth redirect issue"));
    assert!(!re.is_match("New dataset ready for integration"));
    assert!(!re.is_match("Found bug in payment processor"));
    assert!(!re.is_match("Please review the schema changes"));
    assert!(!re.is_match("Write access is unblocked on my side"));
}

#[test]
fn ack_pattern_matches_real_chat_openers() {
    let re = Regex::new(ACK_START_PATTERN).unwrap();
    assert!(re.is_match("Acknowledging two items:"));
    assert!(re.is_match("Thanks — glad the cross-platform mapping landed well"));
    assert!(re.is_match("Perfect — standing by. Flag anything"));
    assert!(re.is_match("Locked in — will ping you the moment"));
    assert!(re.is_match("Got it — will hold on that"));
    assert!(re.is_match("Confirmed, moving to Sprint 3"));
    assert!(re.is_match("Copy that"));
    assert!(re.is_match("Sounds good — proceeding"));
    assert!(re.is_match("Understood"));
}

#[test]
fn ack_length_cap_protects_content_bearing_messages() {
    let re = Regex::new(ACK_START_PATTERN).unwrap();
    let long = "Perfect — exactly what I wanted to see. The design system translating well to Android is exactly what we hoped for. Material3 dark surface overlays (#0E0E12, #15151A) map 1:1 to our iOS brand tokens, and the 48dp minimum tap targets are aligned with our accessibility audit findings. Please continue with Phase 0 of the Android implementation.";
    assert!(re.is_match(long), "pattern still matches — cap is what filters");
    assert!(long.len() > ACK_MAX_LEN, "this is the real case we need to let through");
}

fn s(parts: &[&str]) -> Vec<String> {
    parts.iter().map(|p| p.to_string()).collect()
}

#[test]
fn env_prefix_extracts_leading_assignments() {
    let (env, cmd) = split_env_prefix(s(&[
        "OLLAMA_HOST=http://mbpc:11434",
        "OLLAMA_NUM_CTX=32768",
        "/path/to/script",
        "-p",
        "{prompt}",
    ]));
    assert_eq!(env.len(), 2);
    assert_eq!(env[0], ("OLLAMA_HOST".to_string(), "http://mbpc:11434".to_string()));
    assert_eq!(env[1], ("OLLAMA_NUM_CTX".to_string(), "32768".to_string()));
    assert_eq!(cmd, s(&["/path/to/script", "-p", "{prompt}"]));
}

#[test]
fn env_prefix_stops_at_first_non_assignment() {
    let (env, cmd) = split_env_prefix(s(&["cursor", "FOO=bar", "-p", "x"]));
    assert!(env.is_empty());
    assert_eq!(cmd, s(&["cursor", "FOO=bar", "-p", "x"]));
}

#[test]
fn env_prefix_no_assignments() {
    let (env, cmd) = split_env_prefix(s(&["cursor", "-p", "{prompt}"]));
    assert!(env.is_empty());
    assert_eq!(cmd, s(&["cursor", "-p", "{prompt}"]));
}

#[test]
fn env_prefix_rejects_invalid_keys() {
    let (env, cmd) = split_env_prefix(s(&["1FOO=bar", "cursor"]));
    assert!(env.is_empty());
    assert_eq!(cmd, s(&["1FOO=bar", "cursor"]));

    let (env, cmd) = split_env_prefix(s(&["FOO-BAR=baz", "cursor"]));
    assert!(env.is_empty());
    assert_eq!(cmd, s(&["FOO-BAR=baz", "cursor"]));
}

#[test]
fn env_prefix_value_can_contain_equals_and_be_empty() {
    let (env, cmd) = split_env_prefix(s(&["URL=http://x?a=1&b=2", "EMPTY=", "cmd"]));
    assert_eq!(env, vec![
        ("URL".to_string(), "http://x?a=1&b=2".to_string()),
        ("EMPTY".to_string(), "".to_string()),
    ]);
    assert_eq!(cmd, s(&["cmd"]));
}
