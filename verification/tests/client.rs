//! What a client keeps, finds and prints.
use collab::client::listing::{
    add_message, broadcast, list_text, not_shown, replying_to, short_hash, show_history,
    show_message, show_roster, show_status, stop_all, stream_blocked, stream_message, todo_add,
    todo_done, todo_list, todo_refused, Links, Streamed,
};
use collab::client::{
    anchor_time, done_outcome, find_message, hash_prefix, lease_outcome, link_hash, list_messages,
    listing_start, newest_time, remote_url, reply_to_latest, repo_url, Anchor, CollabClient, DoneOutcome, Holder,
    LeaseOutcome, Lookup, Message, ReadState, Since, Todo, WorkerInfo, STOP_WATCH_SIGNAL,
};
use collab::clock::{
    age_str, date_and_minute, date_and_time, hours_and_minutes, parse_time, time_of_day, Timestamp,
};
use serde_json::Value;

fn at(offset: i64) -> Timestamp {
    let t = parse_time("2024-03-27T14:30:45Z").unwrap();
    Timestamp { secs: t.secs + offset, nanos: 0 }
}

fn message(hash: &str, sender: &str, recipient: &str, offset: i64) -> Message {
    Message {
        id: "test-id".to_string(),
        hash: hash.to_string(),
        sender: sender.to_string(),
        recipient: recipient.to_string(),
        content: format!("from {}", sender),
        refs: vec![],
        timestamp: at(offset),
    }
}

fn plain() -> Links {
    Links { tty: false, repo: None }
}

// ── The wire format ─────────────────────────────────────────────────────────
fn to_json(m: &Message) -> String {
    let mut o = serde_json::Map::new();
    let put = |o: &mut serde_json::Map<String, Value>, k: &str, v: &str| {
        o.insert(k.to_string(), Value::String(v.to_string()));
    };
    put(&mut o, "id", &m.id);
    put(&mut o, "hash", &m.hash);
    put(&mut o, "sender", &m.sender);
    put(&mut o, "recipient", &m.recipient);
    put(&mut o, "content", &m.content);
    o.insert("refs".to_string(), Value::Array(m.refs.iter().cloned().map(Value::String).collect()));
    put(&mut o, "timestamp", &m.timestamp.to_rfc3339());
    Value::Object(o).to_string()
}

fn from_json(json: &str) -> Message {
    let v: Value = serde_json::from_str(json).unwrap();
    let get = |k: &str| v[k].as_str().unwrap().to_string();
    Message {
        id: get("id"),
        hash: get("hash"),
        sender: get("sender"),
        recipient: get("recipient"),
        content: get("content"),
        refs: v["refs"].as_array().unwrap().iter().map(|r| r.as_str().unwrap().to_string()).collect(),
        timestamp: parse_time(v["timestamp"].as_str().unwrap()).unwrap(),
    }
}

#[test]
fn test_message_serialization() {
    let message = Message {
        id: "test-id".to_string(),
        hash: "abc123".to_string(),
        sender: "worker1".to_string(),
        recipient: "worker2".to_string(),
        content: "test content".to_string(),
        refs: vec!["ref1".to_string()],
        timestamp: at(0),
    };
    let json = to_json(&message);
    assert!(json.contains("test-id"));
    assert!(json.contains("worker1"));
}

#[test]
fn test_message_deserialization() {
    let json = r#"{
        "id": "test-id",
        "hash": "abc123",
        "sender": "worker1",
        "recipient": "worker2",
        "content": "test content",
        "refs": ["ref1"],
        "timestamp": "2024-03-27T14:30:45Z"
    }"#;
    let message = from_json(json);
    assert_eq!(message.id, "test-id");
    assert_eq!(message.sender, "worker1");
    assert_eq!(message.refs.len(), 1);
}

#[test]
fn test_collab_client_creation() {
    let client = CollabClient::new("http://localhost:8000", "test-worker", None);
    assert_eq!(client.base_url, "http://localhost:8000");
    assert_eq!(client.instance_id, "test-worker");
}

#[test]
fn tokens_are_sent_as_bearer_tokens() {
    let with = CollabClient::new("http://s", "me", Some("tok"));
    assert_eq!(with.authorization().as_deref(), Some("Bearer tok"));
    assert_eq!(with.url_of("messages", "me"), "http://s/messages/me");
    assert!(CollabClient::new("http://s", "me", None).authorization().is_none());
}

// ── The clock ───────────────────────────────────────────────────────────────
#[test]
fn times_are_read_and_written() {
    let t = at(0);
    assert_eq!(t.secs, 1_711_549_845);
    assert_eq!(t.to_rfc3339(), "2024-03-27T14:30:45+00:00");
    assert_eq!(parse_time("2024-03-27T16:30:45+02:00").unwrap(), t);
    assert!(parse_time("yesterday").is_none());
    assert_eq!(date_and_time(t), "2024-03-27 14:30:45 UTC");
    assert_eq!(date_and_minute(t), "2024-03-27 14:30 UTC");
    assert_eq!(time_of_day(t), "14:30:45 UTC");
    assert_eq!(hours_and_minutes(t), "14:30:45");
}

#[test]
fn nanoseconds_survive_a_round_trip() {
    let t = Timestamp { secs: 1_711_549_845, nanos: 120_000_000 };
    assert_eq!(t.to_rfc3339(), "2024-03-27T14:30:45.120+00:00");
    assert_eq!(parse_time(&t.to_rfc3339()).unwrap(), t);
}

#[test]
fn ages_are_rounded_down() {
    assert_eq!(age_str(at(5), at(0)), "5s ago");
    assert_eq!(age_str(at(125), at(0)), "2m ago");
    assert_eq!(age_str(at(7_200), at(0)), "2h ago");
}

// ── Answers of the server ───────────────────────────────────────────────────
#[test]
fn lease_answers_are_told_apart() {
    assert!(matches!(lease_outcome(200, true, None), Some(LeaseOutcome::Held { taken_over: true })));
    let holder = Holder { pid: 7, host: "h".to_string(), seconds_since_heartbeat: 3 };
    match lease_outcome(409, false, Some(holder)) {
        Some(LeaseOutcome::Conflict { holder_pid, holder_host, seconds_since_heartbeat }) => {
            assert_eq!((holder_pid, holder_host.as_str(), seconds_since_heartbeat), (7, "h", 3));
        }
        _ => panic!("no conflict"),
    }
    assert!(lease_outcome(500, false, None).is_none());
}

#[test]
fn closing_a_task_has_four_outcomes() {
    assert_eq!(done_outcome(204), DoneOutcome::Done);
    assert_eq!(done_outcome(409), DoneOutcome::AlreadyDone);
    assert_eq!(done_outcome(404), DoneOutcome::NotFound);
    assert_eq!(done_outcome(500), DoneOutcome::Failed(500));
    assert_eq!(todo_done(204, "204", "abc").unwrap(), "\u{2713}  Task abc marked complete.");
    assert_eq!(todo_done(409, "409", "abc").unwrap_err(), "Task abc already completed (409).");
    assert_eq!(todo_done(404, "404", "abc").unwrap_err(), "Task abc not found.");
    assert_eq!(todo_done(500, "500 Oops", "abc").unwrap_err(), "Server error: 500 Oops");
}

// ── Links ───────────────────────────────────────────────────────────────────
#[test]
fn remotes_become_addresses() {
    assert_eq!(remote_url("git@github.com:a/b.git\n"), "https://github.com/a/b");
    assert_eq!(remote_url("https://github.com/a/b.git"), "https://github.com/a/b");
    assert_eq!(repo_url(&Some(" https://x/y/ ".to_string()), &None).as_deref(), Some("https://x/y"));
    assert_eq!(repo_url(&None, &Some("git@h:p".to_string())).as_deref(), Some("https://h/p"));
    assert!(repo_url(&None, &None).is_none());
}

#[test]
fn hashes_are_links_on_a_terminal_only() {
    let repo = Some("https://x/y".to_string());
    assert_eq!(link_hash("abc", false, &repo), "abc");
    assert_eq!(link_hash("abc", true, &None), "abc");
    let link = link_hash("abc", true, &repo);
    assert!(link.contains("https://x/y/") && link.contains("abc"));
    assert_eq!(short_hash("0123456789"), "0123456");
}

// ── What was read ───────────────────────────────────────────────────────────
#[test]
fn the_read_mark_only_moves_forward() {
    let mut s = ReadState::default();
    assert!(s.seen_until("me").is_none());
    s.mark_seen("me", at(10));
    assert_eq!(s.seen_until("me"), Some(at(10)));
    assert!(s.seen_until("you").is_none());
}

#[test]
fn roles_are_remembered() {
    let mut s = ReadState::default();
    assert!(s.effective_role("me", &None).is_none());
    assert_eq!(s.effective_role("me", &Some("dev".to_string())).as_deref(), Some("dev"));
    assert_eq!(s.effective_role("me", &None).as_deref(), Some("dev"));
}

#[test]
fn answered_messages_are_marked_once() {
    let mut s = ReadState::default();
    s.mark_replied(&vec!["h1".to_string(), "h1".to_string(), "h2".to_string()]);
    assert_eq!(s.replied.len(), 2);
}

#[test]
fn the_inbox_leaves_out_signals_and_own_broadcasts() {
    let mut stop = message("s", "pm", "all", 1);
    stop.content = STOP_WATCH_SIGNAL.to_string();
    let all = vec![stop, message("a", "me", "all", 2), message("b", "pm", "me", 3), message("c", "qa", "all", 4)];
    let seen = list_messages(all, &"me".to_string(), Since::Beginning, &None);
    let hashes: Vec<&str> = seen.iter().map(|m| m.hash.as_str()).collect();
    assert_eq!(hashes, vec!["b", "c"]);
    let all = vec![message("b", "pm", "me", 3), message("c", "qa", "all", 4)];
    let later = list_messages(all, &"me".to_string(), Since::Time(at(3)), &None);
    assert_eq!(later.len(), 1);
    let all = vec![message("b", "pm", "me", 3), message("c", "qa", "all", 4)];
    let from = list_messages(all, &"me".to_string(), Since::Beginning, &Some("@pm".to_string()));
    assert_eq!(from[0].hash, "b");
}

#[test]
fn listings_start_where_they_were_asked_to() {
    let read = Some(at(5));
    assert_eq!(listing_start(Anchor::NotAsked, true, read), Some(Since::Time(at(5))));
    assert_eq!(listing_start(Anchor::NotAsked, false, read), Some(Since::Beginning));
    assert_eq!(listing_start(Anchor::NotAsked, true, None), Some(Since::Beginning));
    assert_eq!(listing_start(Anchor::Unreachable, true, read), Some(Since::Beginning));
    assert_eq!(listing_start(Anchor::Searched(Some(at(9))), true, read), Some(Since::Time(at(9))));
    assert_eq!(listing_start(Anchor::Searched(None), true, read), None);
}

#[test]
fn messages_are_found_by_the_front_of_their_hash() {
    let all = vec![message("abc1", "pm", "me", 1), message("abd2", "pm", "me", 2)];
    assert_eq!(hash_prefix("@ABC"), "abc");
    assert!(matches!(find_message(&all, &hash_prefix("@ABC")), Lookup::Found(0)));
    assert!(matches!(find_message(&all, "ab"), Lookup::Ambiguous(2)));
    assert!(matches!(find_message(&all, "x"), Lookup::Missing));
    assert_eq!(anchor_time(&all, "abd"), Some(at(2)));
    assert_eq!(newest_time(&all), Some(at(2)));
    assert_eq!(not_shown(&Lookup::Missing, "@X").as_deref(), Some("No message found with hash starting 'x'"));
    assert_eq!(
        not_shown(&Lookup::Ambiguous(2), "ab").as_deref(),
        Some("Ambiguous: 2 messages match 'ab', use more characters")
    );
    assert!(not_shown(&Lookup::Found(0), "abc").is_none());
}

#[test]
fn an_answer_goes_to_the_latest_message() {
    let all = vec![message("a", "pm", "me", 5), message("b", "pm", "me", 9), message("c", "qa", "me", 20)];
    assert_eq!(reply_to_latest(&all, "@pm"), Some(1));
    assert!(reply_to_latest(&all, "nobody").is_none());
    assert_eq!(replying_to(&all[1], "@pm", &plain()), "Replying to 14:30:54 UTC [b] from @pm\n");
}

// ── What is printed ─────────────────────────────────────────────────────────
#[test]
fn lists_show_hash_time_and_text() {
    let mut m = message("0123456789", "pm", "all", 0);
    m.refs = vec!["fedcba987".to_string()];
    let text = list_text(&vec![m], "me", &vec![], &plain());
    assert!(text.contains("\u{2190} @pm  0123456"));
    assert!(text.contains("[broadcast]"));
    assert!(text.contains("Refs: fedcba9"));
    assert!(text.contains("2024-03-27 14:30:45 UTC"));
    assert!(text.contains("from pm"));
}

#[test]
fn histories_can_be_kept_to_one_conversation() {
    let all = vec![message("0123456789", "pm", "me", 0), message("fedcba9876", "qa", "me", 1)];
    let text = show_history(all, "me", &Some("pm".to_string()), &plain());
    assert!(text.contains("(showing only conversations with @pm)"));
    assert!(text.contains("from pm") && !text.contains("from qa"));
    assert!(show_history(vec![], "me", &None, &plain()).contains("No message history"));
}

#[test]
fn one_message_is_shown_with_its_direction() {
    let text = show_message(&message("0123456789", "pm", "me", 0), "me", &plain());
    assert!(text.contains("@pm \u{2192} you"));
    let own = show_message(&message("0123456789", "me", "pm", 0), "me", &plain());
    assert!(own.contains("you \u{2192} @pm"));
}

#[test]
fn a_stop_signal_ends_the_stream() {
    let mut m = message("0123456789", "pm", "all", 0);
    assert!(matches!(stream_message(&m, &plain()), Streamed::Show(_)));
    m.content = STOP_WATCH_SIGNAL.to_string();
    match stream_message(&m, &plain()) {
        Streamed::Stop(s) => assert!(s.contains("@pm")),
        Streamed::Show(_) => panic!("shown"),
    }
}

#[test]
fn only_a_living_stream_blocks_another() {
    assert!(stream_blocked("me", None, false).is_none());
    assert!(stream_blocked("me", Some(7), false).is_none());
    assert!(stream_blocked("me", Some(7), true).unwrap().contains("7"));
}

#[test]
fn rosters_mark_the_reader() {
    let w = |n: &str, c: usize| WorkerInfo {
        instance_id: n.to_string(),
        role: "r".to_string(),
        last_seen: at(0),
        message_count: c,
    };
    let text = show_roster(&vec![w("me", 0), w("you", 3)], "me");
    assert!(text.contains("@me") && text.contains("@you"));
    assert!(text.contains("Messages: 3") && !text.contains("Messages: 0"));
    assert!(show_roster(&vec![], "me").contains("No active workers."));
}

fn task(hash: &str) -> Todo {
    Todo {
        id: "i".to_string(),
        hash: hash.to_string(),
        instance: "me".to_string(),
        assigned_by: "pm".to_string(),
        description: "build it".to_string(),
        created_at: at(0),
        completed_at: None,
    }
}

#[test]
fn tasks_are_listed_with_who_gave_them() {
    let text = todo_list(&vec![task("0123456789")], "me");
    assert!(text.contains("0123456  (from @pm)"));
    assert!(text.contains("Assigned: 2024-03-27 14:30 UTC"));
    assert_eq!(todo_list(&vec![], "me"), "No pending tasks for @me.\n");
}

#[test]
fn a_status_moves_the_read_mark() {
    let (text, seen) = show_status(
        &"me".to_string(),
        &Some(vec![]),
        Some(vec![message("0123456789", "pm", "me", 7)]),
        &Some(vec![task("fedcba9876")]),
        Some(at(3)),
        &plain(),
    );
    assert!(text.contains("Unread messages for @me"));
    assert!(text.contains("fedcba9"));
    assert_eq!(seen, Some(at(7)));
    let (_, unseen) = show_status(&"me".to_string(), &None, None, &None, Some(at(3)), &plain());
    assert_eq!(unseen, Some(at(3)));
}

#[test]
fn actions_are_confirmed() {
    let m = message("0123456789", "me", "pm", 0);
    assert_eq!(add_message("pm", &m, &plain()), "\u{2192} @pm  0123456\n  Time: 2024-03-27 14:30:45 UTC\n");
    assert_eq!(
        broadcast(&m, &plain()),
        "\u{2192} @all  0123456  [broadcast]\n  Time: 2024-03-27 14:30:45 UTC\n  (visible to all workers on their next `collab list`)\n"
    );
    assert_eq!(todo_add(&task("0123456789")), "\u{2192} @me  0123456\n  build it\n");
    assert_eq!(todo_refused(200, "200"), None);
    assert!(todo_refused(400, "400").unwrap().starts_with("Bad request"));
    assert_eq!(todo_refused(503, "503 Busy").as_deref(), Some("Server error: 503 Busy"));
    let text = stop_all(&m, Some(2), &plain());
    assert!(text.contains("[0123456]") && text.contains("presence for 2 worker(s)"));
    assert!(!stop_all(&m, None, &plain()).contains("Cleared"));
}
