//! Concrete instances of what the library states for all inputs.
use collab::clock::{parse_time, Timestamp};
use collab::config::{assign, Assigned};
use collab::lifecycle::build_worker_env;
use collab::monitor::{pad, wrap_text, Reader};
use collab::server::messages::{MessageCreate, Messages};
use collab::server::presence::{get_roster, Presence, PresenceUpdate};
use collab::server::store::cleanup_old_messages;
use collab::server::todos::{TodoCreate, Todos, NOTICE};
use collab::server::{hash_token, RECENT_SECS};
use collab::worker::command::split_env_prefix;
use collab::worker::events::{next_backoff, take_events, MAX_BACKOFF_SECS};
use collab::worker::output::{CollabOutput, DelegateTask, DirectMessage};
use collab::worker::prompt::{build_prompt, CLOSING};
use collab::worker::turn::{plan_turn, MAX_COMPLETIONS};
use collab::worker::{merge_state, truncate_at_char_boundary, Message, WorkerHarness, WorkerState};

fn at(offset: i64) -> Timestamp {
    let t = parse_time("2026-04-17T12:00:00Z").unwrap();
    Timestamp { secs: t.secs + offset, nanos: 0 }
}

fn from(sender: &str, content: &str) -> Message {
    Message {
        sender: sender.to_string(),
        content: content.to_string(),
        hash: "0123456789".to_string(),
        timestamp: at(0),
        recipient: "me".to_string(),
    }
}

#[test]
fn chunks_of_a_stream_do_not_matter() {
    let whole = "data: one\n\ndata: two\n\ndata: th";
    let (all, rest) = take_events(whole);
    for cut in 0..whole.len() {
        let (mut found, left) = take_events(&whole[..cut]);
        let (more, end) = take_events(&format!("{}{}", left, &whole[cut..]));
        found.extend(more);
        assert_eq!(found, all, "cut at {}", cut);
        assert_eq!(end, rest);
    }
}

#[test]
fn prompts_of_one_worker_begin_alike() {
    let h = WorkerHarness::new(
        "me".to_string(),
        "/w".to_string(),
        "haiku".to_string(),
        None,
        "cursor".to_string(),
        true,
        500,
        None,
        vec![],
        vec![],
        &None,
    );
    let a = build_prompt(&h, "Builds", "{}", &None, &None, &vec![from("pm", "one")]);
    let b = build_prompt(&h, "Builds", "{\"x\":1}", &None, &None, &vec![from("qa", "two")]);
    let shared = a.chars().zip(b.chars()).take_while(|(x, y)| x == y).count();
    assert!(shared > 500, "only {} characters are shared", shared);
    assert!(a.ends_with(CLOSING) && b.ends_with(CLOSING));
}

#[test]
fn a_split_command_can_be_put_together_again() {
    let parts: Vec<String> = ["A=1", "B=x=y", "run", "C=3"].iter().map(|s| s.to_string()).collect();
    let (env, argv) = split_env_prefix(parts.clone());
    let mut again: Vec<String> = env.iter().map(|(k, v)| format!("{}={}", k, v)).collect();
    again.extend(argv);
    assert_eq!(again, parts);
}

fn output(completed: usize) -> CollabOutput {
    CollabOutput {
        response: Some("done".to_string()),
        delegate: vec![DelegateTask { to: "@pm".to_string(), task: "t".to_string() }],
        state_update: WorkerState::default(),
        completed_tasks: (0..completed).map(|i| format!("hash{}", i)).collect(),
        messages: vec![
            DirectMessage { to: "pm".to_string(), text: "again".to_string() },
            DirectMessage { to: "qa".to_string(), text: "once".to_string() },
            DirectMessage { to: "@qa".to_string(), text: "twice".to_string() },
        ],
        wants_to_continue: false,
    }
}

#[test]
fn nobody_hears_the_same_twice_in_a_turn() {
    let team = vec!["pm".to_string(), "qa".to_string()];
    let p = plan_turn(&output(0), &vec![from("pm", "go"), from("dev", "go")], "me", &team);
    let mut all: Vec<String> = Vec::new();
    all.extend(p.replies.iter().map(|o| o.to.clone()));
    all.extend(p.todos.iter().map(|o| o.to.clone()));
    all.extend(p.direct.iter().map(|o| o.to.clone()));
    let mut once = all.clone();
    once.sort();
    once.dedup();
    assert_eq!(once.len(), all.len(), "contacted: {:?}", all);
}

#[test]
fn completions_have_a_limit() {
    let team = vec!["pm".to_string()];
    let p = plan_turn(&output(MAX_COMPLETIONS + 5), &vec![from("pm", "go")], "me", &team);
    assert_eq!(p.completions.len(), MAX_COMPLETIONS);
}

#[test]
fn merging_twice_changes_nothing_more() {
    let state = |s: &str| WorkerState { status: Some(s.to_string()), ..WorkerState::default() };
    let once = merge_state(state("a"), &state("b"));
    assert_eq!(once.status.as_deref(), Some("b"));
    let twice = merge_state(once, &state("b"));
    assert_eq!(twice.status.as_deref(), Some("b"));
}

#[test]
fn waiting_never_passes_its_limit() {
    let mut secs = 1;
    for _ in 0..10 {
        let next = next_backoff(secs);
        assert!(next >= secs && next <= MAX_BACKOFF_SECS);
        secs = next;
    }
    assert_eq!(secs, MAX_BACKOFF_SECS);
}

#[test]
fn truncation_keeps_as_much_as_fits() {
    let s = "\u{d7}".repeat(10);
    assert_eq!(truncate_at_char_boundary(&s, 5), format!("{}\u{2026}", "\u{d7}".repeat(2)));
    assert_eq!(truncate_at_char_boundary(&s, 20), s);
}

#[test]
fn references_come_back_as_they_were_sent() {
    let mut m = Messages::new();
    let payload = MessageCreate {
        sender: "pm".to_string(),
        recipient: "me".to_string(),
        content: "x".to_string(),
        refs: vec!["abc".to_string(), "def".to_string()],
    };
    m.create_message(&None, &payload, at(0)).ok().unwrap();
    let got = m.list_messages(&None, "me", false, at(1)).ok().unwrap();
    assert_eq!(got[0].refs, payload.refs);
}

#[test]
fn listings_go_from_new_to_old_and_histories_from_old_to_new() {
    let mut m = Messages::new();
    for (i, text) in ["one", "two", "three"].iter().enumerate() {
        let payload = MessageCreate {
            sender: "pm".to_string(),
            recipient: "me".to_string(),
            content: text.to_string(),
            refs: vec![],
        };
        m.create_message(&None, &payload, at(i as i64)).ok().unwrap();
    }
    let inbox = m.list_messages(&None, "me", false, at(9)).ok().unwrap();
    assert_eq!(inbox[0].content, "three");
    let two = m.get_history(&None, "me", &Some("2".to_string()), false, at(9)).ok().unwrap();
    let texts: Vec<&str> = two.iter().map(|x| x.content.as_str()).collect();
    assert_eq!(texts, vec!["two", "three"]);
    let all = m.get_history(&None, "me", &Some("-1".to_string()), false, at(9)).ok().unwrap();
    assert_eq!(all.len(), 3);
}

#[test]
fn cleaning_up_hides_nothing_recent() {
    let mut m = Messages::new();
    let mut p = Presence::new();
    p.update_presence(&None, "pm", PresenceUpdate { role: Some("plans".to_string()) }, at(0)).ok().unwrap();
    let before = get_roster(&p, &m, &None, at(RECENT_SECS)).len();
    cleanup_old_messages(&mut m, &mut p, false, &None, at(RECENT_SECS)).ok().unwrap();
    assert_eq!(get_roster(&p, &m, &None, at(RECENT_SECS)).len(), before);
    cleanup_old_messages(&mut m, &mut p, false, &None, at(RECENT_SECS + 1)).ok().unwrap();
    assert!(p.rows.is_empty());
}

#[test]
fn tasks_answer_to_the_front_of_their_hash() {
    let mut t = Todos::new();
    let mut m = Messages::new();
    let payload = TodoCreate {
        assigned_by: "pm".to_string(),
        instance: "me".to_string(),
        description: "d".to_string(),
    };
    let (todo, notice) = t.create_todo(&mut m, &None, &payload, at(0), at(0)).ok().unwrap();
    assert_eq!(todo.hash.len(), 40);
    assert_eq!(notice.message.content, NOTICE);
    for n in 4..=40 {
        let mut again = Todos::new();
        let mut other = Messages::new();
        let (same, _) = again.create_todo(&mut other, &None, &payload, at(0), at(0)).ok().unwrap();
        assert_eq!(same.hash, todo.hash);
        assert!(again.complete_todo(&None, &same.hash[..n], at(1)).is_ok());
    }
}

#[test]
fn secrets_are_shown_in_part_only() {
    let secret = "tm_0123456789abcdef".to_string();
    match assign("COLLAB_TOKEN", "other-secret-value", &Some(secret), "/p/.env") {
        Assigned::Shadowed(w) => assert!(!w.contains("0123456789abcdef") && !w.contains("secret-value")),
        _ => panic!("no warning"),
    }
    match assign("COLLAB_SERVER", "http://b", &Some("http://a".to_string()), "/p/.env") {
        Assigned::Shadowed(w) => assert!(w.contains("http://a") && w.contains("http://b")),
        _ => panic!("no warning"),
    }
}

#[test]
fn processes_see_what_is_listed_and_nothing_else() {
    let env = build_worker_env("me", "http://s", &None, &None, &Some("/home/ada".to_string()));
    let mut keys: Vec<&str> = env.iter().map(|p| p.0.as_str()).collect();
    keys.sort();
    assert_eq!(keys, vec!["COLLAB_INSTANCE", "COLLAB_SERVER", "HOME"]);
}

#[test]
fn different_tokens_have_different_hashes() {
    assert!(hash_token("a") != hash_token("b"));
    assert_eq!(hash_token("a").len(), 64);
}

#[test]
fn cells_and_lines_keep_their_width() {
    assert_eq!(pad("", 3), "   ");
    for line in wrap_text("alpha beta gamma delta", 11) {
        assert!(line.len() <= 11, "{}", line);
    }
    let mut r = Reader::new();
    r.fit(5, 10);
    r.page_down();
    assert_eq!(r.scroll, 0);
}
