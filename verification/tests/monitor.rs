//! The monitor: text in cells, the dialog, the list and what is drawn.
use collab::client::{Message, ReadState, WorkerInfo};
use collab::clock::{parse_time, Timestamp};
use collab::monitor::draw::{compose_area, Area, Draw};
use collab::monitor::{
    clip, clip_no_ellipsis, least_capacitated, pad, remember_recipient, scroll_to, send_failure,
    send_step, sort_workers, tail_chars, wrap_text, Action, ComposeField, ComposeState, Effect, Key,
    MonitorScreen, Outcome, Reader, SendRequest, SendStep,
};

fn at(offset: i64) -> Timestamp {
    let t = parse_time("2026-04-17T12:00:00Z").unwrap();
    Timestamp { secs: t.secs + offset, nanos: 0 }
}

fn info(name: &str, count: usize) -> WorkerInfo {
    WorkerInfo {
        instance_id: name.to_string(),
        role: "r".to_string(),
        last_seen: at(0),
        message_count: count,
    }
}

fn message(n: i64) -> Message {
    Message {
        id: format!("id{}", n),
        hash: format!("hash{}abcdef", n),
        sender: "pm".to_string(),
        recipient: "me".to_string(),
        content: format!("message {}", n),
        refs: vec![],
        timestamp: at(n),
    }
}

fn screen(messages: i64) -> MonitorScreen {
    let mut s = MonitorScreen::new("http://s".to_string(), "me".to_string());
    let workers = vec![info("me", 0), info("pm", 5), info("qa", 1)];
    s.on_fetched(Ok((workers, (0..messages).map(message).collect())));
    s
}

fn texts(draws: &Vec<Draw>) -> String {
    let mut all = String::new();
    for d in draws {
        if let Draw::Text { text, .. } = d {
            all.push_str(text);
            all.push('\n');
        }
    }
    all
}

#[test]
fn cells_are_clipped_and_filled() {
    assert_eq!(clip("abcdef", 4), "abc\u{2026}");
    assert_eq!(clip("abc", 4), "abc");
    assert_eq!(clip_no_ellipsis("abcdef", 4), "abcd");
    assert_eq!(pad("ab", 4), "ab  ");
    assert_eq!(tail_chars("abcdef", 2), "ef");
}

#[test]
fn lines_are_wrapped_at_words() {
    assert_eq!(wrap_text("one two three", 7), vec!["one two", "three"]);
    assert_eq!(wrap_text("a\nb", 7), vec!["a", "b"]);
    assert_eq!(wrap_text("abcdef", 3), vec!["abc", "def"]);
    assert_eq!(wrap_text("x abcdefg hi", 3), vec!["x", "abc", "def", "g", "hi"]);
    assert_eq!(wrap_text("x abcdefg h", 3), vec!["x", "abc", "def", "g h"]);
    assert_eq!(wrap_text("\u{e9}\u{e9} \u{e9}", 4), vec!["\u{e9}\u{e9} \u{e9}"]);
    assert!(wrap_text("abc", 0).is_empty());
}

#[test]
fn the_least_busy_is_offered() {
    let w = vec![info("me", 0), info("pm", 5), info("qa", 1)];
    assert_eq!(least_capacitated(&w, "me").as_deref(), Some("qa"));
    assert!(least_capacitated(&vec![info("me", 0)], "me").is_none());
    let sorted = sort_workers(&w);
    assert_eq!(sorted.len(), 3);
}

#[test]
fn the_cursor_stays_in_view() {
    assert_eq!(scroll_to(5, 0, 4), 2);
    assert_eq!(scroll_to(1, 3, 4), 1);
    assert_eq!(scroll_to(2, 1, 4), 1);
}

#[test]
fn the_dialog_needs_somebody_and_something() {
    let c = ComposeState::new(vec![info("pm", 0), info("qa", 0)], vec![true, false], None);
    assert_eq!(c.selected_recipients(), vec!["pm"]);
    let mut c = c.handle_key(Key::Tab).state.unwrap();
    assert_eq!(c.focused, ComposeField::Message);
    for ch in "hi".chars() {
        c = c.handle_key(Key::Char(ch)).state.unwrap();
    }
    let done = c.handle_key(Key::Enter);
    let request = done.request.unwrap();
    assert_eq!(request.recipients, vec!["pm"]);
    assert_eq!(request.message, "hi");
    let silent = ComposeState::new(vec![info("pm", 0)], vec![true], None).handle_key(Key::Tab).state.unwrap();
    assert!(silent.handle_key(Key::Enter).request.is_none());
    let closed = ComposeState::new(vec![info("pm", 0)], vec![true], None).handle_key(Key::Esc);
    assert!(closed.state.is_none());
}

#[test]
fn marks_toggle() {
    let c = ComposeState::new(vec![info("pm", 0)], vec![false], None);
    let c = c.handle_key(Key::Char(' ')).state.unwrap();
    assert_eq!(c.selected, vec![true]);
    let c = c.handle_key(Key::Char(' ')).state.unwrap();
    assert_eq!(c.selected, vec![false]);
}

#[test]
fn the_list_is_walked_with_keys() {
    let mut s = screen(3);
    assert_eq!(s.msg_cursor, 0);
    assert_eq!(s.on_action(Action::CursorDown), Effect::Nothing);
    assert_eq!(s.msg_cursor, 1);
    let _ = s.on_action(Action::CursorUp);
    let _ = s.on_action(Action::CursorUp);
    assert_eq!(s.msg_cursor, 0);
    assert_eq!(s.on_action(Action::Refresh), Effect::Fetch);
    assert_eq!(s.on_action(Action::Quit), Effect::Quit);
    assert!(matches!(s.on_action(Action::ViewMessage), Effect::View(_)));
}

#[test]
fn failures_are_shown() {
    let mut s = screen(1);
    s.on_fetched(Err("refused".to_string()));
    assert!(s.error.as_deref().unwrap().contains("refused"));
    assert_eq!(s.messages.len(), 1);
    assert!(send_failure("pm", "refused").contains("pm"));
    let request = SendRequest {
        recipients: vec!["pm".to_string(), "qa".to_string()],
        message: "hi".to_string(),
        reply_hash: None,
    };
    let ok = |h: &str| -> Outcome { Ok(h.to_string()) };
    assert!(matches!(send_step(&request, &vec![]), SendStep::To(0)));
    assert!(matches!(send_step(&request, &vec![ok("h1")]), SendStep::To(1)));
    assert!(matches!(send_step(&request, &vec![ok("h1"), ok("h2")]), SendStep::Done(h) if h == "h1"));
    match send_step(&request, &vec![ok("h1"), Err("gone".to_string())]) {
        SendStep::Failed(m) => assert_eq!(m, "Failed sending to @qa: gone"),
        _ => panic!("expected a failure"),
    }
}

#[test]
fn composing_starts_and_ends() {
    let mut s = screen(2);
    let _ = s.on_action(Action::Compose);
    assert!(s.compose.is_some());
    assert!(s.handle_compose_key(Key::Esc).is_none());
    assert!(s.compose.is_none());
    s.open_reply();
    assert!(s.compose.as_ref().unwrap().reply_hash.is_some());
    s.on_sent(Ok("sent".to_string()));
    assert!(s.compose.is_none());
}

#[test]
fn the_last_recipient_is_remembered() {
    let mut state = ReadState::default();
    let r = SendRequest { recipients: vec!["pm".to_string()], message: "x".to_string(), reply_hash: None };
    remember_recipient(&mut state, "me", &r);
    assert_eq!(state.last_compose_recipient.len(), 1);
    assert_eq!(state.last_compose_recipient[0].1, "pm");
}

#[test]
fn screens_show_workers_and_messages() {
    let mut s = screen(3);
    let a = Area { x: 0, y: 0, width: 100, height: 30 };
    assert!(a.is_sane());
    let shown = texts(&s.render(a, at(10)));
    assert!(shown.contains("pm") && shown.contains("message 0"));
    let l = s.layout(a);
    assert!(l.msg_rows > 0);
    let first = s.msg_data_start_y;
    let (changed, effect) = s.on_click(first + 1, None);
    assert!(changed);
    assert_eq!(effect, Effect::Nothing);
    assert_eq!(s.msg_cursor, 1);
    let (_, again) = s.on_click(first + 1, Some(100));
    assert!(matches!(again, Effect::View(_)));
}

#[test]
fn the_dialog_lies_inside_the_screen() {
    let a = Area { x: 0, y: 0, width: 100, height: 30 };
    let d = compose_area(a, 5);
    assert!(d.x + d.width <= 100 && d.y + d.height <= 30);
    let mut s = screen(1);
    s.open_compose(None, Some("qa".to_string()));
    assert!(texts(&s.render(a, at(0))).contains("qa"));
}

#[test]
fn messages_are_read_page_by_page() {
    let mut r = Reader::new();
    r.fit(100, 10);
    r.scroll_down();
    assert_eq!(r.scroll, 1);
    r.page_down();
    assert!(r.scroll > 1);
    r.page_up();
    r.scroll_up();
    assert_eq!(r.scroll, 0);
    r.scroll = 1_000;
    r.fit(100, 10);
    assert_eq!(r.scroll, 90);
    let drawn = r.render(&message(1), "me", Area { x: 0, y: 0, width: 80, height: 24 });
    assert!(texts(&drawn).contains("pm"));
}
