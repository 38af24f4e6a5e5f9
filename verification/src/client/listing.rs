//! How messages, workers and tasks are printed.
use crate::client;
use crate::client::{Message, Since, Todo, WorkerInfo};
use crate::clock;
use crate::clock::Timestamp;
use crate::text;
use vstd::prelude::*;

verus! {

/// The line between two entries.
pub const RULE: &'static str =
    "\u{2500}\u{2500}\u{2500}\u{2500}\u{2500}\u{2500}\u{2500}\u{2500}\u{2500}\u{2500}\u{2500}\u{2500}\u{2500}\u{2500}\u{2500}\u{2500}\u{2500}\u{2500}\u{2500}\u{2500}\u{2500}\u{2500}\u{2500}\u{2500}\u{2500}\u{2500}\u{2500}\u{2500}\u{2500}\u{2500}\u{2500}\u{2500}\u{2500}\u{2500}\u{2500}\u{2500}\u{2500}";

/// The line round a message that arrives on a stream.
pub const HEAVY_RULE: &'static str =
    "\u{2501}\u{2501}\u{2501}\u{2501}\u{2501}\u{2501}\u{2501}\u{2501}\u{2501}\u{2501}\u{2501}\u{2501}\u{2501}\u{2501}\u{2501}\u{2501}\u{2501}\u{2501}\u{2501}\u{2501}\u{2501}\u{2501}\u{2501}\u{2501}\u{2501}\u{2501}\u{2501}\u{2501}\u{2501}\u{2501}\u{2501}\u{2501}\u{2501}\u{2501}\u{2501}\u{2501}\u{2501}";

/// Whether hashes are printed as links, and into which repository.
pub struct Links {
    pub tty: bool,
    pub repo: Option<String>,
}

/// The front of a hash that is shown to people.
pub open spec fn short(hash: Seq<char>) -> Seq<char> {
    hash.take(text::fitting(hash, 7) as int)
}

/// The front of a hash that is shown to people.
pub fn short_hash(hash: &str) -> (r: String)
    ensures
        r@ == short(hash@),
{
    text::clip_bytes(hash, 7)
}

/// The front of a hash, as a link.
pub open spec fn short_link(hash: Seq<char>, links: Links) -> Seq<char> {
    client::linked(short(hash), links.tty, text::opt_text(links.repo))
}

fn link_short(hash: &str, links: &Links) -> (r: String)
    ensures
        r@ == short_link(hash@, *links),
{
    client::link_hash(short_hash(hash).as_str(), links.tty, &links.repo)
}

/// The first seven characters of each hash, as links.
pub open spec fn ref_links(refs: Seq<Seq<char>>, links: Links) -> Seq<Seq<char>> {
    Seq::new(
        refs.len(),
        |i: int|
            client::linked(
                if refs[i].len() <= 7 {
                    refs[i]
                } else {
                    refs[i].take(7)
                },
                links.tty,
                text::opt_text(links.repo),
            ),
    )
}

/// The line that names the messages which a message refers to, where there are any.
pub open spec fn refs_line(refs: Seq<Seq<char>>, links: Links) -> Seq<char> {
    if refs.len() == 0 {
        Seq::empty()
    } else {
        "Refs: "@ + text::joined(ref_links(refs, links), ", "@) + "\n"@
    }
}

fn line_of_refs(refs: &Vec<String>, links: &Links) -> (r: String)
    ensures
        r@ == refs_line(text::texts(refs@), *links),
{
    assert(text::texts(refs@).len() == refs@.len());
    if refs.len() == 0 {
        return String::new();
    }
    let ghost want = ref_links(text::texts(refs@), *links);
    let mut shown: Vec<String> = Vec::new();
    let mut i: usize = 0;
    while i < refs.len()
        invariant
            i <= refs@.len(),
            want == ref_links(text::texts(refs@), *links),
            text::texts(shown@) == want.take(i as int),
        decreases refs@.len() - i,
    {
        let ghost before = shown@;
        let s = text::clip_chars(refs[i].as_str(), 7);
        shown.push(client::link_hash(s.as_str(), links.tty, &links.repo));
        assert(text::texts(shown@) =~= text::texts(before).push(want[i as int]));
        assert(want.take(i + 1) =~= want.take(i as int).push(want[i as int]));
        i += 1;
    }
    assert(want.take(i as int) =~= want);
    text::glue3("Refs: ", text::join(&shown, ", ").as_str(), "\n")
}

// ── One message ─────────────────────────────────────────────────────────────
/// The mark of a message that everybody got.
pub open spec fn broadcast_tag(recipient: Seq<char>) -> Seq<char> {
    if recipient == "all"@ {
        " [broadcast]"@
    } else {
        Seq::empty()
    }
}

fn tag_of(recipient: &str) -> (r: String)
    ensures
        r@ == broadcast_tag(recipient@),
{
    if text::same(recipient, "all") {
        " [broadcast]".to_owned()
    } else {
        String::new()
    }
}

/// An entry: a line, what heads it, when it was, what it refers to and what it says.
pub open spec fn entry(head: Seq<char>, m: Message, links: Links) -> Seq<char> {
    RULE@ + "\n"@ + head + "\nTime: "@ + clock::shown(m.timestamp, "%Y-%m-%d %H:%M:%S UTC"@)
        + "\n"@ + refs_line(text::texts(m.refs@), links) + "\n"@ + m.content@ + "\n\n"@
}

fn entry_of(head: &str, m: &Message, links: &Links) -> (r: String)
    ensures
        r@ == entry(head@, *m, *links),
{
    let mut r = text::glue3(RULE, "\n", head);
    r.append("\nTime: ");
    r.append(clock::date_and_time(m.timestamp).as_str());
    r.append("\n");
    r.append(line_of_refs(&m.refs, links).as_str());
    r.append("\n");
    r.append(m.content.as_str());
    r.append("\n\n");
    r
}

/// The head of a received message: replies are marked where `replied` holds its hash.
pub open spec fn received_head(m: Message, replied: Seq<Seq<char>>, links: Links) -> Seq<char> {
    "\u{2190} @"@ + m.sender@ + "  "@ + short_link(m.hash@, links) + (if replied.contains(m.hash@) {
        " [replied]"@
    } else {
        broadcast_tag(m.recipient@)
    })
}

fn head_received(m: &Message, replied: &Vec<String>, links: &Links) -> (r: String)
    ensures
        r@ == received_head(*m, text::texts(replied@), *links),
{
    let mut r = text::glue3("\u{2190} @", m.sender.as_str(), "  ");
    r.append(link_short(m.hash.as_str(), links).as_str());
    if text::list_has(replied, m.hash.as_str()) {
        r.append(" [replied]");
    } else {
        r.append(tag_of(m.recipient.as_str()).as_str());
    }
    r
}

/// The head of a message in the history of `me`.
pub open spec fn history_head(m: Message, me: Seq<char>, links: Links) -> Seq<char> {
    (if m.sender@ == me {
        "\u{2192} @"@ + m.recipient@
    } else {
        "\u{2190} @"@ + m.sender@
    }) + " ["@ + short_link(m.hash@, links) + "]"@
}

fn head_history(m: &Message, me: &str, links: &Links) -> (r: String)
    ensures
        r@ == history_head(*m, me@, *links),
{
    let mut r = if text::same(m.sender.as_str(), me) {
        text::glue("\u{2192} @", m.recipient.as_str())
    } else {
        text::glue("\u{2190} @", m.sender.as_str())
    };
    r.append(" [");
    r.append(link_short(m.hash.as_str(), links).as_str());
    r.append("]");
    r
}

// ── Lists of messages ───────────────────────────────────────────────────────
/// The entries of received messages, in order.
pub open spec fn received_entries(
    messages: Seq<Message>,
    replied: Seq<Seq<char>>,
    links: Links,
) -> Seq<
    char,
>
    decreases messages.len(),
{
    if messages.len() == 0 {
        Seq::empty()
    } else {
        received_entries(messages.drop_last(), replied, links) + entry(
            received_head(messages.last(), replied, links),
            messages.last(),
            links,
        )
    }
}

/// A list of received messages under a heading; nothing where there are none.
pub open spec fn received_list(
    heading: Seq<char>,
    messages: Seq<Message>,
    me: Seq<char>,
    replied: Seq<Seq<char>>,
    links: Links,
) -> Seq<char> {
    if messages.len() == 0 {
        Seq::empty()
    } else {
        heading + me + ":\n\n"@ + received_entries(messages, replied, links) + RULE@ + "\n"@
    }
}

fn list_received(
    heading: &str,
    messages: &Vec<Message>,
    me: &str,
    replied: &Vec<String>,
    links: &Links,
) -> (r: String)
    ensures
        r@ == received_list(heading@, messages@, me@, text::texts(replied@), *links),
{
    if messages.len() == 0 {
        return String::new();
    }
    let mut body = String::new();
    let mut i: usize = 0;
    assert(messages@.take(0) =~= Seq::<Message>::empty());
    while i < messages.len()
        invariant
            i <= messages@.len(),
            body@ == received_entries(messages@.take(i as int), text::texts(replied@), *links),
        decreases messages@.len() - i,
    {
        assert(messages@.take(i + 1).drop_last() =~= messages@.take(i as int));
        let head = head_received(&messages[i], replied, links);
        body.append(entry_of(head.as_str(), &messages[i], links).as_str());
        i += 1;
    }
    assert(messages@.take(i as int) =~= messages@);
    let mut r = text::glue3(heading, me, ":\n\n");
    r.append(body.as_str());
    r.append(RULE);
    r.append("\n");
    r
}

/// What `collab list` prints of the messages that are shown.
pub fn list_text(messages: &Vec<Message>, me: &str, replied: &Vec<String>, links: &Links) -> (r:
    String)
    ensures
        r@ == received_list("Messages for @"@, messages@, me@, text::texts(replied@), *links),
{
    list_received("Messages for @", messages, me, replied, links)
}

/// The entries of a history, in order.
pub open spec fn history_entries(messages: Seq<Message>, me: Seq<char>, links: Links) -> Seq<char>
    decreases messages.len(),
{
    if messages.len() == 0 {
        Seq::empty()
    } else {
        history_entries(messages.drop_last(), me, links) + entry(
            history_head(messages.last(), me, links),
            messages.last(),
            links,
        )
    }
}

/// What `collab history` prints.
pub open spec fn history_listing(
    messages: Seq<Message>,
    me: Seq<char>,
    with: Option<Seq<char>>,
    links: Links,
) -> Seq<char> {
    if messages.len() == 0 {
        "No message history in the last hour.\n"@ + (match with {
            Some(n) => "(filtered to conversations with @"@ + n + ")\n"@,
            None => Seq::empty(),
        })
    } else {
        "Message History for @"@ + me + ":\n\n"@ + (match with {
            Some(n) => "(showing only conversations with @"@ + n + ")\n\n"@,
            None => Seq::empty(),
        }) + history_entries(messages, me, links) + RULE@ + "\n"@
    }
}

/// What `collab history` prints: the messages of `me`, or only those exchanged with one other.
pub fn show_history(messages: Vec<Message>, me: &str, with: &Option<String>, links: &Links) -> (r:
    String)
    ensures
        r@ == history_listing(
            match *with {
                Some(s) => client::kept(messages@, client::Keep::With(s)),
                None => messages@,
            },
            me@,
            text::opt_text(*with),
            *links,
        ),
{
    let chosen = match with {
        Some(s) => client::keep(messages, &client::Keep::With(s.clone())),
        None => messages,
    };
    if chosen.len() == 0 {
        let mut r = "No message history in the last hour.\n".to_owned();
        if let Some(n) = with {
            r.append(text::glue3("(filtered to conversations with @", n.as_str(), ")\n").as_str());
        }
        assert("No message history in the last hour.\n"@ + Seq::<char>::empty()
            =~= "No message history in the last hour.\n"@);
        return r;
    }
    let mut body = String::new();
    let mut i: usize = 0;
    assert(chosen@.take(0) =~= Seq::<Message>::empty());
    while i < chosen.len()
        invariant
            i <= chosen@.len(),
            body@ == history_entries(chosen@.take(i as int), me@, *links),
        decreases chosen@.len() - i,
    {
        assert(chosen@.take(i + 1).drop_last() =~= chosen@.take(i as int));
        let head = head_history(&chosen[i], me, links);
        body.append(entry_of(head.as_str(), &chosen[i], links).as_str());
        i += 1;
    }
    assert(chosen@.take(i as int) =~= chosen@);
    let mut r = text::glue3("Message History for @", me, ":\n\n");
    let ghost top = r@;
    if let Some(n) = with {
        r.append(text::glue3("(showing only conversations with @", n.as_str(), ")\n\n").as_str());
    } else {
        assert(top + Seq::<char>::empty() =~= top);
    }
    r.append(body.as_str());
    r.append(RULE);
    r.append("\n");
    r
}

// ── A single message ────────────────────────────────────────────────────────
/// What `collab show` prints of a message.
pub open spec fn shown_message(m: Message, me: Seq<char>, links: Links) -> Seq<char> {
    RULE@ + "\nHash: "@ + short_link(m.hash@, links) + "\nFrom: @"@ + m.sender@ + "  To: @"@
        + m.recipient@ + "\nDir:  "@ + (if m.sender@ == me {
        "you \u{2192} @"@ + m.recipient@
    } else {
        "@"@ + m.sender@ + " \u{2192} you"@
    }) + "\nTime: "@ + clock::shown(m.timestamp, "%Y-%m-%d %H:%M:%S UTC"@) + "\n"@ + refs_line(
        text::texts(m.refs@),
        links,
    ) + "\n"@ + m.content@ + "\n"@ + RULE@ + "\n"@
}

/// What `collab show` prints of a message.
pub fn show_message(m: &Message, me: &str, links: &Links) -> (r: String)
    ensures
        r@ == shown_message(*m, me@, *links),
{
    let mut r = text::glue3(
        RULE,
        "\nHash: ",
        link_short(m.hash.as_str(), links).as_str(),
    );
    r.append("\nFrom: @");
    r.append(m.sender.as_str());
    r.append("  To: @");
    r.append(m.recipient.as_str());
    r.append("\nDir:  ");
    if text::same(m.sender.as_str(), me) {
        r.append(text::glue("you \u{2192} @", m.recipient.as_str()).as_str());
    } else {
        r.append(text::glue3("@", m.sender.as_str(), " \u{2192} you").as_str());
    }
    r.append("\nTime: ");
    r.append(clock::date_and_time(m.timestamp).as_str());
    r.append("\n");
    r.append(line_of_refs(&m.refs, links).as_str());
    r.append("\n");
    r.append(m.content.as_str());
    r.append("\n");
    r.append(RULE);
    r.append("\n");
    r
}

/// What becomes of a message that arrives on a stream.
pub enum Streamed {
    /// The stream ends: this is what is printed before.
    Stop(String),
    /// The message is printed.
    Show(String),
}

/// What a stream prints of a message.
pub open spec fn streamed_message(m: Message, links: Links) -> Seq<char> {
    HEAVY_RULE@ + "\n\u{2190} @"@ + m.sender@ + broadcast_tag(m.recipient@) + "  "@ + clock::shown(
        m.timestamp,
        "%H:%M:%S UTC"@,
    ) + "\nHash: "@ + short_link(m.hash@, links) + "\n"@ + refs_line(text::texts(m.refs@), links)
        + "\n"@ + m.content@ + "\n\n"@ + HEAVY_RULE@ + "\n\n"@
}

/// Deals with a message that arrives on a stream: the stop signal ends the stream, anything else
/// is printed.
pub fn stream_message(m: &Message, links: &Links) -> (r: Streamed)
    ensures
        match r {
            Streamed::Stop(s) => text::trimmed(m.content@) == client::STOP_WATCH_SIGNAL@ && s@
                == "\u{26d4} Stop signal received from @"@ + m.sender@
                + " \u{2014} clearing presence and exiting.\n"@,
            Streamed::Show(s) => text::trimmed(m.content@) != client::STOP_WATCH_SIGNAL@ && s@
                == streamed_message(*m, *links),
        },
{
    if text::same(text::trim(m.content.as_str()).as_str(), client::STOP_WATCH_SIGNAL) {
        return Streamed::Stop(
            text::glue3(
                "\u{26d4} Stop signal received from @",
                m.sender.as_str(),
                " \u{2014} clearing presence and exiting.\n",
            ),
        );
    }
    let mut r = text::glue3(HEAVY_RULE, "\n\u{2190} @", m.sender.as_str());
    r.append(tag_of(m.recipient.as_str()).as_str());
    r.append("  ");
    r.append(clock::time_of_day(m.timestamp).as_str());
    r.append("\nHash: ");
    r.append(link_short(m.hash.as_str(), links).as_str());
    r.append("\n");
    r.append(line_of_refs(&m.refs, links).as_str());
    r.append("\n");
    r.append(m.content.as_str());
    r.append("\n\n");
    r.append(HEAVY_RULE);
    r.append("\n\n");
    Streamed::Show(r)
}

/// The process that a lock file of a stream names, where it names one that still runs, keeps
/// another stream for the same identity from starting.
pub fn stream_blocked(me: &str, holder: Option<u32>, alive: bool) -> (r: Option<String>)
    ensures
        r is Some == (holder is Some && alive),
        r matches Some(s) ==> s@ == "collab stream is already running for @"@ + me@ + " (PID "@
            + text::decimal(holder->0 as nat) + ")\nKill it first:  kill "@ + text::decimal(
            holder->0 as nat,
        ),
{
    match holder {
        Some(pid) => {
            if !alive {
                return None;
            }
            let p = text::number(pid as u64);
            let mut r = text::glue3("collab stream is already running for @", me, " (PID ");
            r.append(p.as_str());
            r.append(")\nKill it first:  kill ");
            r.append(p.as_str());
            Some(r)
        },
        None => None,
    }
}

// ── Workers ─────────────────────────────────────────────────────────────────
/// One worker of the roster. `counted` adds how many messages it sent.
pub open spec fn worker_entry(
    w: WorkerInfo,
    me: Seq<char>,
    you: Seq<char>,
    counted: bool,
) -> Seq<char> {
    "  @"@ + w.instance_id@ + (if w.instance_id@ == me {
        you
    } else {
        Seq::empty()
    }) + (if w.role@.len() > 0 {
        "  \u{2014}  "@ + w.role@
    } else {
        Seq::empty()
    }) + "\n    Last seen: "@ + clock::shown(w.last_seen, "%H:%M:%S UTC"@) + "\n"@ + (if counted
        && w.message_count > 0 {
        "    Messages: "@ + text::decimal(w.message_count as nat) + "\n"@
    } else {
        Seq::empty()
    }) + "\n"@
}

fn entry_of_worker(w: &WorkerInfo, me: &str, you: &str, counted: bool) -> (r: String)
    ensures
        r@ == worker_entry(*w, me@, you@, counted),
{
    let mut r = text::glue("  @", w.instance_id.as_str());
    let ghost a = r@;
    if text::same(w.instance_id.as_str(), me) {
        r.append(you);
    } else {
        assert(a + Seq::<char>::empty() =~= a);
    }
    let ghost b = r@;
    if !w.role.as_str().is_empty() {
        r.append(text::glue("  \u{2014}  ", w.role.as_str()).as_str());
    } else {
        assert(b + Seq::<char>::empty() =~= b);
    }
    r.append("\n    Last seen: ");
    r.append(clock::time_of_day(w.last_seen).as_str());
    r.append("\n");
    let ghost c = r@;
    if counted && w.message_count > 0 {
        r.append(
            text::glue3("    Messages: ", text::count(w.message_count).as_str(), "\n").as_str(),
        );
    } else {
        assert(c + Seq::<char>::empty() =~= c);
    }
    r.append("\n");
    r
}

/// The workers of the roster, in order.
pub open spec fn worker_entries(
    workers: Seq<WorkerInfo>,
    me: Seq<char>,
    you: Seq<char>,
    counted: bool,
) -> Seq<char>
    decreases workers.len(),
{
    if workers.len() == 0 {
        Seq::empty()
    } else {
        worker_entries(workers.drop_last(), me, you, counted) + worker_entry(
            workers.last(),
            me,
            you,
            counted,
        )
    }
}

fn entries_of_workers(workers: &Vec<WorkerInfo>, me: &str, you: &str, counted: bool) -> (r: String)
    ensures
        r@ == worker_entries(workers@, me@, you@, counted),
{
    let mut r = String::new();
    let mut i: usize = 0;
    assert(workers@.take(0) =~= Seq::<WorkerInfo>::empty());
    while i < workers.len()
        invariant
            i <= workers@.len(),
            r@ == worker_entries(workers@.take(i as int), me@, you@, counted),
        decreases workers@.len() - i,
    {
        assert(workers@.take(i + 1).drop_last() =~= workers@.take(i as int));
        r.append(entry_of_worker(&workers[i], me, you, counted).as_str());
        i += 1;
    }
    assert(workers@.take(i as int) =~= workers@);
    r
}

/// What `collab roster` prints.
pub fn show_roster(workers: &Vec<WorkerInfo>, me: &str) -> (r: String)
    ensures
        r@ == (if workers@.len() == 0 {
            "No active workers.\n"@
        } else {
            "Active workers:\n\n"@ + worker_entries(workers@, me@, " (you)"@, true)
        }),
{
    if workers.len() == 0 {
        "No active workers.\n".to_owned()
    } else {
        text::glue(
            "Active workers:\n\n",
            entries_of_workers(workers, me, " (you)", true).as_str(),
        )
    }
}

// ── Tasks ───────────────────────────────────────────────────────────────────
/// One task in the overview.
pub open spec fn task_brief(t: Todo) -> Seq<char> {
    "  "@ + short(t.hash@) + "  "@ + t.description@ + "\n  from @"@ + t.assigned_by@
        + "  \u{2014}  "@ + clock::shown(t.created_at, "%Y-%m-%d %H:%M UTC"@) + "\n\n"@
}

/// One task in the list of tasks.
pub open spec fn task_entry(t: Todo) -> Seq<char> {
    RULE@ + "\n  "@ + short(t.hash@) + "  (from @"@ + t.assigned_by@ + ")\n  "@ + t.description@
        + "\n  Assigned: "@ + clock::shown(t.created_at, "%Y-%m-%d %H:%M UTC"@) + "\n"@
}

/// The tasks, in order, briefly or in full.
pub open spec fn task_entries(todos: Seq<Todo>, brief: bool) -> Seq<char>
    decreases todos.len(),
{
    if todos.len() == 0 {
        Seq::empty()
    } else {
        task_entries(todos.drop_last(), brief) + (if brief {
            task_brief(todos.last())
        } else {
            task_entry(todos.last())
        })
    }
}

fn entries_of_tasks(todos: &Vec<Todo>, brief: bool) -> (r: String)
    ensures
        r@ == task_entries(todos@, brief),
{
    let mut r = String::new();
    let mut i: usize = 0;
    assert(todos@.take(0) =~= Seq::<Todo>::empty());
    while i < todos.len()
        invariant
            i <= todos@.len(),
            r@ == task_entries(todos@.take(i as int), brief),
        decreases todos@.len() - i,
    {
        assert(todos@.take(i + 1).drop_last() =~= todos@.take(i as int));
        let t = &todos[i];
        let h = short_hash(t.hash.as_str());
        let when = clock::date_and_minute(t.created_at);
        if brief {
            let mut e = text::glue3("  ", h.as_str(), "  ");
            e.append(t.description.as_str());
            e.append("\n  from @");
            e.append(t.assigned_by.as_str());
            e.append("  \u{2014}  ");
            e.append(when.as_str());
            e.append("\n\n");
            r.append(e.as_str());
        } else {
            let mut e = text::glue3(RULE, "\n  ", h.as_str());
            e.append("  (from @");
            e.append(t.assigned_by.as_str());
            e.append(")\n  ");
            e.append(t.description.as_str());
            e.append("\n  Assigned: ");
            e.append(when.as_str());
            e.append("\n");
            r.append(e.as_str());
        }
        i += 1;
    }
    assert(todos@.take(i as int) =~= todos@);
    r
}

/// What `collab todo list` prints.
pub fn todo_list(todos: &Vec<Todo>, target: &str) -> (r: String)
    ensures
        r@ == (if todos@.len() == 0 {
            "No pending tasks for @"@ + target@ + ".\n"@
        } else {
            "Pending tasks for @"@ + target@ + ":\n\n"@ + task_entries(todos@, false) + RULE@
                + "\n"@
        }),
{
    if todos.len() == 0 {
        return text::glue3("No pending tasks for @", target, ".\n");
    }
    let mut r = text::glue3("Pending tasks for @", target, ":\n\n");
    r.append(entries_of_tasks(todos, false).as_str());
    r.append(RULE);
    r.append("\n");
    r
}

// ── The overview ────────────────────────────────────────────────────────────
/// What the overview says of the roster.
pub open spec fn status_roster(workers: Seq<WorkerInfo>, me: Seq<char>) -> Seq<char> {
    if workers.len() == 0 {
        "No active workers.\n\n"@
    } else {
        "Active workers:\n\n"@ + worker_entries(workers, me, " \u{25c0} you"@, false)
    }
}

/// What the overview says of the tasks.
pub open spec fn status_tasks(todos: Seq<Todo>, me: Seq<char>) -> Seq<char> {
    if todos.len() == 0 {
        Seq::empty()
    } else {
        "Pending tasks for @"@ + me + ":\n\n"@ + task_entries(todos, true)
    }
}

/// Where the overview starts listing messages: behind the last one that was seen.
pub open spec fn unread_since(last_read: Option<Timestamp>) -> Since {
    match last_read {
        Some(t) => Since::Time(t),
        None => Since::Beginning,
    }
}

/// What `collab status` prints: the roster, the unread messages and the pending tasks, each where
/// the server could be asked for it, together with the time up to which messages count as seen.
pub fn show_status(
    me: &String,
    roster: &Option<Vec<WorkerInfo>>,
    messages: Option<Vec<Message>>,
    todos: &Option<Vec<Todo>>,
    last_read: Option<Timestamp>,
    links: &Links,
) -> (r: (String, Option<Timestamp>))
    ensures
        r.0@ == (match *roster {
            Some(w) => status_roster(w@, me@),
            None => Seq::empty(),
        }) + (match messages {
            Some(m) => received_list(
                "Unread messages for @"@,
                client::inbox(m@, *me, unread_since(last_read), None),
                me@,
                Seq::empty(),
                *links,
            ),
            None => Seq::empty(),
        }) + (match *todos {
            Some(t) => status_tasks(t@, me@),
            None => Seq::empty(),
        }),
        r.1 == (match messages {
            Some(m) => client::seen_after(last_read, m@),
            None => last_read,
        }),
{
    let first = match roster {
        Some(w) => if w.len() == 0 {
            "No active workers.\n\n".to_owned()
        } else {
            text::glue(
                "Active workers:\n\n",
                entries_of_workers(w, me.as_str(), " \u{25c0} you", false).as_str(),
            )
        },
        None => String::new(),
    };
    let mut seen = last_read;
    let second = match messages {
        Some(m) => {
            seen = client::update_last_read(last_read, &m);
            let since = match last_read {
                Some(t) => Since::Time(t),
                None => Since::Beginning,
            };
            let unread = client::list_messages(m, me, since, &None);
            let nobody: Vec<String> = Vec::new();
            assert(text::texts(nobody@) =~= Seq::<Seq<char>>::empty());
            list_received("Unread messages for @", &unread, me.as_str(), &nobody, links)
        },
        None => String::new(),
    };
    let third = match todos {
        Some(t) => if t.len() == 0 {
            String::new()
        } else {
            let head = text::glue3("Pending tasks for @", me.as_str(), ":\n\n");
            text::glue(head.as_str(), entries_of_tasks(t, true).as_str())
        },
        None => String::new(),
    };
    (text::glue3(first.as_str(), second.as_str(), third.as_str()), seen)
}

// ── What is said of an action ───────────────────────────────────────────────
/// The line that says when a message was taken in.
pub open spec fn time_line(m: Message) -> Seq<char> {
    "\n  Time: "@ + clock::shown(m.timestamp, "%Y-%m-%d %H:%M:%S UTC"@) + "\n"@
}

fn line_of_time(m: &Message) -> (r: String)
    ensures
        r@ == time_line(*m),
{
    text::glue3("\n  Time: ", clock::date_and_time(m.timestamp).as_str(), "\n")
}

/// What is said of a message that was sent.
pub fn add_message(recipient: &str, m: &Message, links: &Links) -> (r: String)
    ensures
        r@ == "\u{2192} @"@ + recipient@ + "  "@ + short_link(m.hash@, *links) + time_line(*m),
{
    let mut r = text::glue3("\u{2192} @", recipient, "  ");
    r.append(link_short(m.hash.as_str(), links).as_str());
    r.append(line_of_time(m).as_str());
    r
}

/// What is said of a message that was sent to everybody.
pub fn broadcast(m: &Message, links: &Links) -> (r: String)
    ensures
        r@ == "\u{2192} @all  "@ + short_link(m.hash@, *links) + "  [broadcast]"@ + time_line(*m)
            + "  (visible to all workers on their next `collab list`)\n"@,
{
    let mut r = text::glue3(
        "\u{2192} @all  ",
        link_short(m.hash.as_str(), links).as_str(),
        "  [broadcast]",
    );
    r.append(line_of_time(m).as_str());
    r.append("  (visible to all workers on their next `collab list`)\n");
    r
}

/// What is said before an answer to the latest message of somebody.
pub fn replying_to(m: &Message, sender: &str, links: &Links) -> (r: String)
    ensures
        r@ == "Replying to "@ + clock::shown(m.timestamp, "%H:%M:%S UTC"@) + " ["@ + short_link(
            m.hash@,
            *links,
        ) + "] from @"@ + text::bare_name(sender@) + "\n"@,
{
    let mut r = text::glue3("Replying to ", clock::time_of_day(m.timestamp).as_str(), " [");
    r.append(link_short(m.hash.as_str(), links).as_str());
    r.append("] from @");
    r.append(text::without_at(sender).as_str());
    r.append("\n");
    r
}

/// What is said of a stop signal, and of the `cleared` workers whose presence went with it.
pub fn stop_all(m: &Message, cleared: Option<usize>, links: &Links) -> (r: String)
    ensures
        r@ == "\u{26d4} Stop signal broadcast to @all  ["@ + short_link(m.hash@, *links) + "]\n"@
            + (match cleared {
            Some(n) => "  Cleared presence for "@ + text::decimal(n as nat)
                + " worker(s) \u{2014} roster is now empty.\n"@,
            None => Seq::empty(),
        }) + "  Running `collab stream` instances will exit.\n"@,
{
    let mut r = text::glue3(
        "\u{26d4} Stop signal broadcast to @all  [",
        link_short(m.hash.as_str(), links).as_str(),
        "]\n",
    );
    let middle = match cleared {
        Some(n) => text::glue3(
            "  Cleared presence for ",
            text::count(n).as_str(),
            " worker(s) \u{2014} roster is now empty.\n",
        ),
        None => String::new(),
    };
    r.append(middle.as_str());
    r.append("  Running `collab stream` instances will exit.\n");
    r
}

/// What is said of a task that was assigned.
pub fn todo_add(t: &Todo) -> (r: String)
    ensures
        r@ == "\u{2192} @"@ + t.instance@ + "  "@ + short(t.hash@) + "\n  "@ + t.description@
            + "\n"@,
{
    let mut r = text::glue3("\u{2192} @", t.instance.as_str(), "  ");
    r.append(short_hash(t.hash.as_str()).as_str());
    r.append("\n  ");
    r.append(t.description.as_str());
    r.append("\n");
    r
}

/// Why a task could not be assigned, where `status` is how the server's answer reads; nothing
/// where the answer is a success.
pub fn todo_refused(code: u16, status: &str) -> (r: Option<String>)
    ensures
        text::opt_text(r) == (if code == 400 {
            Some("Bad request \u{2014} check instance ID and description length"@)
        } else if 200 <= code < 300 {
            None
        } else {
            Some("Server error: "@ + status@)
        }),
{
    if code == 400 {
        Some("Bad request \u{2014} check instance ID and description length".to_owned())
    } else if 200 <= code && code < 300 {
        None
    } else {
        Some(text::glue("Server error: ", status))
    }
}

/// What is said of a task that was to be closed, where `status` is how the server's answer reads.
pub fn todo_done(code: u16, status: &str, prefix: &str) -> (r: Result<String, String>)
    ensures
        match r {
            Ok(s) => code == 204 && s@ == "\u{2713}  Task "@ + prefix@ + " marked complete."@,
            Err(e) => code != 204 && e@ == (if code == 409 {
                "Task "@ + prefix@ + " already completed (409)."@
            } else if code == 404 {
                "Task "@ + prefix@ + " not found."@
            } else {
                "Server error: "@ + status@
            }),
        },
{
    match client::done_outcome(code) {
        client::DoneOutcome::Done => Ok(
            text::glue3("\u{2713}  Task ", prefix, " marked complete."),
        ),
        client::DoneOutcome::AlreadyDone => Err(
            text::glue3("Task ", prefix, " already completed (409)."),
        ),
        client::DoneOutcome::NotFound => Err(text::glue3("Task ", prefix, " not found.")),
        client::DoneOutcome::Failed(_) => Err(text::glue("Server error: ", status)),
    }
}

/// Why no message is shown for the front of a hash; nothing where one was found.
pub fn not_shown(found: &client::Lookup, prefix: &str) -> (r: Option<String>)
    ensures
        text::opt_text(r) == (match *found {
            client::Lookup::Missing => Some(
                "No message found with hash starting '"@ + client::typed_prefix(prefix@) + "'"@,
            ),
            client::Lookup::Ambiguous(n) => Some(
                "Ambiguous: "@ + text::decimal(n as nat) + " messages match '"@
                    + client::typed_prefix(prefix@) + "', use more characters"@,
            ),
            client::Lookup::Found(_) => None,
        }),
{
    match found {
        client::Lookup::Missing => Some(
            text::glue3(
                "No message found with hash starting '",
                client::hash_prefix(prefix).as_str(),
                "'",
            ),
        ),
        client::Lookup::Ambiguous(n) => {
            let mut r = text::glue3("Ambiguous: ", text::count(*n).as_str(), " messages match '");
            r.append(client::hash_prefix(prefix).as_str());
            r.append("', use more characters");
            Some(r)
        },
        client::Lookup::Found(_) => None,
    }
}

/// Every message has its entry in a listing, in order.
pub proof fn each_received_message_is_listed(
    a: Seq<Message>,
    b: Seq<Message>,
    x: Message,
    replied: Seq<Seq<char>>,
    links: Links,
)
    ensures
        received_entries(a + b, replied, links) == received_entries(a, replied, links) + received_entries(b, replied, links),
        received_entries(seq![x], replied, links) == (entry(received_head(x, replied, links), x, links)),
    decreases b.len(),
{
    let one = seq![x];
    assert(one.drop_last() =~= Seq::<Message>::empty());
    assert(received_entries(one.drop_last(), replied, links).len() == 0);
    assert(received_entries(one, replied, links) =~= (entry(received_head(x, replied, links), x, links)));
    if b.len() == 0 {
        assert(a + b =~= a);
        assert(received_entries(a, replied, links) + received_entries(b, replied, links) =~= received_entries(a, replied, links));
    } else {
        each_received_message_is_listed(a, b.drop_last(), x, replied, links);
        assert((a + b).drop_last() =~= a + b.drop_last());
        assert((a + b).last() == b.last());
        assert(received_entries(a + b, replied, links) =~= received_entries(a, replied, links) + received_entries(b, replied, links));
    }
}

/// Every message has its entry in a history, in order.
pub proof fn each_message_of_the_history_is_listed(
    a: Seq<Message>,
    b: Seq<Message>,
    x: Message,
    me: Seq<char>,
    links: Links,
)
    ensures
        history_entries(a + b, me, links) == history_entries(a, me, links) + history_entries(b, me, links),
        history_entries(seq![x], me, links) == (entry(history_head(x, me, links), x, links)),
    decreases b.len(),
{
    let one = seq![x];
    assert(one.drop_last() =~= Seq::<Message>::empty());
    assert(history_entries(one.drop_last(), me, links).len() == 0);
    assert(history_entries(one, me, links) =~= (entry(history_head(x, me, links), x, links)));
    if b.len() == 0 {
        assert(a + b =~= a);
        assert(history_entries(a, me, links) + history_entries(b, me, links) =~= history_entries(a, me, links));
    } else {
        each_message_of_the_history_is_listed(a, b.drop_last(), x, me, links);
        assert((a + b).drop_last() =~= a + b.drop_last());
        assert((a + b).last() == b.last());
        assert(history_entries(a + b, me, links) =~= history_entries(a, me, links) + history_entries(b, me, links));
    }
}

/// Every worker has its entry in a roster, in order.
pub proof fn each_worker_is_listed(
    a: Seq<WorkerInfo>,
    b: Seq<WorkerInfo>,
    x: WorkerInfo,
    me: Seq<char>,
    you: Seq<char>,
    counted: bool,
)
    ensures
        worker_entries(a + b, me, you, counted) == worker_entries(a, me, you, counted) + worker_entries(b, me, you, counted),
        worker_entries(seq![x], me, you, counted) == (worker_entry(x, me, you, counted)),
    decreases b.len(),
{
    let one = seq![x];
    assert(one.drop_last() =~= Seq::<WorkerInfo>::empty());
    assert(worker_entries(one.drop_last(), me, you, counted).len() == 0);
    assert(worker_entries(one, me, you, counted) =~= (worker_entry(x, me, you, counted)));
    if b.len() == 0 {
        assert(a + b =~= a);
        assert(worker_entries(a, me, you, counted) + worker_entries(b, me, you, counted) =~= worker_entries(a, me, you, counted));
    } else {
        each_worker_is_listed(a, b.drop_last(), x, me, you, counted);
        assert((a + b).drop_last() =~= a + b.drop_last());
        assert((a + b).last() == b.last());
        assert(worker_entries(a + b, me, you, counted) =~= worker_entries(a, me, you, counted) + worker_entries(b, me, you, counted));
    }
}

/// Every task has its entry in a listing, in order.
pub proof fn each_task_is_listed(a: Seq<Todo>, b: Seq<Todo>, x: Todo, brief: bool)
    ensures
        task_entries(a + b, brief) == task_entries(a, brief) + task_entries(b, brief),
        task_entries(seq![x], brief) == (if brief {
            task_brief(x)
        } else {
            task_entry(x)
        }),
    decreases b.len(),
{
    let one = seq![x];
    assert(one.drop_last() =~= Seq::<Todo>::empty());
    assert(task_entries(one.drop_last(), brief).len() == 0);
    assert(task_entries(one, brief) =~= (if brief {
            task_brief(x)
        } else {
            task_entry(x)
        }));
    if b.len() == 0 {
        assert(a + b =~= a);
        assert(task_entries(a, brief) + task_entries(b, brief) =~= task_entries(a, brief));
    } else {
        each_task_is_listed(a, b.drop_last(), x, brief);
        assert((a + b).drop_last() =~= a + b.drop_last());
        assert((a + b).last() == b.last());
        assert(task_entries(a + b, brief) =~= task_entries(a, brief) + task_entries(b, brief));
    }
}

/// An entry holds its heading, when the message was sent, what it refers to and all of its content.
pub proof fn entries_hold_the_message(head: Seq<char>, m: Message, links: Links)
    ensures
        text::holds(entry(head, m, links), head),
        text::holds(entry(head, m, links), clock::shown(m.timestamp, "%Y-%m-%d %H:%M:%S UTC"@)),
        text::holds(entry(head, m, links), refs_line(text::texts(m.refs@), links)),
        text::holds(entry(head, m, links), m.content@),
{
    let p0 = RULE@;
    let p1 = "\n"@;
    let p2 = head;
    let p3 = "\nTime: "@;
    let p4 = clock::shown(m.timestamp, "%Y-%m-%d %H:%M:%S UTC"@);
    let p5 = "\n"@;
    let p6 = refs_line(text::texts(m.refs@), links);
    let p7 = "\n"@;
    let p8 = m.content@;
    let p9 = "\n\n"@;
    text::end_is_held(p0 + p1, p2);
    text::held_with_more(p0 + p1 + p2, p3, p2);
    text::held_with_more(p0 + p1 + p2 + p3, p4, p2);
    text::held_with_more(p0 + p1 + p2 + p3 + p4, p5, p2);
    text::held_with_more(p0 + p1 + p2 + p3 + p4 + p5, p6, p2);
    text::held_with_more(p0 + p1 + p2 + p3 + p4 + p5 + p6, p7, p2);
    text::held_with_more(p0 + p1 + p2 + p3 + p4 + p5 + p6 + p7, p8, p2);
    text::held_with_more(p0 + p1 + p2 + p3 + p4 + p5 + p6 + p7 + p8, p9, p2);
    text::end_is_held(p0 + p1 + p2 + p3, p4);
    text::held_with_more(p0 + p1 + p2 + p3 + p4, p5, p4);
    text::held_with_more(p0 + p1 + p2 + p3 + p4 + p5, p6, p4);
    text::held_with_more(p0 + p1 + p2 + p3 + p4 + p5 + p6, p7, p4);
    text::held_with_more(p0 + p1 + p2 + p3 + p4 + p5 + p6 + p7, p8, p4);
    text::held_with_more(p0 + p1 + p2 + p3 + p4 + p5 + p6 + p7 + p8, p9, p4);
    text::end_is_held(p0 + p1 + p2 + p3 + p4 + p5, p6);
    text::held_with_more(p0 + p1 + p2 + p3 + p4 + p5 + p6, p7, p6);
    text::held_with_more(p0 + p1 + p2 + p3 + p4 + p5 + p6 + p7, p8, p6);
    text::held_with_more(p0 + p1 + p2 + p3 + p4 + p5 + p6 + p7 + p8, p9, p6);
    text::end_is_held(p0 + p1 + p2 + p3 + p4 + p5 + p6 + p7, p8);
    text::held_with_more(p0 + p1 + p2 + p3 + p4 + p5 + p6 + p7 + p8, p9, p8);
}

/// A heading of a received message begins with its sender, and says whether it was replied to, or
/// else whether it went to everybody.
pub proof fn headings_name_the_sender(m: Message, replied: Seq<Seq<char>>, links: Links)
    ensures
        ("\u{2190} @"@ + m.sender@).is_prefix_of(received_head(m, replied, links)),
        text::holds(received_head(m, replied, links), short_link(m.hash@, links)),
        replied.contains(m.hash@) ==> " [replied]"@.is_suffix_of(received_head(m, replied, links)),
        !replied.contains(m.hash@) && m.recipient@ == "all"@ ==> " [broadcast]"@.is_suffix_of(
            received_head(m, replied, links),
        ),
        !replied.contains(m.hash@) && m.recipient@ != "all"@ ==> short_link(
            m.hash@,
            links,
        ).is_suffix_of(received_head(m, replied, links)),
{
    let h = received_head(m, replied, links);
    let a = "\u{2190} @"@ + m.sender@;
    let s = short_link(m.hash@, links);
    let tag = if replied.contains(m.hash@) {
        " [replied]"@
    } else {
        broadcast_tag(m.recipient@)
    };
    assert(a =~= h.subrange(0, a.len() as int));
    text::middle_is_held(a + "  "@, s, tag);
    assert(tag =~= h.subrange(h.len() - tag.len(), h.len() as int));
    if tag.len() == 0 {
        assert(s =~= h.subrange(h.len() - s.len(), h.len() as int));
    }
}

/// A heading in a history begins with the other side: whom a message of one's own went to, or whom
/// any other came from.
pub proof fn histories_name_the_other_side(m: Message, me: Seq<char>, links: Links)
    ensures
        m.sender@ == me ==> ("\u{2192} @"@ + m.recipient@).is_prefix_of(history_head(m, me, links)),
        m.sender@ != me ==> ("\u{2190} @"@ + m.sender@).is_prefix_of(history_head(m, me, links)),
        (" ["@ + short_link(m.hash@, links) + "]"@).is_suffix_of(history_head(m, me, links)),
{
    let h = history_head(m, me, links);
    let a = if m.sender@ == me {
        "\u{2192} @"@ + m.recipient@
    } else {
        "\u{2190} @"@ + m.sender@
    };
    let e = " ["@ + short_link(m.hash@, links) + "]"@;
    assert(a =~= h.subrange(0, a.len() as int));
    assert(e =~= h.subrange(h.len() - e.len(), h.len() as int));
}

/// The front of a hash is its first characters in at most seven bytes.
pub proof fn short_hashes_are_fronts(hash: Seq<char>)
    ensures
        short(hash).is_prefix_of(hash),
        text::byte_len(short(hash)) <= 7,
        text::byte_len(hash) <= 7 ==> short(hash) == hash,
        short(hash).len() < hash.len() ==> text::byte_len(
            hash.take(short(hash).len() as int + 1),
        ) > 7,
{
    text::fitting_meaning(hash, 7);
    let k = text::fitting(hash, 7) as int;
    assert(short(hash) =~= hash.subrange(0, k));
    if text::byte_len(hash) <= 7 && k < hash.len() {
        let a = hash.take(k + 1);
        let b = hash.skip(k + 1);
        assert(hash =~= a + b);
        text::encoding_of_sum(a, b);
    }
    if k == hash.len() {
        assert(hash.take(k) =~= hash);
    }
}

/// References are told exactly where there are any, each by its first seven characters, in order.
pub proof fn references_are_told(refs: Seq<Seq<char>>, links: Links, i: int)
    ensures
        refs.len() == 0 ==> refs_line(refs, links).len() == 0,
        0 <= i < refs.len() ==> text::holds(
            refs_line(refs, links),
            client::linked(
                refs[i].take(
                    if refs[i].len() < 7 {
                        refs[i].len() as int
                    } else {
                        7
                    },
                ),
                links.tty,
                text::opt_text(links.repo),
            ),
        ),
        ref_links(refs, links).len() == refs.len(),
{
    if 0 <= i < refs.len() {
        let all = ref_links(refs, links);
        text::joined_texts_are_held(all, ", "@, i);
        text::held_in_part("Refs: "@, text::joined(all, ", "@), "\n"@, all[i]);
        if refs[i].len() < 7 {
            assert(refs[i].take(refs[i].len() as int) =~= refs[i]);
        }
        if refs[i].len() == 7 {
            assert(refs[i].take(7) =~= refs[i]);
        }
    }
}

/// A worker's entry begins with its name, marks the one who asks, and tells its role where it has one
/// and how much it wrote where that is asked for.
pub proof fn workers_are_told(w: WorkerInfo, me: Seq<char>, you: Seq<char>, counted: bool)
    ensures
        ("  @"@ + w.instance_id@).is_prefix_of(worker_entry(w, me, you, counted)),
        w.instance_id@ == me ==> ("  @"@ + w.instance_id@ + you).is_prefix_of(
            worker_entry(w, me, you, counted),
        ),
        w.role@.len() > 0 ==> text::holds(worker_entry(w, me, you, counted), w.role@),
        counted && w.message_count > 0 ==> text::holds(
            worker_entry(w, me, you, counted),
            "    Messages: "@ + text::decimal(w.message_count as nat) + "\n"@,
        ),
        text::holds(
            worker_entry(w, me, you, counted),
            clock::shown(w.last_seen, "%H:%M:%S UTC"@),
        ),
{
    let p0 = "  @"@;
    let p1 = w.instance_id@;
    let p2 = if w.instance_id@ == me {
        you
    } else {
        Seq::empty()
    };
    let p3 = if w.role@.len() > 0 {
        "  \u{2014}  "@ + w.role@
    } else {
        Seq::empty()
    };
    let p4 = "\n    Last seen: "@;
    let p5 = clock::shown(w.last_seen, "%H:%M:%S UTC"@);
    let p6 = "\n"@;
    let p7 = if counted && w.message_count > 0 {
        "    Messages: "@ + text::decimal(w.message_count as nat) + "\n"@
    } else {
        Seq::empty()
    };
    let p8 = "\n"@;
    text::end_is_held(p0 + p1 + p2, p3);
    text::held_with_more(p0 + p1 + p2 + p3, p4, p3);
    text::held_with_more(p0 + p1 + p2 + p3 + p4, p5, p3);
    text::held_with_more(p0 + p1 + p2 + p3 + p4 + p5, p6, p3);
    text::held_with_more(p0 + p1 + p2 + p3 + p4 + p5 + p6, p7, p3);
    text::held_with_more(p0 + p1 + p2 + p3 + p4 + p5 + p6 + p7, p8, p3);
    text::end_is_held(p0 + p1 + p2 + p3 + p4, p5);
    text::held_with_more(p0 + p1 + p2 + p3 + p4 + p5, p6, p5);
    text::held_with_more(p0 + p1 + p2 + p3 + p4 + p5 + p6, p7, p5);
    text::held_with_more(p0 + p1 + p2 + p3 + p4 + p5 + p6 + p7, p8, p5);
    text::end_is_held(p0 + p1 + p2 + p3 + p4 + p5 + p6, p7);
    text::held_with_more(p0 + p1 + p2 + p3 + p4 + p5 + p6 + p7, p8, p7);

    let whole = worker_entry(w, me, you, counted);
    if w.role@.len() > 0 {
        text::end_is_held("  \u{2014}  "@, w.role@);
        text::held_through(whole, p3, w.role@);
    }
    let front = p0 + p1 + p2;
    let rest = p3 + p4 + p5 + p6 + p7 + p8;
    assert(whole =~= front + rest);
    text::fronts_stay(front, rest);
    text::fronts_stay(p0 + p1, p2 + rest);
    assert(whole =~= p0 + p1 + (p2 + rest));
}

/// A short entry of a task tells its hash, what is to be done and who gave it.
pub proof fn brief_tasks_are_told(t: Todo)
    ensures
        text::holds(task_brief(t), short(t.hash@)),
        text::holds(task_brief(t), t.description@),
        text::holds(task_brief(t), t.assigned_by@),
        text::holds(task_brief(t), clock::shown(t.created_at, "%Y-%m-%d %H:%M UTC"@)),
{
    let p0 = "  "@;
    let p1 = short(t.hash@);
    let p2 = "  "@;
    let p3 = t.description@;
    let p4 = "\n  from @"@;
    let p5 = t.assigned_by@;
    let p6 = "  \u{2014}  "@;
    let p7 = clock::shown(t.created_at, "%Y-%m-%d %H:%M UTC"@);
    let p8 = "\n\n"@;
    text::end_is_held(p0, p1);
    text::held_with_more(p0 + p1, p2, p1);
    text::held_with_more(p0 + p1 + p2, p3, p1);
    text::held_with_more(p0 + p1 + p2 + p3, p4, p1);
    text::held_with_more(p0 + p1 + p2 + p3 + p4, p5, p1);
    text::held_with_more(p0 + p1 + p2 + p3 + p4 + p5, p6, p1);
    text::held_with_more(p0 + p1 + p2 + p3 + p4 + p5 + p6, p7, p1);
    text::held_with_more(p0 + p1 + p2 + p3 + p4 + p5 + p6 + p7, p8, p1);
    text::end_is_held(p0 + p1 + p2, p3);
    text::held_with_more(p0 + p1 + p2 + p3, p4, p3);
    text::held_with_more(p0 + p1 + p2 + p3 + p4, p5, p3);
    text::held_with_more(p0 + p1 + p2 + p3 + p4 + p5, p6, p3);
    text::held_with_more(p0 + p1 + p2 + p3 + p4 + p5 + p6, p7, p3);
    text::held_with_more(p0 + p1 + p2 + p3 + p4 + p5 + p6 + p7, p8, p3);
    text::end_is_held(p0 + p1 + p2 + p3 + p4, p5);
    text::held_with_more(p0 + p1 + p2 + p3 + p4 + p5, p6, p5);
    text::held_with_more(p0 + p1 + p2 + p3 + p4 + p5 + p6, p7, p5);
    text::held_with_more(p0 + p1 + p2 + p3 + p4 + p5 + p6 + p7, p8, p5);
    text::end_is_held(p0 + p1 + p2 + p3 + p4 + p5 + p6, p7);
    text::held_with_more(p0 + p1 + p2 + p3 + p4 + p5 + p6 + p7, p8, p7);
}

/// An entry of a task tells its hash, what is to be done and who gave it.
pub proof fn tasks_are_told(t: Todo)
    ensures
        text::holds(task_entry(t), short(t.hash@)),
        text::holds(task_entry(t), t.assigned_by@),
        text::holds(task_entry(t), t.description@),
        text::holds(task_entry(t), clock::shown(t.created_at, "%Y-%m-%d %H:%M UTC"@)),
{
    let p0 = RULE@;
    let p1 = "\n  "@;
    let p2 = short(t.hash@);
    let p3 = "  (from @"@;
    let p4 = t.assigned_by@;
    let p5 = ")\n  "@;
    let p6 = t.description@;
    let p7 = "\n  Assigned: "@;
    let p8 = clock::shown(t.created_at, "%Y-%m-%d %H:%M UTC"@);
    let p9 = "\n"@;
    text::end_is_held(p0 + p1, p2);
    text::held_with_more(p0 + p1 + p2, p3, p2);
    text::held_with_more(p0 + p1 + p2 + p3, p4, p2);
    text::held_with_more(p0 + p1 + p2 + p3 + p4, p5, p2);
    text::held_with_more(p0 + p1 + p2 + p3 + p4 + p5, p6, p2);
    text::held_with_more(p0 + p1 + p2 + p3 + p4 + p5 + p6, p7, p2);
    text::held_with_more(p0 + p1 + p2 + p3 + p4 + p5 + p6 + p7, p8, p2);
    text::held_with_more(p0 + p1 + p2 + p3 + p4 + p5 + p6 + p7 + p8, p9, p2);
    text::end_is_held(p0 + p1 + p2 + p3, p4);
    text::held_with_more(p0 + p1 + p2 + p3 + p4, p5, p4);
    text::held_with_more(p0 + p1 + p2 + p3 + p4 + p5, p6, p4);
    text::held_with_more(p0 + p1 + p2 + p3 + p4 + p5 + p6, p7, p4);
    text::held_with_more(p0 + p1 + p2 + p3 + p4 + p5 + p6 + p7, p8, p4);
    text::held_with_more(p0 + p1 + p2 + p3 + p4 + p5 + p6 + p7 + p8, p9, p4);
    text::end_is_held(p0 + p1 + p2 + p3 + p4 + p5, p6);
    text::held_with_more(p0 + p1 + p2 + p3 + p4 + p5 + p6, p7, p6);
    text::held_with_more(p0 + p1 + p2 + p3 + p4 + p5 + p6 + p7, p8, p6);
    text::held_with_more(p0 + p1 + p2 + p3 + p4 + p5 + p6 + p7 + p8, p9, p6);
    text::end_is_held(p0 + p1 + p2 + p3 + p4 + p5 + p6 + p7, p8);
    text::held_with_more(p0 + p1 + p2 + p3 + p4 + p5 + p6 + p7 + p8, p9, p8);
}

/// A streamed message is shown with its sender, its hash and all of its content.
pub proof fn streamed_messages_are_whole(m: Message, links: Links)
    ensures
        text::holds(streamed_message(m, links), m.sender@),
        text::holds(streamed_message(m, links), short_link(m.hash@, links)),
        text::holds(streamed_message(m, links), refs_line(text::texts(m.refs@), links)),
        text::holds(streamed_message(m, links), m.content@),
{
    let p0 = HEAVY_RULE@;
    let p1 = "\n\u{2190} @"@;
    let p2 = m.sender@;
    let p3 = broadcast_tag(m.recipient@);
    let p4 = "  "@;
    let p5 = clock::shown(m.timestamp, "%H:%M:%S UTC"@);
    let p6 = "\nHash: "@;
    let p7 = short_link(m.hash@, links);
    let p8 = "\n"@;
    let p9 = refs_line(text::texts(m.refs@), links);
    let p10 = "\n"@;
    let p11 = m.content@;
    let p12 = "\n\n"@;
    let p13 = HEAVY_RULE@;
    let p14 = "\n\n"@;
    text::end_is_held(p0 + p1, p2);
    text::held_with_more(p0 + p1 + p2, p3, p2);
    text::held_with_more(p0 + p1 + p2 + p3, p4, p2);
    text::held_with_more(p0 + p1 + p2 + p3 + p4, p5, p2);
    text::held_with_more(p0 + p1 + p2 + p3 + p4 + p5, p6, p2);
    text::held_with_more(p0 + p1 + p2 + p3 + p4 + p5 + p6, p7, p2);
    text::held_with_more(p0 + p1 + p2 + p3 + p4 + p5 + p6 + p7, p8, p2);
    text::held_with_more(p0 + p1 + p2 + p3 + p4 + p5 + p6 + p7 + p8, p9, p2);
    text::held_with_more(p0 + p1 + p2 + p3 + p4 + p5 + p6 + p7 + p8 + p9, p10, p2);
    text::held_with_more(p0 + p1 + p2 + p3 + p4 + p5 + p6 + p7 + p8 + p9 + p10, p11, p2);
    text::held_with_more(p0 + p1 + p2 + p3 + p4 + p5 + p6 + p7 + p8 + p9 + p10 + p11, p12, p2);
    text::held_with_more(p0 + p1 + p2 + p3 + p4 + p5 + p6 + p7 + p8 + p9 + p10 + p11 + p12, p13, p2);
    text::held_with_more(p0 + p1 + p2 + p3 + p4 + p5 + p6 + p7 + p8 + p9 + p10 + p11 + p12 + p13, p14, p2);
    text::end_is_held(p0 + p1 + p2 + p3 + p4 + p5 + p6, p7);
    text::held_with_more(p0 + p1 + p2 + p3 + p4 + p5 + p6 + p7, p8, p7);
    text::held_with_more(p0 + p1 + p2 + p3 + p4 + p5 + p6 + p7 + p8, p9, p7);
    text::held_with_more(p0 + p1 + p2 + p3 + p4 + p5 + p6 + p7 + p8 + p9, p10, p7);
    text::held_with_more(p0 + p1 + p2 + p3 + p4 + p5 + p6 + p7 + p8 + p9 + p10, p11, p7);
    text::held_with_more(p0 + p1 + p2 + p3 + p4 + p5 + p6 + p7 + p8 + p9 + p10 + p11, p12, p7);
    text::held_with_more(p0 + p1 + p2 + p3 + p4 + p5 + p6 + p7 + p8 + p9 + p10 + p11 + p12, p13, p7);
    text::held_with_more(p0 + p1 + p2 + p3 + p4 + p5 + p6 + p7 + p8 + p9 + p10 + p11 + p12 + p13, p14, p7);
    text::end_is_held(p0 + p1 + p2 + p3 + p4 + p5 + p6 + p7 + p8, p9);
    text::held_with_more(p0 + p1 + p2 + p3 + p4 + p5 + p6 + p7 + p8 + p9, p10, p9);
    text::held_with_more(p0 + p1 + p2 + p3 + p4 + p5 + p6 + p7 + p8 + p9 + p10, p11, p9);
    text::held_with_more(p0 + p1 + p2 + p3 + p4 + p5 + p6 + p7 + p8 + p9 + p10 + p11, p12, p9);
    text::held_with_more(p0 + p1 + p2 + p3 + p4 + p5 + p6 + p7 + p8 + p9 + p10 + p11 + p12, p13, p9);
    text::held_with_more(p0 + p1 + p2 + p3 + p4 + p5 + p6 + p7 + p8 + p9 + p10 + p11 + p12 + p13, p14, p9);
    text::end_is_held(p0 + p1 + p2 + p3 + p4 + p5 + p6 + p7 + p8 + p9 + p10, p11);
    text::held_with_more(p0 + p1 + p2 + p3 + p4 + p5 + p6 + p7 + p8 + p9 + p10 + p11, p12, p11);
    text::held_with_more(p0 + p1 + p2 + p3 + p4 + p5 + p6 + p7 + p8 + p9 + p10 + p11 + p12, p13, p11);
    text::held_with_more(p0 + p1 + p2 + p3 + p4 + p5 + p6 + p7 + p8 + p9 + p10 + p11 + p12 + p13, p14, p11);
}

/// A message is shown with its hash, its sender, its recipient and all of its content.
pub proof fn shown_messages_are_whole(m: Message, me: Seq<char>, links: Links)
    ensures
        text::holds(shown_message(m, me, links), short_link(m.hash@, links)),
        text::holds(shown_message(m, me, links), m.sender@),
        text::holds(shown_message(m, me, links), m.recipient@),
        text::holds(shown_message(m, me, links), (if m.sender@ == me {
        "you \u{2192} @"@ + m.recipient@
    } else {
        "@"@ + m.sender@ + " \u{2192} you"@
    })),
        text::holds(shown_message(m, me, links), refs_line(text::texts(m.refs@), links)),
        text::holds(shown_message(m, me, links), m.content@),
{
    let p0 = RULE@;
    let p1 = "\nHash: "@;
    let p2 = short_link(m.hash@, links);
    let p3 = "\nFrom: @"@;
    let p4 = m.sender@;
    let p5 = "  To: @"@;
    let p6 = m.recipient@;
    let p7 = "\nDir:  "@;
    let p8 = (if m.sender@ == me {
        "you \u{2192} @"@ + m.recipient@
    } else {
        "@"@ + m.sender@ + " \u{2192} you"@
    });
    let p9 = "\nTime: "@;
    let p10 = clock::shown(m.timestamp, "%Y-%m-%d %H:%M:%S UTC"@);
    let p11 = "\n"@;
    let p12 = refs_line(text::texts(m.refs@), links);
    let p13 = "\n"@;
    let p14 = m.content@;
    let p15 = "\n"@;
    let p16 = RULE@;
    let p17 = "\n"@;
    text::end_is_held(p0 + p1, p2);
    text::held_with_more(p0 + p1 + p2, p3, p2);
    text::held_with_more(p0 + p1 + p2 + p3, p4, p2);
    text::held_with_more(p0 + p1 + p2 + p3 + p4, p5, p2);
    text::held_with_more(p0 + p1 + p2 + p3 + p4 + p5, p6, p2);
    text::held_with_more(p0 + p1 + p2 + p3 + p4 + p5 + p6, p7, p2);
    text::held_with_more(p0 + p1 + p2 + p3 + p4 + p5 + p6 + p7, p8, p2);
    text::held_with_more(p0 + p1 + p2 + p3 + p4 + p5 + p6 + p7 + p8, p9, p2);
    text::held_with_more(p0 + p1 + p2 + p3 + p4 + p5 + p6 + p7 + p8 + p9, p10, p2);
    text::held_with_more(p0 + p1 + p2 + p3 + p4 + p5 + p6 + p7 + p8 + p9 + p10, p11, p2);
    text::held_with_more(p0 + p1 + p2 + p3 + p4 + p5 + p6 + p7 + p8 + p9 + p10 + p11, p12, p2);
    text::held_with_more(p0 + p1 + p2 + p3 + p4 + p5 + p6 + p7 + p8 + p9 + p10 + p11 + p12, p13, p2);
    text::held_with_more(p0 + p1 + p2 + p3 + p4 + p5 + p6 + p7 + p8 + p9 + p10 + p11 + p12 + p13, p14, p2);
    text::held_with_more(p0 + p1 + p2 + p3 + p4 + p5 + p6 + p7 + p8 + p9 + p10 + p11 + p12 + p13 + p14, p15, p2);
    text::held_with_more(p0 + p1 + p2 + p3 + p4 + p5 + p6 + p7 + p8 + p9 + p10 + p11 + p12 + p13 + p14 + p15, p16, p2);
    text::held_with_more(p0 + p1 + p2 + p3 + p4 + p5 + p6 + p7 + p8 + p9 + p10 + p11 + p12 + p13 + p14 + p15 + p16, p17, p2);
    text::end_is_held(p0 + p1 + p2 + p3, p4);
    text::held_with_more(p0 + p1 + p2 + p3 + p4, p5, p4);
    text::held_with_more(p0 + p1 + p2 + p3 + p4 + p5, p6, p4);
    text::held_with_more(p0 + p1 + p2 + p3 + p4 + p5 + p6, p7, p4);
    text::held_with_more(p0 + p1 + p2 + p3 + p4 + p5 + p6 + p7, p8, p4);
    text::held_with_more(p0 + p1 + p2 + p3 + p4 + p5 + p6 + p7 + p8, p9, p4);
    text::held_with_more(p0 + p1 + p2 + p3 + p4 + p5 + p6 + p7 + p8 + p9, p10, p4);
    text::held_with_more(p0 + p1 + p2 + p3 + p4 + p5 + p6 + p7 + p8 + p9 + p10, p11, p4);
    text::held_with_more(p0 + p1 + p2 + p3 + p4 + p5 + p6 + p7 + p8 + p9 + p10 + p11, p12, p4);
    text::held_with_more(p0 + p1 + p2 + p3 + p4 + p5 + p6 + p7 + p8 + p9 + p10 + p11 + p12, p13, p4);
    text::held_with_more(p0 + p1 + p2 + p3 + p4 + p5 + p6 + p7 + p8 + p9 + p10 + p11 + p12 + p13, p14, p4);
    text::held_with_more(p0 + p1 + p2 + p3 + p4 + p5 + p6 + p7 + p8 + p9 + p10 + p11 + p12 + p13 + p14, p15, p4);
    text::held_with_more(p0 + p1 + p2 + p3 + p4 + p5 + p6 + p7 + p8 + p9 + p10 + p11 + p12 + p13 + p14 + p15, p16, p4);
    text::held_with_more(p0 + p1 + p2 + p3 + p4 + p5 + p6 + p7 + p8 + p9 + p10 + p11 + p12 + p13 + p14 + p15 + p16, p17, p4);
    text::end_is_held(p0 + p1 + p2 + p3 + p4 + p5, p6);
    text::held_with_more(p0 + p1 + p2 + p3 + p4 + p5 + p6, p7, p6);
    text::held_with_more(p0 + p1 + p2 + p3 + p4 + p5 + p6 + p7, p8, p6);
    text::held_with_more(p0 + p1 + p2 + p3 + p4 + p5 + p6 + p7 + p8, p9, p6);
    text::held_with_more(p0 + p1 + p2 + p3 + p4 + p5 + p6 + p7 + p8 + p9, p10, p6);
    text::held_with_more(p0 + p1 + p2 + p3 + p4 + p5 + p6 + p7 + p8 + p9 + p10, p11, p6);
    text::held_with_more(p0 + p1 + p2 + p3 + p4 + p5 + p6 + p7 + p8 + p9 + p10 + p11, p12, p6);
    text::held_with_more(p0 + p1 + p2 + p3 + p4 + p5 + p6 + p7 + p8 + p9 + p10 + p11 + p12, p13, p6);
    text::held_with_more(p0 + p1 + p2 + p3 + p4 + p5 + p6 + p7 + p8 + p9 + p10 + p11 + p12 + p13, p14, p6);
    text::held_with_more(p0 + p1 + p2 + p3 + p4 + p5 + p6 + p7 + p8 + p9 + p10 + p11 + p12 + p13 + p14, p15, p6);
    text::held_with_more(p0 + p1 + p2 + p3 + p4 + p5 + p6 + p7 + p8 + p9 + p10 + p11 + p12 + p13 + p14 + p15, p16, p6);
    text::held_with_more(p0 + p1 + p2 + p3 + p4 + p5 + p6 + p7 + p8 + p9 + p10 + p11 + p12 + p13 + p14 + p15 + p16, p17, p6);
    text::end_is_held(p0 + p1 + p2 + p3 + p4 + p5 + p6 + p7, p8);
    text::held_with_more(p0 + p1 + p2 + p3 + p4 + p5 + p6 + p7 + p8, p9, p8);
    text::held_with_more(p0 + p1 + p2 + p3 + p4 + p5 + p6 + p7 + p8 + p9, p10, p8);
    text::held_with_more(p0 + p1 + p2 + p3 + p4 + p5 + p6 + p7 + p8 + p9 + p10, p11, p8);
    text::held_with_more(p0 + p1 + p2 + p3 + p4 + p5 + p6 + p7 + p8 + p9 + p10 + p11, p12, p8);
    text::held_with_more(p0 + p1 + p2 + p3 + p4 + p5 + p6 + p7 + p8 + p9 + p10 + p11 + p12, p13, p8);
    text::held_with_more(p0 + p1 + p2 + p3 + p4 + p5 + p6 + p7 + p8 + p9 + p10 + p11 + p12 + p13, p14, p8);
    text::held_with_more(p0 + p1 + p2 + p3 + p4 + p5 + p6 + p7 + p8 + p9 + p10 + p11 + p12 + p13 + p14, p15, p8);
    text::held_with_more(p0 + p1 + p2 + p3 + p4 + p5 + p6 + p7 + p8 + p9 + p10 + p11 + p12 + p13 + p14 + p15, p16, p8);
    text::held_with_more(p0 + p1 + p2 + p3 + p4 + p5 + p6 + p7 + p8 + p9 + p10 + p11 + p12 + p13 + p14 + p15 + p16, p17, p8);
    text::end_is_held(p0 + p1 + p2 + p3 + p4 + p5 + p6 + p7 + p8 + p9 + p10 + p11, p12);
    text::held_with_more(p0 + p1 + p2 + p3 + p4 + p5 + p6 + p7 + p8 + p9 + p10 + p11 + p12, p13, p12);
    text::held_with_more(p0 + p1 + p2 + p3 + p4 + p5 + p6 + p7 + p8 + p9 + p10 + p11 + p12 + p13, p14, p12);
    text::held_with_more(p0 + p1 + p2 + p3 + p4 + p5 + p6 + p7 + p8 + p9 + p10 + p11 + p12 + p13 + p14, p15, p12);
    text::held_with_more(p0 + p1 + p2 + p3 + p4 + p5 + p6 + p7 + p8 + p9 + p10 + p11 + p12 + p13 + p14 + p15, p16, p12);
    text::held_with_more(p0 + p1 + p2 + p3 + p4 + p5 + p6 + p7 + p8 + p9 + p10 + p11 + p12 + p13 + p14 + p15 + p16, p17, p12);
    text::end_is_held(p0 + p1 + p2 + p3 + p4 + p5 + p6 + p7 + p8 + p9 + p10 + p11 + p12 + p13, p14);
    text::held_with_more(p0 + p1 + p2 + p3 + p4 + p5 + p6 + p7 + p8 + p9 + p10 + p11 + p12 + p13 + p14, p15, p14);
    text::held_with_more(p0 + p1 + p2 + p3 + p4 + p5 + p6 + p7 + p8 + p9 + p10 + p11 + p12 + p13 + p14 + p15, p16, p14);
    text::held_with_more(p0 + p1 + p2 + p3 + p4 + p5 + p6 + p7 + p8 + p9 + p10 + p11 + p12 + p13 + p14 + p15 + p16, p17, p14);
}

/// Only what went to everybody is marked as such, and what was never seen before is unread.
pub proof fn broadcasts_are_marked(recipient: Seq<char>, last_read: Option<Timestamp>)
    ensures
        recipient == "all"@ ==> broadcast_tag(recipient) == " [broadcast]"@,
        recipient != "all"@ ==> broadcast_tag(recipient).len() == 0,
        last_read is None ==> unread_since(last_read) == Since::Beginning,
        last_read matches Some(t) ==> unread_since(last_read) == Since::Time(t),
{
}

/// A listing of nothing is empty; any other holds the entries of all that it lists.
pub proof fn listings_hold_their_entries(
    heading: Seq<char>,
    messages: Seq<Message>,
    me: Seq<char>,
    with: Option<Seq<char>>,
    replied: Seq<Seq<char>>,
    links: Links,
    workers: Seq<WorkerInfo>,
    todos: Seq<Todo>,
)
    ensures
        messages.len() == 0 ==> received_list(heading, messages, me, replied, links).len() == 0,
        messages.len() > 0 ==> text::holds(
            received_list(heading, messages, me, replied, links),
            received_entries(messages, replied, links),
        ),
        messages.len() > 0 ==> text::holds(
            history_listing(messages, me, with, links),
            history_entries(messages, me, links),
        ),
        workers.len() > 0 ==> worker_entries(workers, me, " \u{25c0} you"@, false).is_suffix_of(
            status_roster(workers, me),
        ),
        todos.len() > 0 ==> task_entries(todos, true).is_suffix_of(status_tasks(todos, me)),
        todos.len() == 0 ==> status_tasks(todos, me).len() == 0,
{
    let e = received_entries(messages, replied, links);
    text::end_is_held(heading + me + ":\n\n"@, e);
    text::held_with_more(heading + me + ":\n\n"@ + e, RULE@, e);
    text::held_with_more(heading + me + ":\n\n"@ + e + RULE@, "\n"@, e);
    let f = history_entries(messages, me, links);
    let w = match with {
        Some(n) => "(showing only conversations with @"@ + n + ")\n\n"@,
        None => Seq::empty(),
    };
    let lead = "Message History for @"@ + me + ":\n\n"@ + w;
    text::end_is_held(lead, f);
    text::held_with_more(lead + f, RULE@, f);
    text::held_with_more(lead + f + RULE@, "\n"@, f);
    let a = worker_entries(workers, me, " \u{25c0} you"@, false);
    let r = status_roster(workers, me);
    if workers.len() > 0 {
        assert(a =~= r.subrange(r.len() - a.len(), r.len() as int));
    }
    let b = task_entries(todos, true);
    let s = status_tasks(todos, me);
    if todos.len() > 0 {
        assert(b =~= s.subrange(s.len() - b.len(), s.len() as int));
    }
}

} // verus!
