//! The prompt of a call: who the worker is, its team, the rules, its state and tasks, what was
//! said before and what is new. What never changes comes first, what changes with every call
//! comes last.
use crate::client;
use crate::client::listing;
use crate::text;
use crate::worker;
use crate::worker::{Message, WorkerHarness};
use vstd::prelude::*;

verus! {

/// The rules that every prompt holds.
pub const RULES: &'static str =
    "\n## CRITICAL RULES (absolute \u{2014} no exceptions)\n\n**NO DATES OR TIMES.** Never mention dates, deadlines, ETAs, or time estimates in any message or response. If a teammate mentioned a date (e.g. 'EOD April 17th', 'by Thursday'), ignore it \u{2014} it was hallucinated. You have no calendar awareness between invocations.\n\n**VERIFY BEFORE PROPAGATING.** Before acting on any claim from a teammate (file exists, bug found, task complete, feature ready), run a tool call to verify it yourself. Never forward an unverified claim to another worker. If you cannot verify it, say so explicitly \u{2014} do not assume it's true.\n\n**NO ACK RESPONSES.** Never send acknowledgment-only messages ('Got it', 'Understood', 'Standing by', 'Will do'). Either do the work immediately and report results, or stay silent. Ack loops waste cycles and propagate hallucinated context.\n\n**IF IT DOESN'T EXIST, SAY SO.** If asked to work on something that doesn't exist (a file, a feature, a task), stop, report what you actually found with a tool call, and ask for clarification. Do not invent context.\n\n**NEVER NARRATE DELEGATION.** If you write \"I've delegated to @X\", \"I'll send this to @Y\", \"assigned to @Z\" or similar in your response, you MUST have a matching entry in the delegate[] array. Claiming you delegated when delegate[] is empty is a lie \u{2014} the recipient never gets a todo, and your sender thinks it was handled. Either fill delegate[] or don't claim to delegate.\n\n## Output format\n\nWhen done, your FINAL output must be ONLY a JSON object (no other text before or after):\n\n{\n  \"response\": \"your reply to the sender (string or null)\",\n  \"delegate\": [{\"to\": \"@worker\", \"task\": \"description\"}],\n  \"messages\": [{\"to\": \"@worker\", \"text\": \"message\"}],\n  \"completed_tasks\": [\"hash1\", \"hash2\"],\n  \"continue\": false,\n  \"state_update\": {\"key\": \"value\"}\n}\n\nFields:\n- response: reply back to whoever messaged you\n- delegate: the ONLY way to assign work to another worker. Each entry becomes a persistent todo on the server. Writing about delegation in `response` or `messages` does NOT assign anything \u{2014} if you want someone to act, you MUST fill delegate[] or nothing happens. If someone messages you asking for something and you need THEM to act, delegate back to THEM \u{2014} not to a random teammate. The task description must be self-contained: facts, URLs, decisions, context \u{2014} the recipient will NOT see the messages that led to this delegation.\n- messages: null always. Never send status updates, confirmations, or narration. Use delegate for work assignments. If you have nothing to assign, omit this field entirely.\n- completed_tasks: task hashes you finished \u{2014} marks done and routes to downstream workers (optional)\n- continue: true to keep working autonomously, false when blocked or done\n- state_update: persist state for next invocation. Include \"status\" to update your roster presence\n\nDo NOT run any `collab` command in this session \u{2014} the harness manages collab state and the relevant env vars are unset here. Use Bash/Read/Write/Edit for actual work; emit collab actions via the JSON object above.\n\n\u{2550}\u{2550}\u{2550} Session context (varies per call \u{2014} everything above this line is cacheable) \u{2550}\u{2550}\u{2550}\n\nPrevious state:\n";

/// What a prompt ends with.
pub const CLOSING: &'static str =
    "\n\nAct on the new messages above. Use Bash/Read/Write/Edit to do your actual work (coding, research, testing).";

// ── New messages ────────────────────────────────────────────────────────────
/// A message of more bytes than this is put into a file.
pub const OFFLOAD_BYTES: usize = 2000;

/// How many messages of the history a prompt holds.
pub const HISTORY_LEN: usize = 20;

/// How many bytes of each of them a prompt holds.
pub const HISTORY_BYTES: usize = 300;

/// The file that a long message is put into.
pub open spec fn offload_file(hash: Seq<char>) -> Seq<char> {
    "/tmp/collab-msg-"@ + listing::short(hash) + ".md"@
}

/// The file that a message is put into, where it is long.
pub fn offload_path(m: &Message) -> (r: Option<String>)
    ensures
        text::opt_text(r) == (if text::byte_len(m.content@) > OFFLOAD_BYTES {
            Some(offload_file(m.hash@))
        } else {
            None
        }),
{
    if text::bytes_in(m.content.as_str()) > OFFLOAD_BYTES {
        Some(
            text::glue3(
                "/tmp/collab-msg-",
                listing::short_hash(m.hash.as_str()).as_str(),
                ".md",
            ),
        )
    } else {
        None
    }
}

/// What a prompt says of a new message.
pub open spec fn message_line(m: Message) -> Seq<char> {
    "@"@ + m.sender@ + ": "@ + (if text::byte_len(m.content@) > OFFLOAD_BYTES {
        "(see file: "@ + offload_file(m.hash@) + ")"@
    } else {
        m.content@
    }) + "\n"@
}

/// What a prompt says of the new messages.
pub open spec fn message_lines(messages: Seq<Message>) -> Seq<char>
    decreases messages.len(),
{
    if messages.len() == 0 {
        Seq::empty()
    } else {
        message_lines(messages.drop_last()) + message_line(messages.last())
    }
}

fn lines_of_messages(messages: &Vec<Message>) -> (r: String)
    ensures
        r@ == message_lines(messages@),
{
    let mut r = String::new();
    let mut i: usize = 0;
    assert(messages@.take(0) =~= Seq::<Message>::empty());
    while i < messages.len()
        invariant
            i <= messages@.len(),
            r@ == message_lines(messages@.take(i as int)),
        decreases messages@.len() - i,
    {
        assert(messages@.take(i + 1).drop_last() =~= messages@.take(i as int));
        let mut line = text::glue3("@", messages[i].sender.as_str(), ": ");
        match offload_path(&messages[i]) {
            Some(path) => {
                line.append(text::glue3("(see file: ", path.as_str(), ")").as_str());
            },
            None => {
                line.append(messages[i].content.as_str());
            },
        }
        line.append("\n");
        r.append(line.as_str());
        i += 1;
    }
    assert(messages@.take(i as int) =~= messages@);
    r
}

// ── Tasks ───────────────────────────────────────────────────────────────────
/// What a prompt says of a task.
pub open spec fn task_line(t: client::Todo) -> Seq<char> {
    "  - ["@ + listing::short(t.hash@) + "] (from @"@ + t.assigned_by@ + "): "@ + t.description@
        + "\n"@
}

/// What a prompt says of the tasks.
pub open spec fn task_lines(todos: Seq<client::Todo>) -> Seq<char>
    decreases todos.len(),
{
    if todos.len() == 0 {
        Seq::empty()
    } else {
        task_lines(todos.drop_last()) + task_line(todos.last())
    }
}

/// The part of a prompt on the tasks; a server that could not be asked counts as none.
pub open spec fn task_part(todos: Option<Seq<client::Todo>>) -> Seq<char> {
    if todos is Some && todos->0.len() > 0 {
        "Pending tasks assigned to you:\n"@ + task_lines(todos->0)
    } else {
        "No pending tasks."@
    }
}

fn part_on_tasks(todos: &Option<Vec<client::Todo>>) -> (r: String)
    ensures
        r@ == task_part(
            match *todos {
                Some(v) => Some(v@),
                None => None,
            },
        ),
{
    let v = match todos {
        Some(v) => v,
        None => {
            return "No pending tasks.".to_owned();
        },
    };
    if v.len() == 0 {
        return "No pending tasks.".to_owned();
    }
    let mut lines = String::new();
    let mut i: usize = 0;
    assert(v@.take(0) =~= Seq::<client::Todo>::empty());
    while i < v.len()
        invariant
            i <= v@.len(),
            lines@ == task_lines(v@.take(i as int)),
        decreases v@.len() - i,
    {
        assert(v@.take(i + 1).drop_last() =~= v@.take(i as int));
        let mut line = text::glue3(
            "  - [",
            listing::short_hash(v[i].hash.as_str()).as_str(),
            "] (from @",
        );
        line.append(v[i].assigned_by.as_str());
        line.append("): ");
        line.append(v[i].description.as_str());
        line.append("\n");
        lines.append(line.as_str());
        i += 1;
    }
    assert(v@.take(i as int) =~= v@);
    text::glue("Pending tasks assigned to you:\n", lines.as_str())
}

// ── The team ────────────────────────────────────────────────────────────────
/// Whether a prompt of `me` names a teammate: those whom `me` reports to or works with, and
/// everybody else where neither is configured.
pub open spec fn is_named(
    name: Seq<char>,
    me: Seq<char>,
    reports_to: Option<Seq<char>>,
    works_with: Seq<Seq<char>>,
) -> bool {
    &&& name != me
    &&& reports_to is Some || works_with.len() > 0 ==> reports_to == Some(name)
        || works_with.contains(name)
}

/// What a prompt says of the teammates it names.
pub open spec fn team_lines(
    team: Seq<(String, String)>,
    me: Seq<char>,
    reports_to: Option<Seq<char>>,
    works_with: Seq<Seq<char>>,
) -> Seq<char>
    decreases team.len(),
{
    if team.len() == 0 {
        Seq::empty()
    } else {
        let r = team_lines(team.drop_last(), me, reports_to, works_with);
        if is_named(team.last().0@, me, reports_to, works_with) {
            r + ("  @"@ + team.last().0@ + " \u{2014} "@ + team.last().1@ + "\n"@)
        } else {
            r
        }
    }
}

/// The part of a prompt on the team.
pub open spec fn team_part(h: WorkerHarness) -> Seq<char> {
    if h.teammates@.len() == 0 {
        "No teammates configured."@
    } else {
        "Your team:\n"@ + team_lines(
            h.teammates@,
            h.instance_id@,
            text::opt_text(h.reports_to),
            text::texts(h.works_with@),
        ) + (match text::opt_text(h.reports_to) {
            Some(name) => "\nWhen you complete a task, your work auto-routes to: @"@ + name + "\n"@,
            None => Seq::empty(),
        })
    }
}

fn part_on_team(h: &WorkerHarness) -> (r: String)
    ensures
        r@ == team_part(*h),
{
    if h.teammates.len() == 0 {
        return "No teammates configured.".to_owned();
    }
    let ghost rep = text::opt_text(h.reports_to);
    let ghost peers = text::texts(h.works_with@);
    let mut lines = String::new();
    let mut i: usize = 0;
    let restricted = h.reports_to.is_some() || h.works_with.len() > 0;
    assert(peers.len() == h.works_with@.len());
    assert(h.teammates@.take(0) =~= Seq::<(String, String)>::empty());
    while i < h.teammates.len()
        invariant
            i <= h.teammates@.len(),
            rep == text::opt_text(h.reports_to),
            peers == text::texts(h.works_with@),
            restricted == (rep is Some || peers.len() > 0),
            lines@ == team_lines(h.teammates@.take(i as int), h.instance_id@, rep, peers),
        decreases h.teammates@.len() - i,
    {
        assert(h.teammates@.take(i + 1).drop_last() =~= h.teammates@.take(i as int));
        let name = h.teammates[i].0.as_str();
        let mut listed = !restricted || text::list_has(&h.works_with, name);
        if let Some(boss) = &h.reports_to {
            if text::same(boss.as_str(), name) {
                listed = true;
            }
        }
        if listed && !text::same(name, h.instance_id.as_str()) {
            let mut line = text::glue3("  @", name, " \u{2014} ");
            line.append(h.teammates[i].1.as_str());
            line.append("\n");
            lines.append(line.as_str());
        }
        i += 1;
    }
    assert(h.teammates@.take(i as int) =~= h.teammates@);
    let mut r = text::glue("Your team:\n", lines.as_str());
    match &h.reports_to {
        Some(boss) => {
            r.append(
                text::glue3(
                    "\nWhen you complete a task, your work auto-routes to: @",
                    boss.as_str(),
                    "\n",
                ).as_str(),
            );
        },
        None => {
            assert(r@ + Seq::<char>::empty() =~= r@);
        },
    }
    r
}

// ── What was said before ────────────────────────────────────────────────────
/// One of the messages is the one with this hash.
pub open spec fn is_new(messages: Seq<Message>, hash: Seq<char>) -> bool {
    exists|i: int| 0 <= i < messages.len() && (#[trigger] messages[i]).hash@ == hash
}

/// The messages of the history that are not among the new ones.
pub open spec fn older(
    history: Seq<client::Message>,
    messages: Seq<Message>,
) -> Seq<client::Message>
    decreases history.len(),
{
    if history.len() == 0 {
        Seq::empty()
    } else {
        let r = older(history.drop_last(), messages);
        if is_new(messages, history.last().hash@) {
            r
        } else {
            r.push(history.last())
        }
    }
}

/// The last few messages of the history that are not among the new ones.
pub open spec fn recent(history: Seq<client::Message>, messages: Seq<Message>) -> Seq<
    client::Message,
> {
    let o = older(history, messages);
    if o.len() <= HISTORY_LEN {
        o
    } else {
        o.skip(o.len() - HISTORY_LEN)
    }
}

/// What a prompt says of a message of the history: its content is cut to size.
pub open spec fn history_line(m: client::Message) -> Seq<char> {
    "  @"@ + m.sender@ + " \u{2192} @"@ + m.recipient@ + ": "@ + worker::truncated(
        m.content@,
        HISTORY_BYTES as nat,
    ) + "\n"@
}

/// What a prompt says of `history`.
pub open spec fn history_lines(history: Seq<client::Message>) -> Seq<char>
    decreases history.len(),
{
    if history.len() == 0 {
        Seq::empty()
    } else {
        history_lines(history.drop_last()) + history_line(history.last())
    }
}

/// The part of a prompt on what was said before; a server that could not be asked counts as
/// nothing.
pub open spec fn history_part(history: Option<Seq<client::Message>>, messages: Seq<Message>) -> Seq<
    char,
> {
    if history is Some && recent(history->0, messages).len() > 0 {
        "Recent conversation history (for context \u{2014} do NOT re-process these, only act on the new messages below):\n"@
            + history_lines(recent(history->0, messages))
    } else {
        Seq::empty()
    }
}

fn among_new(messages: &Vec<Message>, hash: &str) -> (r: bool)
    ensures
        r == is_new(messages@, hash@),
{
    let mut i: usize = 0;
    while i < messages.len()
        invariant
            i <= messages@.len(),
            forall|k: int| 0 <= k < i ==> (#[trigger] messages@[k]).hash@ != hash@,
        decreases messages@.len() - i,
    {
        if text::same(messages[i].hash.as_str(), hash) {
            assert(messages@[i as int].hash@ == hash@);
            return true;
        }
        i += 1;
    }
    false
}

fn part_on_history(history: &Option<Vec<client::Message>>, messages: &Vec<Message>) -> (r: String)
    ensures
        r@ == history_part(
            match *history {
                Some(v) => Some(v@),
                None => None,
            },
            messages@,
        ),
{
    let v = match history {
        Some(v) => v,
        None => {
            return String::new();
        },
    };
    // The indices of the older messages.
    let mut old_at: Vec<usize> = Vec::new();
    let mut i: usize = 0;
    assert(v@.take(0) =~= Seq::<client::Message>::empty());
    while i < v.len()
        invariant
            i <= v@.len(),
            forall|k: int| 0 <= k < old_at@.len() ==> #[trigger] old_at@[k] < v@.len(),
            older(v@.take(i as int), messages@) == Seq::new(
                old_at@.len(),
                |k: int| v@[old_at@[k] as int],
            ),
        decreases v@.len() - i,
    {
        assert(v@.take(i + 1).drop_last() =~= v@.take(i as int));
        if !among_new(messages, v[i].hash.as_str()) {
            let ghost before = old_at@;
            old_at.push(i);
            assert(Seq::new(old_at@.len(), |k: int| v@[old_at@[k] as int]) =~= Seq::new(
                before.len(),
                |k: int| v@[before[k] as int],
            ).push(v@[i as int]));
        }
        i += 1;
    }
    assert(v@.take(i as int) =~= v@);
    let start: usize = if old_at.len() <= HISTORY_LEN {
        0
    } else {
        old_at.len() - HISTORY_LEN
    };
    let ghost rec = recent(v@, messages@);
    let ghost all = Seq::new(old_at@.len(), |k: int| v@[old_at@[k] as int]);
    assert(rec =~= all.skip(start as int));
    if start >= old_at.len() {
        return String::new();
    }
    let mut lines = String::new();
    let mut j: usize = start;
    assert(rec.take(0) =~= Seq::<client::Message>::empty());
    while j < old_at.len()
        invariant
            start <= j <= old_at@.len(),
            forall|k: int| 0 <= k < old_at@.len() ==> #[trigger] old_at@[k] < v@.len(),
            rec.len() == old_at@.len() - start,
            forall|k: int|
                0 <= k < rec.len() ==> #[trigger] rec[k] == v@[old_at@[start + k] as int],
            lines@ == history_lines(rec.take(j - start)),
        decreases old_at@.len() - j,
    {
        let m = &v[old_at[j]];
        let ghost n = j - start;
        let body = worker::truncate_at_char_boundary(m.content.as_str(), HISTORY_BYTES);
        let mut line = text::glue3("  @", m.sender.as_str(), " \u{2192} @");
        line.append(m.recipient.as_str());
        line.append(": ");
        line.append(body.as_str());
        line.append("\n");
        lines.append(line.as_str());
        proof {
            let t = rec.take(n + 1);
            assert(t.drop_last() =~= rec.take(n));
            assert(t.last() == rec[n]);
        }
        j += 1;
    }
    assert(rec.take(j - start) =~= rec);
    text::glue(
        "Recent conversation history (for context \u{2014} do NOT re-process these, only act on the new messages below):\n",
        lines.as_str(),
    )
}

// ── The whole ───────────────────────────────────────────────────────────────
/// The part of a prompt that stays the same from call to call.
pub open spec fn stable_part(h: WorkerHarness, role: Seq<char>) -> Seq<char> {
    "You are @"@ + h.instance_id@ + ". Role: "@ + role + "\n\n"@ + team_part(h) + RULES@
}

/// The prompt of worker `h` for new `messages`.
pub open spec fn prompt_text(
    h: WorkerHarness,
    role: Seq<char>,
    state: Seq<char>,
    todos: Option<Seq<client::Todo>>,
    history: Option<Seq<client::Message>>,
    messages: Seq<Message>,
) -> Seq<char> {
    stable_part(h, role) + state + "\n\n"@ + task_part(todos) + "\n"@ + history_part(
        history,
        messages,
    ) + "New messages ("@ + text::decimal(messages.len()) + "):\n"@ + message_lines(messages)
        + CLOSING@
}

/// The prompt for new `messages`. `state` is the worker's state as JSON; `todos` and `history`
/// are what the server answered, where it did.
pub fn build_prompt(
    h: &WorkerHarness,
    role: &str,
    state: &str,
    todos: &Option<Vec<client::Todo>>,
    history: &Option<Vec<client::Message>>,
    messages: &Vec<Message>,
) -> (r: String)
    ensures
        r@ == prompt_text(
            *h,
            role@,
            state@,
            match *todos {
                Some(v) => Some(v@),
                None => None,
            },
            match *history {
                Some(v) => Some(v@),
                None => None,
            },
            messages@,
        ),
{
    let past = part_on_history(history, messages);
    let mut r = text::glue3("You are @", h.instance_id.as_str(), ". Role: ");
    r.append(role);
    r.append("\n\n");
    r.append(part_on_team(h).as_str());
    r.append(RULES);
    r.append(state);
    r.append("\n\n");
    r.append(part_on_tasks(todos).as_str());
    r.append("\n");
    r.append(past.as_str());
    r.append("New messages (");
    r.append(text::count(messages.len()).as_str());
    r.append("):\n");
    r.append(lines_of_messages(messages).as_str());
    r.append(CLOSING);
    r
}

/// A worker's prompts share their beginning as long as its role and team stay the same, whatever
/// its state, its tasks and the messages are.
pub proof fn prompts_share_their_beginning(
    h: WorkerHarness,
    role: Seq<char>,
    state: Seq<char>,
    todos: Option<Seq<client::Todo>>,
    history: Option<Seq<client::Message>>,
    messages: Seq<Message>,
)
    ensures
        stable_part(h, role).is_prefix_of(
            prompt_text(h, role, state, todos, history, messages),
        ),
{
    let front = stable_part(h, role);
    let r = prompt_text(h, role, state, todos, history, messages);
    assert(r.take(front.len() as int) =~= front);
}

/// A prompt never repeats a new message as history, and holds no more of the history than it may.
pub proof fn history_is_old_and_short(history: Seq<client::Message>, messages: Seq<Message>)
    ensures
        recent(history, messages).len() <= HISTORY_LEN,
        forall|i: int|
            0 <= i < recent(history, messages).len() ==> !is_new(
                messages,
                (#[trigger] recent(history, messages)[i]).hash@,
            ),
{
    older_meaning(history, messages);
    let o = older(history, messages);
    let r = recent(history, messages);
    assert forall|i: int| 0 <= i < r.len() implies !is_new(messages, (#[trigger] r[i]).hash@) by {
        if o.len() <= HISTORY_LEN {
            assert(r[i] == o[i]);
        } else {
            assert(r[i] == o[o.len() - HISTORY_LEN + i]);
        }
    }
}

proof fn older_meaning(history: Seq<client::Message>, messages: Seq<Message>)
    ensures
        forall|i: int|
            0 <= i < older(history, messages).len() ==> !is_new(
                messages,
                (#[trigger] older(history, messages)[i]).hash@,
            ),
    decreases history.len(),
{
    if history.len() > 0 {
        let r = older(history.drop_last(), messages);
        let all = older(history, messages);
        older_meaning(history.drop_last(), messages);
        assert forall|i: int| 0 <= i < all.len() implies !is_new(
            messages,
            (#[trigger] all[i]).hash@,
        ) by {
            if i < r.len() {
                assert(all[i] == r[i]);
            }
        }
    }
}

/// Every new message has its own line in a prompt, in the order in which they came: its sender and
/// its content, or the file that it was put into where it takes more than two thousand bytes.
pub proof fn each_message_has_its_line(a: Seq<Message>, b: Seq<Message>, x: Message)
    ensures
        message_lines(a + b) == message_lines(a) + message_lines(b),
        message_lines(seq![x]) == ("@"@ + x.sender@ + ": "@ + (if text::byte_len(x.content@) > 2000 {
            "(see file: /tmp/collab-msg-"@ + x.hash@.take(text::fitting(x.hash@, 7) as int)
                + ".md)"@
        } else {
            x.content@
        }) + "\n"@),
    decreases b.len(),
{
    let one = seq![x];
    assert(one.drop_last() =~= Seq::<Message>::empty());
    assert(message_lines(one.drop_last()).len() == 0);
    reveal_strlit("(see file: /tmp/collab-msg-");
    reveal_strlit("(see file: ");
    reveal_strlit("/tmp/collab-msg-");
    reveal_strlit(".md)");
    reveal_strlit(".md");
    reveal_strlit(")");
    let name = x.hash@.take(text::fitting(x.hash@, 7) as int);
    assert("(see file: "@ + offload_file(x.hash@) + ")"@ =~= "(see file: /tmp/collab-msg-"@ + name
        + ".md)"@);
    assert(message_lines(one) =~= message_line(x));
    assert(message_lines(one) =~= ("@"@ + x.sender@ + ": "@ + (if text::byte_len(x.content@) > 2000 {
            "(see file: /tmp/collab-msg-"@ + x.hash@.take(text::fitting(x.hash@, 7) as int)
                + ".md)"@
        } else {
            x.content@
        }) + "\n"@));
    if b.len() == 0 {
        assert(a + b =~= a);
        assert(message_lines(a) + message_lines(b) =~= message_lines(a));
    } else {
        each_message_has_its_line(a, b.drop_last(), x);
        assert((a + b).drop_last() =~= a + b.drop_last());
        assert((a + b).last() == b.last());
        assert(message_lines(a + b) =~= message_lines(a) + message_lines(b));
    }
}

/// Every task has its own line in a prompt, in the order in which the server lists them: its short
/// hash, who gave it and what is to be done.
pub proof fn each_task_has_its_line(a: Seq<client::Todo>, b: Seq<client::Todo>, x: client::Todo)
    ensures
        task_lines(a + b) == task_lines(a) + task_lines(b),
        task_lines(seq![x]) == ("  - ["@ + x.hash@.take(text::fitting(x.hash@, 7) as int) + "] (from @"@ + x.assigned_by@
            + "): "@ + x.description@ + "\n"@),
    decreases b.len(),
{
    let one = seq![x];
    assert(one.drop_last() =~= Seq::<client::Todo>::empty());
    assert(task_lines(one.drop_last()).len() == 0);
    assert(task_lines(one) =~= ("  - ["@ + x.hash@.take(text::fitting(x.hash@, 7) as int) + "] (from @"@ + x.assigned_by@
            + "): "@ + x.description@ + "\n"@));
    if b.len() == 0 {
        assert(a + b =~= a);
        assert(task_lines(a) + task_lines(b) =~= task_lines(a));
    } else {
        each_task_has_its_line(a, b.drop_last(), x);
        assert((a + b).drop_last() =~= a + b.drop_last());
        assert((a + b).last() == b.last());
        assert(task_lines(a + b) =~= task_lines(a) + task_lines(b));
    }
}

/// Every message of the history that a prompt tells of has its own line: who wrote to whom, and up to
/// three hundred bytes of what was written.
pub proof fn each_old_message_has_its_line(
    a: Seq<client::Message>,
    b: Seq<client::Message>,
    x: client::Message,
)
    ensures
        history_lines(a + b) == history_lines(a) + history_lines(b),
        history_lines(seq![x]) == ("  @"@ + x.sender@ + " \u{2192} @"@ + x.recipient@ + ": "@ + worker::truncated(
            x.content@,
            300,
        ) + "\n"@),
    decreases b.len(),
{
    let one = seq![x];
    assert(one.drop_last() =~= Seq::<client::Message>::empty());
    assert(history_lines(one.drop_last()).len() == 0);
    assert(history_lines(one) =~= ("  @"@ + x.sender@ + " \u{2192} @"@ + x.recipient@ + ": "@ + worker::truncated(
            x.content@,
            300,
        ) + "\n"@));
    if b.len() == 0 {
        assert(a + b =~= a);
        assert(history_lines(a) + history_lines(b) =~= history_lines(a));
    } else {
        each_old_message_has_its_line(a, b.drop_last(), x);
        assert((a + b).drop_last() =~= a + b.drop_last());
        assert((a + b).last() == b.last());
        assert(history_lines(a + b) =~= history_lines(a) + history_lines(b));
    }
}

/// Every teammate is decided alone: the worker itself is never named, and others are where nobody is
/// configured, or where the worker reports to them or works with them.
pub proof fn each_teammate_has_its_line(
    a: Seq<(String, String)>,
    b: Seq<(String, String)>,
    x: (String, String),
    me: Seq<char>,
    reports_to: Option<Seq<char>>,
    works_with: Seq<Seq<char>>,
)
    ensures
        team_lines(a + b, me, reports_to, works_with) == team_lines(a, me, reports_to, works_with) + team_lines(b, me, reports_to, works_with),
        team_lines(seq![x], me, reports_to, works_with) == (if x.0@ != me && (reports_to == Some(x.0@) || works_with.contains(x.0@) || (reports_to is None
            && works_with.len() == 0)) {
            "  @"@ + x.0@ + " \u{2014} "@ + x.1@ + "\n"@
        } else {
            Seq::empty()
        }),
    decreases b.len(),
{
    let one = seq![x];
    assert(one.drop_last() =~= Seq::<(String, String)>::empty());
    assert(team_lines(one.drop_last(), me, reports_to, works_with).len() == 0);
    assert(team_lines(one, me, reports_to, works_with) =~= (if x.0@ != me && (reports_to == Some(x.0@) || works_with.contains(x.0@) || (reports_to is None
            && works_with.len() == 0)) {
            "  @"@ + x.0@ + " \u{2014} "@ + x.1@ + "\n"@
        } else {
            Seq::empty()
        }));
    if b.len() == 0 {
        assert(a + b =~= a);
        assert(team_lines(a, me, reports_to, works_with) + team_lines(b, me, reports_to, works_with) =~= team_lines(a, me, reports_to, works_with));
    } else {
        each_teammate_has_its_line(a, b.drop_last(), x, me, reports_to, works_with);
        assert((a + b).drop_last() =~= a + b.drop_last());
        assert((a + b).last() == b.last());
        assert(team_lines(a + b, me, reports_to, works_with) =~= team_lines(a, me, reports_to, works_with) + team_lines(b, me, reports_to, works_with));
    }
}

/// A message of the history is old exactly where none of the new ones has its hash.
pub proof fn each_old_message_is_told_once(
    a: Seq<client::Message>,
    b: Seq<client::Message>,
    x: client::Message,
    messages: Seq<Message>,
)
    ensures
        older(a + b, messages) == older(a, messages) + older(b, messages),
        older(seq![x], messages) == (if exists|i: int| 0 <= i < messages.len() && (#[trigger] messages[i]).hash@ == x.hash@ {
            Seq::empty()
        } else {
            seq![x]
        }),
    decreases b.len(),
{
    let one = seq![x];
    assert(one.drop_last() =~= Seq::<client::Message>::empty());
    assert(older(one.drop_last(), messages).len() == 0);
    assert(older(one, messages) =~= (if exists|i: int| 0 <= i < messages.len() && (#[trigger] messages[i]).hash@ == x.hash@ {
            Seq::empty()
        } else {
            seq![x]
        }));
    if b.len() == 0 {
        assert(a + b =~= a);
        assert(older(a, messages) + older(b, messages) =~= older(a, messages));
    } else {
        each_old_message_is_told_once(a, b.drop_last(), x, messages);
        assert((a + b).drop_last() =~= a + b.drop_last());
        assert((a + b).last() == b.last());
        assert(older(a + b, messages) =~= older(a, messages) + older(b, messages));
    }
}

/// Of the old messages a prompt tells of the last twenty, and of all of them where there are fewer.
pub proof fn recent_history_is_the_end(history: Seq<client::Message>, messages: Seq<Message>)
    ensures
        recent(history, messages).is_suffix_of(older(history, messages)),
        recent(history, messages).len() == (if older(history, messages).len() < 20 {
            older(history, messages).len() as int
        } else {
            20
        }),
{
    let o = older(history, messages);
    let r = recent(history, messages);
    assert(r =~= o.subrange(o.len() - r.len(), o.len() as int));
}

proof fn line_of_message(messages: Seq<Message>, i: int)
    requires
        0 <= i < messages.len(),
    ensures
        text::holds(message_lines(messages), message_line(messages[i])),
    decreases messages.len(),
{
    let init = messages.drop_last();
    let front = message_lines(init);
    let line = message_line(messages.last());
    let none = Seq::<char>::empty();
    if i == init.len() {
        text::middle_is_held(front, line, none);
        assert(front + line + none =~= message_lines(messages));
    } else {
        line_of_message(init, i);
        assert(init[i] == messages[i]);
        text::held_in_part(none, front, line, message_line(messages[i]));
        assert(none + front + line =~= message_lines(messages));
    }
}

proof fn line_of_task(todos: Seq<client::Todo>, i: int)
    requires
        0 <= i < todos.len(),
    ensures
        text::holds(task_lines(todos), task_line(todos[i])),
    decreases todos.len(),
{
    let init = todos.drop_last();
    let front = task_lines(init);
    let line = task_line(todos.last());
    let none = Seq::<char>::empty();
    if i == init.len() {
        text::middle_is_held(front, line, none);
        assert(front + line + none =~= task_lines(todos));
    } else {
        line_of_task(init, i);
        assert(init[i] == todos[i]);
        text::held_in_part(none, front, line, task_line(todos[i]));
        assert(none + front + line =~= task_lines(todos));
    }
}

proof fn line_of_history(history: Seq<client::Message>, i: int)
    requires
        0 <= i < history.len(),
    ensures
        text::holds(history_lines(history), history_line(history[i])),
    decreases history.len(),
{
    let init = history.drop_last();
    let front = history_lines(init);
    let line = history_line(history.last());
    let none = Seq::<char>::empty();
    if i == init.len() {
        text::middle_is_held(front, line, none);
        assert(front + line + none =~= history_lines(history));
    } else {
        line_of_history(init, i);
        assert(init[i] == history[i]);
        text::held_in_part(none, front, line, history_line(history[i]));
        assert(none + front + line =~= history_lines(history));
    }
}

/// A prompt begins with who the worker is and what its role is.
pub proof fn prompts_say_who(
    h: WorkerHarness,
    role: Seq<char>,
    state: Seq<char>,
    todos: Option<Seq<client::Todo>>,
    history: Option<Seq<client::Message>>,
    messages: Seq<Message>,
)
    ensures
        ("You are @"@ + h.instance_id@ + ". Role: "@ + role).is_prefix_of(
            prompt_text(h, role, state, todos, history, messages),
        ),
{
    let who = "You are @"@ + h.instance_id@ + ". Role: "@ + role;
    let front = stable_part(h, role);
    let p = prompt_text(h, role, state, todos, history, messages);
    prompts_share_their_beginning(h, role, state, todos, history, messages);
    assert(front.subrange(0, who.len() as int) =~= who);
    assert(front =~= p.subrange(0, front.len() as int));
    assert(who =~= p.subrange(0, who.len() as int)) by {
        assert forall|k: int| 0 <= k < who.len() implies who[k] == p[k] by {
            assert(front.subrange(0, who.len() as int)[k] == front[k]);
            assert(p.subrange(0, front.len() as int)[k] == p[k]);
        }
    }
}

/// A prompt holds the rules, and behind them the state of the worker as it is.
pub proof fn prompts_hold_the_state(
    h: WorkerHarness,
    role: Seq<char>,
    state: Seq<char>,
    todos: Option<Seq<client::Todo>>,
    history: Option<Seq<client::Message>>,
    messages: Seq<Message>,
)
    ensures
        text::holds(prompt_text(h, role, state, todos, history, messages), RULES@ + state),
{
    let p = prompt_text(h, role, state, todos, history, messages);
    let front = "You are @"@ + h.instance_id@ + ". Role: "@ + role + "\n\n"@ + team_part(h);
    let k = front.len() as int;
    let part = RULES@ + state;
    let both = stable_part(h, role) + state;
    assert(both.subrange(k, k + part.len()) =~= part);
    assert(p.subrange(k, k + part.len()) =~= both.subrange(k, k + part.len()));
}

/// A prompt ends with how many messages are new, the line of each, and the call to act on them.
pub proof fn prompts_end_with_the_news(
    h: WorkerHarness,
    role: Seq<char>,
    state: Seq<char>,
    todos: Option<Seq<client::Todo>>,
    history: Option<Seq<client::Message>>,
    messages: Seq<Message>,
)
    ensures
        ("New messages ("@ + text::decimal(messages.len()) + "):\n"@ + message_lines(messages)
            + CLOSING@).is_suffix_of(prompt_text(h, role, state, todos, history, messages)),
{
    let p = prompt_text(h, role, state, todos, history, messages);
    let lead = stable_part(h, role) + state + "\n\n"@ + task_part(todos) + "\n"@ + history_part(
        history,
        messages,
    );
    let end = "New messages ("@ + text::decimal(messages.len()) + "):\n"@ + message_lines(messages)
        + CLOSING@;
    assert(p == lead + "New messages ("@ + text::decimal(messages.len()) + "):\n"@ + message_lines(
        messages,
    ) + CLOSING@);
    assert(end =~= p.subrange(p.len() - end.len(), p.len() as int));
}

/// Whatever is new, a prompt tells: a short message with its sender and all of its content.
pub proof fn new_messages_are_told(
    h: WorkerHarness,
    role: Seq<char>,
    state: Seq<char>,
    todos: Option<Seq<client::Todo>>,
    history: Option<Seq<client::Message>>,
    messages: Seq<Message>,
    i: int,
)
    requires
        0 <= i < messages.len(),
        text::byte_len(messages[i].content@) <= 2000,
    ensures
        text::holds(
            prompt_text(h, role, state, todos, history, messages),
            "@"@ + messages[i].sender@ + ": "@ + messages[i].content@ + "\n"@,
        ),
{
    line_of_message(messages, i);
    let p = prompt_text(h, role, state, todos, history, messages);
    let lead = stable_part(h, role) + state + "\n\n"@ + task_part(todos) + "\n"@ + history_part(
        history,
        messages,
    ) + "New messages ("@ + text::decimal(messages.len()) + "):\n"@;
    text::held_in_part(lead, message_lines(messages), CLOSING@, message_line(messages[i]));
    assert(p =~= lead + message_lines(messages) + CLOSING@);
}

/// Whatever is open, a prompt tells: each task with who gave it and what is to be done.
pub proof fn open_tasks_are_told(
    h: WorkerHarness,
    role: Seq<char>,
    state: Seq<char>,
    todos: Seq<client::Todo>,
    history: Option<Seq<client::Message>>,
    messages: Seq<Message>,
    i: int,
)
    requires
        0 <= i < todos.len(),
    ensures
        text::holds(
            prompt_text(h, role, state, Some(todos), history, messages),
            "] (from @"@ + todos[i].assigned_by@ + "): "@ + todos[i].description@ + "\n"@,
        ),
{
    line_of_task(todos, i);
    let p = prompt_text(h, role, state, Some(todos), history, messages);
    let head = "Pending tasks assigned to you:\n"@;
    let lead = stable_part(h, role) + state + "\n\n"@ + head;
    let tail = "\n"@ + history_part(history, messages) + "New messages ("@ + text::decimal(
        messages.len(),
    ) + "):\n"@ + message_lines(messages) + CLOSING@;
    tasks_stand_between(h, role, state, todos, history, messages);
    text::held_in_part(lead, task_lines(todos), tail, task_line(todos[i]));
    let part = "] (from @"@ + todos[i].assigned_by@ + "): "@ + todos[i].description@ + "\n"@;
    task_lines_say_what(todos[i]);
    text::held_through(p, task_line(todos[i]), part);
}

proof fn task_lines_say_what(t: client::Todo)
    ensures
        text::holds(
            task_line(t),
            "] (from @"@ + t.assigned_by@ + "): "@ + t.description@ + "\n"@,
        ),
{
    end_is_held(
        "  - ["@ + listing::short(t.hash@),
        "] (from @"@,
        t.assigned_by@,
        "): "@,
        t.description@,
        "\n"@,
    );
}

proof fn end_is_held(
    front: Seq<char>,
    a: Seq<char>,
    b: Seq<char>,
    c: Seq<char>,
    d: Seq<char>,
    e: Seq<char>,
)
    ensures
        text::holds(front + a + b + c + d + e, a + b + c + d + e),
{
    let whole = front + a + b + c + d + e;
    let part = a + b + c + d + e;
    let k = front.len() as int;
    assert(whole.subrange(k, k + part.len()) =~= part);
}

proof fn tasks_stand_between(
    h: WorkerHarness,
    role: Seq<char>,
    state: Seq<char>,
    todos: Seq<client::Todo>,
    history: Option<Seq<client::Message>>,
    messages: Seq<Message>,
)
    requires
        todos.len() > 0,
    ensures
        prompt_text(h, role, state, Some(todos), history, messages) == stable_part(h, role) + state
            + "\n\n"@ + "Pending tasks assigned to you:\n"@ + task_lines(todos) + ("\n"@
            + history_part(history, messages) + "New messages ("@ + text::decimal(messages.len())
            + "):\n"@ + message_lines(messages) + CLOSING@),
{
    let head = "Pending tasks assigned to you:\n"@;
    let front = stable_part(h, role) + state + "\n\n"@;
    let lines = task_lines(todos);
    assert(front + (head + lines) =~= front + head + lines);
    let a = front + head + lines;
    let past = history_part(history, messages);
    let n = "New messages ("@;
    let d = text::decimal(messages.len());
    let m = message_lines(messages);
    assert(a + "\n"@ + past + n + d + "):\n"@ + m + CLOSING@ =~= a + ("\n"@ + past + n + d + "):\n"@
        + m + CLOSING@));
}

/// What was said lately, a prompt tells.
pub proof fn recent_history_is_told(
    h: WorkerHarness,
    role: Seq<char>,
    state: Seq<char>,
    todos: Option<Seq<client::Todo>>,
    history: Seq<client::Message>,
    messages: Seq<Message>,
    i: int,
)
    requires
        0 <= i < recent(history, messages).len(),
        text::byte_len(recent(history, messages)[i].content@) <= 300,
    ensures
        text::holds(
            prompt_text(h, role, state, todos, Some(history), messages),
            "  @"@ + recent(history, messages)[i].sender@ + " \u{2192} @"@ + recent(
                history,
                messages,
            )[i].recipient@ + ": "@ + recent(history, messages)[i].content@ + "\n"@,
        ),
{
    let r = recent(history, messages);
    line_of_history(r, i);
    let p = prompt_text(h, role, state, todos, Some(history), messages);
    let head =
        "Recent conversation history (for context \u{2014} do NOT re-process these, only act on the new messages below):\n"@;
    let lead = stable_part(h, role) + state + "\n\n"@ + task_part(todos) + "\n"@ + head;
    let tail = "New messages ("@ + text::decimal(messages.len()) + "):\n"@ + message_lines(messages)
        + CLOSING@;
    text::held_in_part(lead, history_lines(r), tail, history_line(r[i]));
    assert(p =~= lead + history_lines(r) + tail);
}

/// Whom finished work goes to is said wherever there is a team.
pub proof fn prompts_name_the_boss(h: WorkerHarness)
    requires
        h.teammates@.len() > 0,
    ensures
        h.reports_to is Some ==> ("auto-routes to: @"@ + h.reports_to->0@ + "\n"@).is_suffix_of(
            team_part(h),
        ),
{
    if h.reports_to is Some {
        let all = team_part(h);
        let end = "auto-routes to: @"@ + h.reports_to->0@ + "\n"@;
        reveal_strlit("auto-routes to: @");
        reveal_strlit("\nWhen you complete a task, your work auto-routes to: @");
        assert(end =~= all.subrange(all.len() - end.len(), all.len() as int));
    }
}

/// Without tasks a prompt says so, and of a history with nothing older in it, or none, it says
/// nothing.
pub proof fn nothing_is_told_of_nothing(
    todos: Option<Seq<client::Todo>>,
    history: Option<Seq<client::Message>>,
    messages: Seq<Message>,
)
    ensures
        todos is None || todos->0.len() == 0 ==> task_part(todos) == "No pending tasks."@,
        todos is Some && todos->0.len() > 0 ==> task_lines(todos->0).is_suffix_of(task_part(todos)),
        history is None || older(history->0, messages).len() == 0 ==> history_part(
            history,
            messages,
        ).len() == 0,
        history is Some && older(history->0, messages).len() > 0 ==> history_lines(
            recent(history->0, messages),
        ).is_suffix_of(history_part(history, messages)),
{
    if todos is Some && todos->0.len() > 0 {
        let l = task_lines(todos->0);
        let p = task_part(todos);
        assert(l =~= p.subrange(p.len() - l.len(), p.len() as int));
    }
    if history is Some && older(history->0, messages).len() > 0 {
        let l = history_lines(recent(history->0, messages));
        let p = history_part(history, messages);
        assert(l =~= p.subrange(p.len() - l.len(), p.len() as int));
    }
}

} // verus!
