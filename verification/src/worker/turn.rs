//! What a worker does with a decoded answer: whom it replies to, whom it gives work, which tasks
//! it closes and where finished work goes.
use crate::outside;
use crate::text;
use crate::worker;
use crate::worker::output::{CollabOutput, DelegateTask, DirectMessage};
use crate::worker::Message;
use vstd::prelude::*;

verus! {

// ── Models ──────────────────────────────────────────────────────────────────
/// The tasks handed out: to whom, and what.
pub open spec fn tasks(v: Seq<DelegateTask>) -> Seq<(Seq<char>, Seq<char>)> {
    Seq::new(v.len(), |i: int| (v[i].to@, v[i].task@))
}

/// The direct messages: to whom, and what.
pub open spec fn notes(v: Seq<DirectMessage>) -> Seq<(Seq<char>, Seq<char>)> {
    Seq::new(v.len(), |i: int| (v[i].to@, v[i].text@))
}

/// The first components of a list of pairs.
pub open spec fn names(v: Seq<(Seq<char>, Seq<char>)>) -> Seq<Seq<char>> {
    Seq::new(v.len(), |i: int| v[i].0)
}

/// Something to be sent to somebody.
pub struct Outgoing {
    pub to: String,
    pub text: String,
}

/// The model of a list of things to be sent.
pub open spec fn sent(v: Seq<Outgoing>) -> Seq<(Seq<char>, Seq<char>)> {
    Seq::new(v.len(), |i: int| (v[i].to@, v[i].text@))
}

// ── Phantom delegations ─────────────────────────────────────────────────────
/// Phrases by which an answer claims to have handed out work.
pub const DELEGATION_CLAIM: &'static str =
    "(?i)\\b(I(?:'ve|\\s+have)?\\s+(?:delegated|assigned|sent)|I(?:'ll|\\s+will)\\s+(?:delegate|assign|send)|delegating|delegated|assigned|assigning)\\b";

/// A mention of somebody.
pub const MENTION: &'static str = "@(\\w+)";

/// What stands in place of an answer that claims a delegation which nobody can carry out.
pub const SCRUBBED: &'static str =
    "(worker claimed to delegate but couldn't \u{2014} no unambiguous target found; please restate what you need)";

/// The teammates other than `me` among the mentions, each where it is first mentioned.
pub open spec fn mentioned_teammates(
    mentions: Seq<Option<Seq<char>>>,
    me: Seq<char>,
    teammates: Seq<Seq<char>>,
) -> Seq<Seq<char>>
    decreases mentions.len(),
{
    if mentions.len() == 0 {
        Seq::empty()
    } else {
        let r = mentioned_teammates(mentions.drop_last(), me, teammates);
        match mentions.last() {
            Some(name) => if teammates.contains(name) && name != me && !r.contains(name) {
                r.push(name)
            } else {
                r
            },
            None => r,
        }
    }
}

/// The response and the tasks of an answer, made honest: where it claims to have delegated and
/// names no task, the only teammate it mentions gets the response as a task; with no such
/// teammate, or several, the claim is replaced.
pub open spec fn honest(
    response: Option<Seq<char>>,
    delegate: Seq<(Seq<char>, Seq<char>)>,
    me: Seq<char>,
    teammates: Seq<Seq<char>>,
    claims: bool,
    mentions: Seq<Option<Seq<char>>>,
) -> (Option<Seq<char>>, Seq<(Seq<char>, Seq<char>)>) {
    if delegate.len() == 0 && response is Some && claims {
        let found = mentioned_teammates(mentions, me, teammates);
        if found.len() == 1 {
            (response, seq![(found[0], response->0)])
        } else {
            (Some(SCRUBBED@), delegate)
        }
    } else {
        (response, delegate)
    }
}

fn teammates_in(mentions: &Vec<Option<String>>, me: &str, teammates: &Vec<String>) -> (r: Vec<
    String,
>)
    ensures
        text::texts(r@) == mentioned_teammates(
            outside::opt_texts(mentions@),
            me@,
            text::texts(teammates@),
        ),
{
    let ghost all = outside::opt_texts(mentions@);
    let ghost team = text::texts(teammates@);
    let mut r: Vec<String> = Vec::new();
    let mut i: usize = 0;
    assert(text::texts(r@) =~= mentioned_teammates(all.take(0), me@, team));
    while i < mentions.len()
        invariant
            i <= mentions@.len(),
            all == outside::opt_texts(mentions@),
            team == text::texts(teammates@),
            text::texts(r@) == mentioned_teammates(all.take(i as int), me@, team),
        decreases mentions@.len() - i,
    {
        assert(all.take(i + 1).drop_last() =~= all.take(i as int));
        if let Some(name) = &mentions[i] {
            if text::list_has(teammates, name.as_str()) && !text::same(name.as_str(), me)
                && !text::list_has(&r, name.as_str()) {
                let ghost before = r@;
                r.push(name.clone());
                assert(text::texts(r@) =~= text::texts(before).push(name@));
            }
        }
        i += 1;
    }
    assert(all.take(i as int) =~= all);
    r
}

/// Makes an answer honest, given whether its response claims a delegation and whom it mentions.
pub fn enforce_delegation(
    output: CollabOutput,
    me: &str,
    teammates: &Vec<String>,
    claims: bool,
    mentions: &Vec<Option<String>>,
) -> (r: CollabOutput)
    ensures
        ({
            let h = honest(
                text::opt_text(output.response),
                tasks(output.delegate@),
                me@,
                text::texts(teammates@),
                claims,
                outside::opt_texts(mentions@),
            );
            text::opt_text(r.response) == h.0 && tasks(r.delegate@) == h.1
        }),
        r.state_update == output.state_update,
        r.completed_tasks == output.completed_tasks,
        r.messages == output.messages,
        r.wants_to_continue == output.wants_to_continue,
{
    let mut out = output;
    if out.delegate.len() > 0 || !claims {
        return out;
    }
    let response = match &out.response {
        Some(s) => s.clone(),
        None => {
            return out;
        },
    };
    let found = teammates_in(mentions, me, teammates);
    assert(text::texts(found@).len() == found@.len());
    if found.len() == 1 {
        assert(text::texts(found@)[0] == found@[0]@);
        let ghost before = out.delegate@;
        out.delegate.push(DelegateTask { to: found[0].clone(), task: response });
        assert(tasks(out.delegate@) =~= seq![(found@[0]@, response@)]);
    } else {
        out.response = Some(SCRUBBED.to_owned());
    }
    out
}

/// Whether a response claims a delegation.
pub open spec fn claims_delegation(response: Option<Seq<char>>) -> bool {
    match response {
        Some(s) => outside::regex_matches(DELEGATION_CLAIM@, s) == Some(true),
        None => false,
    }
}

/// Whom a response mentions.
pub open spec fn mentions_in(response: Option<Seq<char>>) -> Seq<Option<Seq<char>>> {
    match response {
        Some(s) => match outside::regex_first_groups(MENTION@, s) {
            Some(g) => g,
            None => Seq::empty(),
        },
        None => Seq::empty(),
    }
}

/// Makes an answer honest.
pub fn guard_delegation(output: CollabOutput, me: &str, teammates: &Vec<String>) -> (r: CollabOutput)
    ensures
        ({
            let response = text::opt_text(output.response);
            let h = honest(
                response,
                tasks(output.delegate@),
                me@,
                text::texts(teammates@),
                claims_delegation(response),
                mentions_in(response),
            );
            text::opt_text(r.response) == h.0 && tasks(r.delegate@) == h.1
        }),
        r.state_update == output.state_update,
        r.completed_tasks == output.completed_tasks,
        r.messages == output.messages,
        r.wants_to_continue == output.wants_to_continue,
{
    let mut claims = false;
    let mut mentions: Vec<Option<String>> = Vec::new();
    assert(outside::opt_texts(mentions@) =~= Seq::<Option<Seq<char>>>::empty());
    if let Some(s) = &output.response {
        match outside::regex_is_match(DELEGATION_CLAIM, s.as_str()) {
            Some(b) => {
                claims = b;
            },
            None => {},
        }
        match outside::regex_captures(MENTION, s.as_str()) {
            Some(v) => {
                mentions = v;
            },
            None => {},
        }
    }
    enforce_delegation(output, me, teammates, claims, &mentions)
}

// ── The plan ────────────────────────────────────────────────────────────────
/// The most tasks that one answer can close.
pub const MAX_COMPLETIONS: usize = 20;

/// What follows from an answer before the server has confirmed any completion.
pub struct TurnPlan {
    /// The response, once for each sender who is owed one.
    pub replies: Vec<Outgoing>,
    /// The tasks to create.
    pub todos: Vec<Outgoing>,
    /// Targets that no task is created for: nobody knows them.
    pub rejected: Vec<String>,
    /// The direct messages to send.
    pub direct: Vec<Outgoing>,
    /// The tasks to mark as done.
    pub completions: Vec<String>,
    /// What the worker sends itself to go on.
    pub self_note: Option<String>,
}

/// Who was given work.
pub open spec fn delegated(delegate: Seq<(Seq<char>, Seq<char>)>) -> Seq<Seq<char>> {
    Seq::new(delegate.len(), |i: int| text::bare_name(delegate[i].0))
}

/// A sender who is owed the response: not the worker itself, not the harness, and not somebody
/// who was given work.
pub open spec fn owed_reply(sender: Seq<char>, me: Seq<char>, busy: Seq<Seq<char>>) -> bool {
    sender != me && sender != "system"@ && !busy.contains(sender)
}

/// Those of the senders who are owed the response, each once.
pub open spec fn reply_targets(from: Seq<Seq<char>>, me: Seq<char>, busy: Seq<Seq<char>>) -> Seq<
    Seq<char>,
>
    decreases from.len(),
{
    if from.len() == 0 {
        Seq::empty()
    } else {
        let r = reply_targets(from.drop_last(), me, busy);
        if owed_reply(from.last(), me, busy) && !r.contains(from.last()) {
            r.push(from.last())
        } else {
            r
        }
    }
}

/// Who is sent the response.
pub open spec fn replied_to(
    response: Option<Seq<char>>,
    from: Seq<Seq<char>>,
    me: Seq<char>,
    busy: Seq<Seq<char>>,
) -> Seq<Seq<char>> {
    if response is Some && response->0.len() > 0 {
        reply_targets(from, me, busy)
    } else {
        Seq::empty()
    }
}

/// The replies: the response to each of those who are owed it.
pub open spec fn planned_replies(
    response: Option<Seq<char>>,
    from: Seq<Seq<char>>,
    me: Seq<char>,
    busy: Seq<Seq<char>>,
) -> Seq<(Seq<char>, Seq<char>)> {
    let to = replied_to(response, from, me, busy);
    Seq::new(to.len(), |i: int| (to[i], response->0))
}

/// The tasks whose target is allowed, in order.
pub open spec fn planned_todos(
    delegate: Seq<(Seq<char>, Seq<char>)>,
    me: Seq<char>,
    teammates: Seq<Seq<char>>,
) -> Seq<(Seq<char>, Seq<char>)>
    decreases delegate.len(),
{
    if delegate.len() == 0 {
        Seq::empty()
    } else {
        let r = planned_todos(delegate.drop_last(), me, teammates);
        let to = text::bare_name(delegate.last().0);
        if worker::may_delegate(to, me, teammates) {
            r.push((to, delegate.last().1))
        } else {
            r
        }
    }
}

/// The targets that are not allowed, in order.
pub open spec fn refused_targets(
    delegate: Seq<(Seq<char>, Seq<char>)>,
    me: Seq<char>,
    teammates: Seq<Seq<char>>,
) -> Seq<Seq<char>>
    decreases delegate.len(),
{
    if delegate.len() == 0 {
        Seq::empty()
    } else {
        let r = refused_targets(delegate.drop_last(), me, teammates);
        let to = text::bare_name(delegate.last().0);
        if worker::may_delegate(to, me, teammates) {
            r
        } else {
            r.push(to)
        }
    }
}

/// The direct messages that are sent: the first to each recipient who got neither the response
/// nor work.
pub open spec fn planned_direct(
    messages: Seq<(Seq<char>, Seq<char>)>,
    busy: Seq<Seq<char>>,
    replied: Seq<Seq<char>>,
) -> Seq<(Seq<char>, Seq<char>)>
    decreases messages.len(),
{
    if messages.len() == 0 {
        Seq::empty()
    } else {
        let r = planned_direct(messages.drop_last(), busy, replied);
        let to = text::bare_name(messages.last().0);
        if busy.contains(to) || replied.contains(to) || names(r).contains(to) {
            r
        } else {
            r.push((to, messages.last().1))
        }
    }
}

/// The distinct task hashes among `claimed`, trimmed, without empty ones.
pub open spec fn distinct_hashes(claimed: Seq<Seq<char>>) -> Seq<Seq<char>>
    decreases claimed.len(),
{
    if claimed.len() == 0 {
        Seq::empty()
    } else {
        let r = distinct_hashes(claimed.drop_last());
        let h = text::trimmed(claimed.last());
        if h.len() == 0 || r.contains(h) {
            r
        } else {
            r.push(h)
        }
    }
}

/// The tasks to mark as done: those among the first claimed ones.
pub open spec fn planned_completions(claimed: Seq<Seq<char>>) -> Seq<Seq<char>> {
    if claimed.len() <= MAX_COMPLETIONS {
        distinct_hashes(claimed)
    } else {
        distinct_hashes(claimed.take(MAX_COMPLETIONS as int))
    }
}

/// What a worker that wants to go on sends itself.
pub open spec fn planned_note(response: Option<Seq<char>>, go_on: bool) -> Option<Seq<char>> {
    if go_on {
        Some(
            "(self-continue) Previous output: "@ + (match response {
                Some(s) => s,
                None => "Continuing..."@,
            }),
        )
    } else {
        None
    }
}

fn busy_names(delegate: &Vec<DelegateTask>) -> (r: Vec<String>)
    ensures
        text::texts(r@) == delegated(tasks(delegate@)),
{
    let mut r: Vec<String> = Vec::new();
    let mut i: usize = 0;
    while i < delegate.len()
        invariant
            i <= delegate@.len(),
            text::texts(r@) == delegated(tasks(delegate@)).take(i as int),
        decreases delegate@.len() - i,
    {
        let ghost before = r@;
        r.push(text::without_at(delegate[i].to.as_str()));
        assert(text::texts(r@) =~= text::texts(before).push(delegated(tasks(delegate@))[i as int]));
        assert(delegated(tasks(delegate@)).take(i + 1) =~= delegated(tasks(delegate@)).take(
            i as int,
        ).push(delegated(tasks(delegate@))[i as int]));
        i += 1;
    }
    assert(delegated(tasks(delegate@)).take(i as int) =~= delegated(tasks(delegate@)));
    r
}

fn targets_of_reply(messages: &Vec<Message>, me: &str, busy: &Vec<String>) -> (r: Vec<String>)
    ensures
        text::texts(r@) == reply_targets(worker::senders(messages@), me@, text::texts(busy@)),
{
    let ghost all = worker::senders(messages@);
    let mut r: Vec<String> = Vec::new();
    let mut i: usize = 0;
    assert(text::texts(r@) =~= reply_targets(all.take(0), me@, text::texts(busy@)));
    while i < messages.len()
        invariant
            i <= messages@.len(),
            all == worker::senders(messages@),
            text::texts(r@) == reply_targets(all.take(i as int), me@, text::texts(busy@)),
        decreases messages@.len() - i,
    {
        assert(all.take(i + 1).drop_last() =~= all.take(i as int));
        let s = messages[i].sender.as_str();
        if !text::same(s, me) && !text::same(s, "system") && !text::list_has(busy, s)
            && !text::list_has(&r, s) {
            let ghost before = r@;
            r.push(messages[i].sender.clone());
            assert(text::texts(r@) =~= text::texts(before).push(s@));
        }
        i += 1;
    }
    assert(all.take(i as int) =~= all);
    r
}

fn addressed(to: &Vec<String>, body: &str) -> (r: Vec<Outgoing>)
    ensures
        sent(r@) == Seq::new(to@.len(), |i: int| (text::texts(to@)[i], body@)),
{
    let ghost want = Seq::new(to@.len(), |i: int| (text::texts(to@)[i], body@));
    let mut r: Vec<Outgoing> = Vec::new();
    let mut i: usize = 0;
    while i < to.len()
        invariant
            i <= to@.len(),
            want == Seq::new(to@.len(), |i: int| (text::texts(to@)[i], body@)),
            sent(r@) == want.take(i as int),
        decreases to@.len() - i,
    {
        let ghost before = r@;
        r.push(Outgoing { to: to[i].clone(), text: body.to_owned() });
        assert(sent(r@) =~= sent(before).push(want[i as int]));
        assert(want.take(i + 1) =~= want.take(i as int).push(want[i as int]));
        i += 1;
    }
    assert(want.take(i as int) =~= want);
    r
}

fn split_delegations(delegate: &Vec<DelegateTask>, me: &str, teammates: &Vec<String>) -> (r: (
    Vec<Outgoing>,
    Vec<String>,
))
    ensures
        sent(r.0@) == planned_todos(tasks(delegate@), me@, text::texts(teammates@)),
        text::texts(r.1@) == refused_targets(tasks(delegate@), me@, text::texts(teammates@)),
{
    let ghost all = tasks(delegate@);
    let ghost team = text::texts(teammates@);
    let mut todos: Vec<Outgoing> = Vec::new();
    let mut refused: Vec<String> = Vec::new();
    let mut i: usize = 0;
    assert(sent(todos@) =~= planned_todos(all.take(0), me@, team));
    assert(text::texts(refused@) =~= refused_targets(all.take(0), me@, team));
    while i < delegate.len()
        invariant
            i <= delegate@.len(),
            all == tasks(delegate@),
            team == text::texts(teammates@),
            sent(todos@) == planned_todos(all.take(i as int), me@, team),
            text::texts(refused@) == refused_targets(all.take(i as int), me@, team),
        decreases delegate@.len() - i,
    {
        assert(all.take(i + 1).drop_last() =~= all.take(i as int));
        let to = text::without_at(delegate[i].to.as_str());
        if worker::is_allowed_delegate_target(to.as_str(), me, teammates) {
            let ghost before = todos@;
            let ghost name = to@;
            todos.push(Outgoing { to, text: delegate[i].task.clone() });
            assert(sent(todos@) =~= sent(before).push((name, all[i as int].1)));
        } else {
            let ghost before = refused@;
            let ghost name = to@;
            refused.push(to);
            assert(text::texts(refused@) =~= text::texts(before).push(name));
        }
        i += 1;
    }
    assert(all.take(i as int) =~= all);
    (todos, refused)
}

fn has_recipient(v: &Vec<Outgoing>, to: &str) -> (r: bool)
    ensures
        r == names(sent(v@)).contains(to@),
{
    let mut i: usize = 0;
    while i < v.len()
        invariant
            i <= v@.len(),
            forall|k: int| 0 <= k < i ==> v@[k].to@ != to@,
        decreases v@.len() - i,
    {
        if text::same(v[i].to.as_str(), to) {
            assert(names(sent(v@))[i as int] == to@);
            return true;
        }
        i += 1;
    }
    assert forall|k: int| 0 <= k < names(sent(v@)).len() implies names(sent(v@))[k] != to@ by {}
    false
}

fn direct_messages(messages: &Vec<DirectMessage>, busy: &Vec<String>, replied: &Vec<String>) -> (r:
    Vec<Outgoing>)
    ensures
        sent(r@) == planned_direct(notes(messages@), text::texts(busy@), text::texts(replied@)),
{
    let ghost all = notes(messages@);
    let mut r: Vec<Outgoing> = Vec::new();
    let mut i: usize = 0;
    assert(sent(r@) =~= planned_direct(all.take(0), text::texts(busy@), text::texts(replied@)));
    while i < messages.len()
        invariant
            i <= messages@.len(),
            all == notes(messages@),
            sent(r@) == planned_direct(
                all.take(i as int),
                text::texts(busy@),
                text::texts(replied@),
            ),
        decreases messages@.len() - i,
    {
        assert(all.take(i + 1).drop_last() =~= all.take(i as int));
        let to = text::without_at(messages[i].to.as_str());
        if !text::list_has(busy, to.as_str()) && !text::list_has(replied, to.as_str())
            && !has_recipient(&r, to.as_str()) {
            let ghost before = r@;
            let ghost name = to@;
            r.push(Outgoing { to, text: messages[i].text.clone() });
            assert(sent(r@) =~= sent(before).push((name, all[i as int].1)));
        }
        i += 1;
    }
    assert(all.take(i as int) =~= all);
    r
}

fn completion_hashes(claimed: &Vec<String>) -> (r: Vec<String>)
    ensures
        text::texts(r@) == planned_completions(text::texts(claimed@)),
{
    let ghost all = text::texts(claimed@);
    let n: usize = if claimed.len() <= MAX_COMPLETIONS {
        claimed.len()
    } else {
        MAX_COMPLETIONS
    };
    let mut r: Vec<String> = Vec::new();
    let mut i: usize = 0;
    assert(text::texts(r@) =~= distinct_hashes(all.take(0)));
    while i < n
        invariant
            i <= n <= claimed@.len(),
            all == text::texts(claimed@),
            text::texts(r@) == distinct_hashes(all.take(i as int)),
        decreases n - i,
    {
        assert(all.take(i + 1).drop_last() =~= all.take(i as int));
        let h = text::trim(claimed[i].as_str());
        if !h.as_str().is_empty() && !text::list_has(&r, h.as_str()) {
            let ghost before = r@;
            let ghost name = h@;
            r.push(h);
            assert(text::texts(r@) =~= text::texts(before).push(name));
        }
        i += 1;
    }
    assert(claimed@.len() <= MAX_COMPLETIONS ==> all.take(i as int) =~= all);
    r
}

/// What follows from an answer to `messages`.
pub fn plan_turn(
    output: &CollabOutput,
    messages: &Vec<Message>,
    me: &str,
    teammates: &Vec<String>,
) -> (p: TurnPlan)
    ensures
        ({
            let response = text::opt_text(output.response);
            let delegate = tasks(output.delegate@);
            let busy = delegated(delegate);
            let from = worker::senders(messages@);
            let team = text::texts(teammates@);
            let replied = replied_to(response, from, me@, busy);
            &&& sent(p.replies@) == planned_replies(response, from, me@, busy)
            &&& sent(p.todos@) == planned_todos(delegate, me@, team)
            &&& text::texts(p.rejected@) == refused_targets(delegate, me@, team)
            &&& sent(p.direct@) == planned_direct(notes(output.messages@), busy, replied)
            &&& text::texts(p.completions@) == planned_completions(
                text::texts(output.completed_tasks@),
            )
            &&& text::opt_text(p.self_note) == planned_note(response, output.wants_to_continue)
        }),
        p.self_note is Some <==> output.wants_to_continue,
        p.self_note is Some && output.response is Some ==> output.response->0@.is_suffix_of(
            p.self_note->0@,
        ),
{
    let busy = busy_names(&output.delegate);
    let ghost from = worker::senders(messages@);
    let mut replied: Vec<String> = Vec::new();
    let mut replies: Vec<Outgoing> = Vec::new();
    assert(text::texts(replied@) =~= Seq::<Seq<char>>::empty());
    assert(sent(replies@) =~= Seq::<(Seq<char>, Seq<char>)>::empty());
    if let Some(response) = &output.response {
        if !response.as_str().is_empty() {
            replied = targets_of_reply(messages, me, &busy);
            replies = addressed(&replied, response.as_str());
        }
    }
    assert(text::texts(replied@) == replied_to(
        text::opt_text(output.response),
        from,
        me@,
        text::texts(busy@),
    ));
    assert(sent(replies@) =~= planned_replies(
        text::opt_text(output.response),
        from,
        me@,
        text::texts(busy@),
    ));
    let (todos, rejected) = split_delegations(&output.delegate, me, teammates);
    let direct = direct_messages(&output.messages, &busy, &replied);
    let completions = completion_hashes(&output.completed_tasks);
    let self_note = if output.wants_to_continue {
        match &output.response {
            Some(s) => Some(text::glue("(self-continue) Previous output: ", s.as_str())),
            None => Some(text::glue("(self-continue) Previous output: ", "Continuing...")),
        }
    } else {
        None
    };
    proof {
        going_on_is_asked_for(text::opt_text(output.response), output.wants_to_continue);
    }
    TurnPlan { replies, todos, rejected, direct, completions, self_note }
}

// ── Finished work ───────────────────────────────────────────────────────────
/// Where finished work goes once the server has confirmed `confirmed` completions: to the
/// teammate whom the worker reports to, unless that one heard from the worker this turn.
pub open spec fn planned_handoff(
    response: Option<Seq<char>>,
    me: Seq<char>,
    reports_to: Option<Seq<char>>,
    contacted: Seq<Seq<char>>,
    confirmed: nat,
) -> Option<(Seq<char>, Seq<char>)> {
    match reports_to {
        Some(name) => {
            let to = text::bare_name(name);
            if confirmed > 0 && !contacted.contains(to) {
                let summary = match response {
                    Some(s) => s,
                    None => "Task completed."@,
                };
                Some((to, "Completed work from @"@ + me + ": "@ + summary))
            } else {
                None
            }
        },
        None => None,
    }
}

/// Everybody who heard from the worker this turn: by the response, by a direct message or by
/// being given work.
pub open spec fn contacted(
    replies: Seq<(Seq<char>, Seq<char>)>,
    direct: Seq<(Seq<char>, Seq<char>)>,
    busy: Seq<Seq<char>>,
) -> Seq<Seq<char>> {
    names(replies) + names(direct) + busy
}

/// The message by which finished work is passed on.
pub fn plan_handoff(
    output: &CollabOutput,
    plan: &TurnPlan,
    me: &str,
    reports_to: &Option<String>,
    confirmed: usize,
) -> (r: Option<Outgoing>)
    ensures
        (match r {
            Some(o) => Some((o.to@, o.text@)),
            None => None,
        }) == planned_handoff(
            text::opt_text(output.response),
            me@,
            text::opt_text(*reports_to),
            contacted(sent(plan.replies@), sent(plan.direct@), delegated(tasks(output.delegate@))),
            confirmed as nat,
        ),
{
    let name = match reports_to {
        Some(n) => n,
        None => {
            return None;
        },
    };
    let to = text::without_at(name.as_str());
    let busy = busy_names(&output.delegate);
    let ghost a = names(sent(plan.replies@));
    let ghost b = names(sent(plan.direct@));
    let ghost c = text::texts(busy@);
    let in_replies = has_recipient(&plan.replies, to.as_str());
    let in_direct = has_recipient(&plan.direct, to.as_str());
    let in_busy = text::list_has(&busy, to.as_str());
    proof {
        let all = a + b + c;
        if a.contains(to@) {
            let i = choose|i: int| 0 <= i < a.len() && a[i] == to@;
            assert(all[i] == to@);
        }
        if b.contains(to@) {
            let i = choose|i: int| 0 <= i < b.len() && b[i] == to@;
            assert(all[a.len() + i] == to@);
        }
        if c.contains(to@) {
            let i = choose|i: int| 0 <= i < c.len() && c[i] == to@;
            assert(all[a.len() + b.len() + i] == to@);
        }
        if all.contains(to@) {
            let i = choose|i: int| 0 <= i < all.len() && all[i] == to@;
            if i < a.len() {
                assert(a[i] == to@);
            } else if i < a.len() + b.len() {
                assert(b[i - a.len()] == to@);
            } else {
                assert(c[i - a.len() - b.len()] == to@);
            }
        }
    }
    if confirmed == 0 || in_replies || in_direct || in_busy {
        return None;
    }
    let mut body = text::glue3("Completed work from @", me, ": ");
    match &output.response {
        Some(s) => {
            body.append(s.as_str());
        },
        None => {
            body.append("Task completed.");
        },
    }
    Some(Outgoing { to, text: body })
}

// ── Answers that are not structured ─────────────────────────────────────────
/// What becomes of an output in which no answer was found.
pub enum Fallback {
    /// There is nothing in it.
    Nothing,
    /// It looks like a broken answer: it is kept for inspection and sent to nobody.
    Broken(String),
    /// It is plain text: it goes to each sender.
    Plain(Vec<Outgoing>),
}

/// The replies to every message that came neither from the worker itself nor from the harness.
pub open spec fn plain_replies(from: Seq<Seq<char>>, me: Seq<char>, body: Seq<char>) -> Seq<
    (Seq<char>, Seq<char>),
>
    decreases from.len(),
{
    if from.len() == 0 {
        Seq::empty()
    } else {
        let r = plain_replies(from.drop_last(), me, body);
        if from.last() != me && from.last() != "system"@ {
            r.push((from.last(), body))
        } else {
            r
        }
    }
}

/// An output that was meant to be an answer.
pub open spec fn looks_structured(raw: Seq<char>) -> bool {
    text::contains_text(raw, "\"response\""@) && text::contains_text(raw, "{"@)
}

/// What becomes of an output in which no answer was found.
pub fn plan_fallback(stdout: &str, messages: &Vec<Message>, me: &str) -> (r: Fallback)
    ensures
        ({
            let raw = text::trimmed(stdout@);
            match r {
                Fallback::Nothing => raw.len() == 0,
                Fallback::Broken(s) => raw.len() > 0 && looks_structured(raw) && s@ == raw,
                Fallback::Plain(v) => raw.len() > 0 && !looks_structured(raw) && sent(v@)
                    == plain_replies(worker::senders(messages@), me@, raw),
            }
        }),
{
    let raw = text::trim(stdout);
    if raw.as_str().is_empty() {
        return Fallback::Nothing;
    }
    if text::contains(raw.as_str(), "\"response\"") && text::contains(raw.as_str(), "{") {
        return Fallback::Broken(raw);
    }
    let ghost all = worker::senders(messages@);
    let mut v: Vec<Outgoing> = Vec::new();
    let mut i: usize = 0;
    assert(sent(v@) =~= plain_replies(all.take(0), me@, raw@));
    while i < messages.len()
        invariant
            i <= messages@.len(),
            all == worker::senders(messages@),
            sent(v@) == plain_replies(all.take(i as int), me@, raw@),
        decreases messages@.len() - i,
    {
        assert(all.take(i + 1).drop_last() =~= all.take(i as int));
        let s = messages[i].sender.as_str();
        if !text::same(s, me) && !text::same(s, "system") {
            let ghost before = v@;
            v.push(Outgoing { to: messages[i].sender.clone(), text: raw.clone() });
            assert(sent(v@) =~= sent(before).push((s@, raw@)));
        }
        i += 1;
    }
    assert(all.take(i as int) =~= all);
    Fallback::Plain(v)
}

// ── Laws ────────────────────────────────────────────────────────────────────
proof fn reply_targets_meaning(from: Seq<Seq<char>>, me: Seq<char>, busy: Seq<Seq<char>>)
    ensures
        reply_targets(from, me, busy).no_duplicates(),
        forall|i: int|
            0 <= i < reply_targets(from, me, busy).len() ==> owed_reply(
                #[trigger] reply_targets(from, me, busy)[i],
                me,
                busy,
            ) && from.contains(reply_targets(from, me, busy)[i]),
    decreases from.len(),
{
    if from.len() > 0 {
        let init = from.drop_last();
        let r = reply_targets(init, me, busy);
        reply_targets_meaning(init, me, busy);
        let all = reply_targets(from, me, busy);
        assert(from[from.len() - 1] == from.last());
        assert forall|i: int| 0 <= i < all.len() implies owed_reply(#[trigger] all[i], me, busy)
            && from.contains(all[i]) by {
            if i < r.len() {
                assert(all[i] == r[i]);
                assert(init.contains(r[i]));
                let k = choose|k: int| 0 <= k < init.len() && init[k] == r[i];
                assert(from[k] == r[i]);
            }
        }
    }
}

/// Everybody who wrote and is owed the response gets it, and nobody else does.
pub proof fn replies_reach_senders(
    response: Seq<char>,
    from: Seq<Seq<char>>,
    me: Seq<char>,
    busy: Seq<Seq<char>>,
    who: Seq<char>,
)
    requires
        response.len() > 0,
    ensures
        replied_to(Some(response), from, me, busy).contains(who) <==> from.contains(who)
            && owed_reply(who, me, busy),
    decreases from.len(),
{
    reply_targets_meaning(from, me, busy);
    if from.len() > 0 {
        let init = from.drop_last();
        replies_reach_senders(response, init, me, busy, who);
        let r = reply_targets(init, me, busy);
        let all = reply_targets(from, me, busy);
        if from.contains(who) && owed_reply(who, me, busy) {
            let k = choose|k: int| 0 <= k < from.len() && from[k] == who;
            if k < init.len() {
                assert(init[k] == who);
            }
            if r.contains(who) {
                let i = choose|i: int| 0 <= i < r.len() && r[i] == who;
                assert(all[i] == who);
            } else {
                assert(from.last() == who);
                assert(all[r.len() as int] == who);
            }
        }
        if all.contains(who) {
            let i = choose|i: int| 0 <= i < all.len() && all[i] == who;
            assert(from.contains(all[i]));
        }
    }
}

proof fn direct_meaning(
    messages: Seq<(Seq<char>, Seq<char>)>,
    busy: Seq<Seq<char>>,
    replied: Seq<Seq<char>>,
)
    ensures
        names(planned_direct(messages, busy, replied)).no_duplicates(),
        forall|i: int|
            0 <= i < planned_direct(messages, busy, replied).len() ==> !busy.contains(
                (#[trigger] planned_direct(messages, busy, replied)[i]).0,
            ) && !replied.contains(planned_direct(messages, busy, replied)[i].0),
    decreases messages.len(),
{
    if messages.len() > 0 {
        let init = messages.drop_last();
        direct_meaning(init, busy, replied);
        let r = planned_direct(init, busy, replied);
        let all = planned_direct(messages, busy, replied);
        let to = text::bare_name(messages.last().0);
        if all != r {
            assert(names(all) =~= names(r).push(to));
            assert forall|i: int, j: int|
                0 <= i < names(all).len() && 0 <= j < names(all).len() && i != j implies names(
                all,
            )[i] != names(all)[j] by {
                if i < r.len() {
                    assert(names(all)[i] == names(r)[i]);
                }
                if j < r.len() {
                    assert(names(all)[j] == names(r)[j]);
                }
            }
        }
    }
}

/// Within one turn nobody is written to twice: the recipients of the response, of the direct
/// messages and of the finished work are all different, and none of them was given work.
pub proof fn nobody_is_contacted_twice(
    response: Option<Seq<char>>,
    from: Seq<Seq<char>>,
    me: Seq<char>,
    delegate: Seq<(Seq<char>, Seq<char>)>,
    messages: Seq<(Seq<char>, Seq<char>)>,
    reports_to: Option<Seq<char>>,
    confirmed: nat,
)
    ensures
        ({
            let busy = delegated(delegate);
            let replies = planned_replies(response, from, me, busy);
            let direct = planned_direct(messages, busy, replied_to(response, from, me, busy));
            let written = names(replies) + names(direct);
            let handoff = planned_handoff(
                response,
                me,
                reports_to,
                contacted(replies, direct, busy),
                confirmed,
            );
            &&& written.no_duplicates()
            &&& forall|i: int| 0 <= i < written.len() ==> !busy.contains(#[trigger] written[i])
            &&& handoff matches Some(h) ==> !written.contains(h.0) && !busy.contains(h.0)
        }),
{
    let busy = delegated(delegate);
    let replied = replied_to(response, from, me, busy);
    let replies = planned_replies(response, from, me, busy);
    let direct = planned_direct(messages, busy, replied);
    let written = names(replies) + names(direct);
    reply_targets_meaning(from, me, busy);
    direct_meaning(messages, busy, replied);
    assert(names(replies) =~= replied);
    assert forall|i: int, j: int|
        0 <= i < written.len() && 0 <= j < written.len() && i != j implies written[i]
        != written[j] by {
        let n = replied.len();
        if i < n && j < n {
            assert(replied[i] != replied[j]);
        } else if i >= n && j >= n {
            assert(names(direct)[i - n] != names(direct)[j - n]);
        } else if i < n {
            assert(replied.contains(replied[i]));
            assert(names(direct)[j - n] == direct[j - n].0);
        } else {
            assert(replied.contains(replied[j]));
            assert(names(direct)[i - n] == direct[i - n].0);
        }
    }
    assert forall|i: int| 0 <= i < written.len() implies !busy.contains(#[trigger] written[i]) by {
        let n = replied.len();
        if i < n {
            assert(written[i] == replied[i]);
        } else {
            assert(written[i] == direct[i - n].0);
        }
    }
    let all = contacted(replies, direct, busy);
    let handoff = planned_handoff(response, me, reports_to, all, confirmed);
    if handoff is Some {
        let to = (handoff->0).0;
        if written.contains(to) {
            let i = choose|i: int| 0 <= i < written.len() && written[i] == to;
            assert(all[i] == to);
        }
        if busy.contains(to) {
            let i = choose|i: int| 0 <= i < busy.len() && busy[i] == to;
            assert(all[written.len() + i] == to);
        }
    }
}

/// No task is created for somebody whom the worker may not give work, and every task is either
/// created or refused.
pub proof fn work_goes_to_known_workers(
    delegate: Seq<(Seq<char>, Seq<char>)>,
    me: Seq<char>,
    teammates: Seq<Seq<char>>,
)
    ensures
        forall|i: int|
            0 <= i < planned_todos(delegate, me, teammates).len() ==> worker::may_delegate(
                (#[trigger] planned_todos(delegate, me, teammates)[i]).0,
                me,
                teammates,
            ),
        forall|i: int|
            0 <= i < refused_targets(delegate, me, teammates).len() ==> !worker::may_delegate(
                #[trigger] refused_targets(delegate, me, teammates)[i],
                me,
                teammates,
            ),
        planned_todos(delegate, me, teammates).len() + refused_targets(
            delegate,
            me,
            teammates,
        ).len() == delegate.len(),
    decreases delegate.len(),
{
    if delegate.len() > 0 {
        work_goes_to_known_workers(delegate.drop_last(), me, teammates);
    }
}

/// One answer closes at most a fixed number of tasks, none of them twice and none without a name.
pub proof fn completions_are_bounded(claimed: Seq<Seq<char>>)
    ensures
        planned_completions(claimed).len() <= MAX_COMPLETIONS,
        planned_completions(claimed).no_duplicates(),
        forall|i: int|
            0 <= i < planned_completions(claimed).len() ==> (#[trigger] planned_completions(
                claimed,
            )[i]).len() > 0,
{
    if claimed.len() <= MAX_COMPLETIONS {
        hashes_meaning(claimed);
    } else {
        hashes_meaning(claimed.take(MAX_COMPLETIONS as int));
    }
}

proof fn hashes_meaning(claimed: Seq<Seq<char>>)
    ensures
        distinct_hashes(claimed).len() <= claimed.len(),
        distinct_hashes(claimed).no_duplicates(),
        forall|i: int|
            0 <= i < distinct_hashes(claimed).len() ==> (#[trigger] distinct_hashes(
                claimed,
            )[i]).len() > 0,
    decreases claimed.len(),
{
    if claimed.len() > 0 {
        hashes_meaning(claimed.drop_last());
    }
}

/// An answer that names a task, or claims none, is left as it is.
pub proof fn honest_answers_are_kept(
    response: Option<Seq<char>>,
    delegate: Seq<(Seq<char>, Seq<char>)>,
    me: Seq<char>,
    teammates: Seq<Seq<char>>,
    claims: bool,
    mentions: Seq<Option<Seq<char>>>,
)
    requires
        delegate.len() > 0 || !claims,
    ensures
        honest(response, delegate, me, teammates, claims, mentions) == (response, delegate),
{
}

proof fn mentions_meaning(
    mentions: Seq<Option<Seq<char>>>,
    me: Seq<char>,
    teammates: Seq<Seq<char>>,
)
    ensures
        forall|i: int|
            0 <= i < mentioned_teammates(mentions, me, teammates).len() ==> teammates.contains(
                #[trigger] mentioned_teammates(mentions, me, teammates)[i],
            ) && mentioned_teammates(mentions, me, teammates)[i] != me,
    decreases mentions.len(),
{
    if mentions.len() > 0 {
        let r = mentioned_teammates(mentions.drop_last(), me, teammates);
        let all = mentioned_teammates(mentions, me, teammates);
        mentions_meaning(mentions.drop_last(), me, teammates);
        assert forall|i: int| 0 <= i < all.len() implies teammates.contains(#[trigger] all[i])
            && all[i] != me by {
            if i < r.len() {
                assert(all[i] == r[i]);
            }
        }
    }
}

/// A claim to have delegated never stands unbacked: behind the guard either there is a task, for
/// a teammate other than the worker, or the claim is gone.
pub proof fn claims_are_backed(
    response: Seq<char>,
    delegate: Seq<(Seq<char>, Seq<char>)>,
    me: Seq<char>,
    teammates: Seq<Seq<char>>,
    mentions: Seq<Option<Seq<char>>>,
)
    ensures
        ({
            let h = honest(Some(response), delegate, me, teammates, true, mentions);
            &&& h.1.len() > 0 || h.0 == Some(SCRUBBED@)
            &&& delegate.len() == 0 && h.1.len() > 0 ==> h.1.len() == 1 && h.1[0].1 == response
                && teammates.contains(h.1[0].0) && h.1[0].0 != me
        }),
{
    mentions_meaning(mentions, me, teammates);
}

/// A worker goes on by itself exactly where its answer asks for that, and what it then tells itself
/// ends with what it answered.
pub proof fn going_on_is_asked_for(response: Option<Seq<char>>, go_on: bool)
    ensures
        planned_note(response, go_on) is Some <==> go_on,
        go_on ==> "(self-continue) "@.is_prefix_of(planned_note(response, go_on)->0),
        go_on && response is Some ==> (response->0).is_suffix_of(planned_note(response, go_on)->0),
        go_on && response is None ==> "Continuing..."@.is_suffix_of(
            planned_note(response, go_on)->0,
        ),
{
    if go_on {
        let n = planned_note(response, go_on)->0;
        reveal_strlit("(self-continue) ");
        reveal_strlit("(self-continue) Previous output: ");
        assert("(self-continue) "@ =~= n.subrange(0, "(self-continue) "@.len() as int));
        let tail = match response {
            Some(s) => s,
            None => "Continuing..."@,
        };
        assert(tail =~= n.subrange(n.len() - tail.len(), n.len() as int));
    }
}

/// Somebody is sent the response, and the response alone, exactly where they wrote, are neither the
/// worker nor the harness, and no task of the answer goes to them; with nothing to say nobody is.
pub proof fn replies_are_owed(
    response: Option<Seq<char>>,
    from: Seq<Seq<char>>,
    me: Seq<char>,
    delegate: Seq<(Seq<char>, Seq<char>)>,
    who: Seq<char>,
    what: Seq<char>,
)
    ensures
        planned_replies(response, from, me, delegated(delegate)).contains((who, what)) <==> {
            &&& response == Some(what)
            &&& what.len() > 0
            &&& from.contains(who)
            &&& who != me
            &&& who != "system"@
            &&& forall|i: int|
                0 <= i < delegate.len() ==> text::bare_name((#[trigger] delegate[i]).0) != who
        },
{
    let busy = delegated(delegate);
    let to = replied_to(response, from, me, busy);
    let all = planned_replies(response, from, me, busy);
    if response is Some && response->0.len() > 0 {
        replies_reach_senders(response->0, from, me, busy, who);
    }
    if all.contains((who, what)) {
        let i = choose|i: int| 0 <= i < all.len() && all[i] == (who, what);
        assert(to[i] == who);
        assert(to.contains(who));
        assert forall|k: int| 0 <= k < delegate.len() implies text::bare_name(
            (#[trigger] delegate[k]).0,
        ) != who by {
            assert(busy[k] == text::bare_name(delegate[k].0));
        }
    }
    if response == Some(what) && what.len() > 0 && from.contains(who) && who != me && who
        != "system"@ && (forall|i: int|
        0 <= i < delegate.len() ==> text::bare_name((#[trigger] delegate[i]).0) != who) {
        if busy.contains(who) {
            let k = choose|k: int| 0 <= k < busy.len() && busy[k] == who;
            assert(text::bare_name(delegate[k].0) == who);
        }
        let i = choose|i: int| 0 <= i < to.len() && to[i] == who;
        assert(all[i] == (who, what));
    }
}

/// Whoever wrote earlier is answered earlier: later messages only add to the replies.
pub proof fn earlier_senders_are_answered_first(
    from: Seq<Seq<char>>,
    more: Seq<Seq<char>>,
    me: Seq<char>,
    busy: Seq<Seq<char>>,
)
    ensures
        reply_targets(from, me, busy).is_prefix_of(reply_targets(from + more, me, busy)),
    decreases more.len(),
{
    let a = reply_targets(from, me, busy);
    if more.len() == 0 {
        assert(from + more =~= from);
        assert(a =~= a.subrange(0, a.len() as int));
    } else {
        earlier_senders_are_answered_first(from, more.drop_last(), me, busy);
        assert((from + more).drop_last() =~= from + more.drop_last());
        let b = reply_targets(from + more.drop_last(), me, busy);
        let c = reply_targets(from + more, me, busy);
        assert(a =~= c.subrange(0, a.len() as int));
    }
}

/// A direct message is sent exactly where it is the first of the answer to its recipient, who is
/// given no work and is not sent the response; it arrives as it was written.
pub proof fn direct_messages_arrive(
    messages: Seq<(Seq<char>, Seq<char>)>,
    busy: Seq<Seq<char>>,
    replied: Seq<Seq<char>>,
    who: Seq<char>,
    what: Seq<char>,
)
    ensures
        planned_direct(messages, busy, replied).contains((who, what)) <==> {
            &&& !busy.contains(who)
            &&& !replied.contains(who)
            &&& exists|i: int|
                0 <= i < messages.len() && text::bare_name((#[trigger] messages[i]).0) == who
                    && messages[i].1 == what && forall|j: int|
                    0 <= j < i ==> text::bare_name((#[trigger] messages[j]).0) != who
        },
        names(planned_direct(messages, busy, replied)).contains(who) <==> {
            &&& !busy.contains(who)
            &&& !replied.contains(who)
            &&& exists|i: int|
                0 <= i < messages.len() && text::bare_name((#[trigger] messages[i]).0) == who
        },
    decreases messages.len(),
{
    let all = planned_direct(messages, busy, replied);
    if messages.len() > 0 {
        let init = messages.drop_last();
        let r = planned_direct(init, busy, replied);
        let last = messages.last();
        let to = text::bare_name(last.0);
        let n = messages.len() - 1;
        direct_messages_arrive(init, busy, replied, who, what);
        direct_messages_arrive(init, busy, replied, to, what);
        assert(messages[n] == last);
        assert forall|i: int| 0 <= i < n implies #[trigger] messages[i] == init[i] by {}
        if all.contains((who, what)) {
            let k = choose|k: int| 0 <= k < all.len() && all[k] == (who, what);
            if k < r.len() {
                assert(r[k] == (who, what));
                let i = choose|i: int|
                    0 <= i < init.len() && text::bare_name((#[trigger] init[i]).0) == who
                        && init[i].1 == what && forall|j: int|
                        0 <= j < i ==> text::bare_name((#[trigger] init[j]).0) != who;
                assert(messages[i] == init[i]);
                assert forall|j: int| 0 <= j < i implies text::bare_name(
                    (#[trigger] messages[j]).0,
                ) != who by {
                    assert(messages[j] == init[j]);
                }
            } else {
                assert(who == to && what == last.1);
                assert forall|j: int| 0 <= j < n implies text::bare_name(
                    (#[trigger] messages[j]).0,
                ) != who by {
                    assert(messages[j] == init[j]);
                }
                assert(text::bare_name(messages[n].0) == who);
            }
        }
        if !busy.contains(who) && !replied.contains(who) {
            if exists|i: int|
                0 <= i < messages.len() && text::bare_name((#[trigger] messages[i]).0) == who
                    && messages[i].1 == what && forall|j: int|
                    0 <= j < i ==> text::bare_name((#[trigger] messages[j]).0) != who {
                let i = choose|i: int|
                    0 <= i < messages.len() && text::bare_name((#[trigger] messages[i]).0) == who
                        && messages[i].1 == what && forall|j: int|
                        0 <= j < i ==> text::bare_name((#[trigger] messages[j]).0) != who;
                if i < n {
                    assert(init[i] == messages[i]);
                    assert forall|j: int| 0 <= j < i implies text::bare_name(
                        (#[trigger] init[j]).0,
                    ) != who by {
                        assert(messages[j] == init[j]);
                    }
                    assert(r.contains((who, what)));
                    let k = choose|k: int| 0 <= k < r.len() && r[k] == (who, what);
                    assert(all[k] == (who, what));
                } else {
                    assert(to == who);
                    assert(!names(r).contains(to)) by {
                        if names(r).contains(to) {
                            let j = choose|j: int|
                                0 <= j < init.len() && text::bare_name((#[trigger] init[j]).0)
                                    == to;
                            assert(messages[j] == init[j]);
                        }
                    }
                    assert(all[all.len() - 1] == (who, what));
                }
            }
        }
        if names(all).contains(who) {
            let k = choose|k: int| 0 <= k < names(all).len() && names(all)[k] == who;
            if k < r.len() {
                assert(names(r)[k] == who);
                let j = choose|j: int|
                    0 <= j < init.len() && text::bare_name((#[trigger] init[j]).0) == who;
                assert(messages[j] == init[j]);
            } else {
                assert(text::bare_name(messages[n].0) == who);
            }
        }
        if !busy.contains(who) && !replied.contains(who) && (exists|i: int|
            0 <= i < messages.len() && text::bare_name((#[trigger] messages[i]).0) == who) {
            let i = choose|i: int|
                0 <= i < messages.len() && text::bare_name((#[trigger] messages[i]).0) == who;
            if i < n {
                assert(init[i] == messages[i]);
            }
            if names(r).contains(who) {
                let k = choose|k: int| 0 <= k < names(r).len() && names(r)[k] == who;
                assert(names(all)[k] == who);
            } else {
                assert(to == who);
                assert(names(all)[all.len() - 1] == who);
            }
        }
    }
}

/// Later direct messages only add to the earlier ones.
pub proof fn direct_messages_keep_their_order(
    messages: Seq<(Seq<char>, Seq<char>)>,
    more: Seq<(Seq<char>, Seq<char>)>,
    busy: Seq<Seq<char>>,
    replied: Seq<Seq<char>>,
)
    ensures
        planned_direct(messages, busy, replied).is_prefix_of(
            planned_direct(messages + more, busy, replied),
        ),
    decreases more.len(),
{
    let a = planned_direct(messages, busy, replied);
    if more.len() == 0 {
        assert(messages + more =~= messages);
        assert(a =~= a.subrange(0, a.len() as int));
    } else {
        direct_messages_keep_their_order(messages, more.drop_last(), busy, replied);
        assert((messages + more).drop_last() =~= messages + more.drop_last());
        let c = planned_direct(messages + more, busy, replied);
        assert(a =~= c.subrange(0, a.len() as int));
    }
}

proof fn hash_is_claimed(claimed: Seq<Seq<char>>, h: Seq<char>)
    ensures
        distinct_hashes(claimed).contains(h) <==> h.len() > 0 && exists|i: int|
            0 <= i < claimed.len() && text::trimmed(#[trigger] claimed[i]) == h,
    decreases claimed.len(),
{
    if claimed.len() > 0 {
        let init = claimed.drop_last();
        let r = distinct_hashes(init);
        let all = distinct_hashes(claimed);
        let n = claimed.len() - 1;
        hash_is_claimed(init, h);
        assert(claimed[n] == claimed.last());
        if all.contains(h) {
            let k = choose|k: int| 0 <= k < all.len() && all[k] == h;
            if k < r.len() {
                assert(r[k] == h);
                let i = choose|i: int|
                    0 <= i < init.len() && text::trimmed(#[trigger] init[i]) == h;
                assert(claimed[i] == init[i]);
            } else {
                assert(text::trimmed(claimed[n]) == h);
            }
        }
        if h.len() > 0 && exists|i: int|
            0 <= i < claimed.len() && text::trimmed(#[trigger] claimed[i]) == h {
            let i = choose|i: int|
                0 <= i < claimed.len() && text::trimmed(#[trigger] claimed[i]) == h;
            if i < n {
                assert(init[i] == claimed[i]);
            }
            if r.contains(h) {
                let k = choose|k: int| 0 <= k < r.len() && r[k] == h;
                assert(all[k] == h);
            } else {
                assert(all[all.len() - 1] == h);
            }
        }
    }
}

/// A task is closed exactly where it is named among the first twenty claims; blanks round its name
/// do not count.
pub proof fn claims_are_closed(claimed: Seq<Seq<char>>, h: Seq<char>)
    ensures
        planned_completions(claimed).contains(h) <==> h.len() > 0 && exists|i: int|
            0 <= i < claimed.len() && i < 20 && text::trimmed(#[trigger] claimed[i]) == h,
{
    let front = if claimed.len() <= MAX_COMPLETIONS {
        claimed
    } else {
        claimed.take(MAX_COMPLETIONS as int)
    };
    hash_is_claimed(front, h);
    if exists|i: int|
        0 <= i < claimed.len() && i < 20 && text::trimmed(#[trigger] claimed[i]) == h {
        let i = choose|i: int|
            0 <= i < claimed.len() && i < 20 && text::trimmed(#[trigger] claimed[i]) == h;
        assert(front[i] == claimed[i]);
    }
    if exists|i: int| 0 <= i < front.len() && text::trimmed(#[trigger] front[i]) == h {
        let i = choose|i: int| 0 <= i < front.len() && text::trimmed(#[trigger] front[i]) == h;
        assert(front[i] == claimed[i]);
    }
}

/// Finished work is passed on exactly where something was confirmed, there is somebody to report
/// to, and that one was sent neither the response nor a direct message nor a task; what is said
/// names the worker and ends with its response.
pub proof fn finished_work_is_reported(
    response: Option<Seq<char>>,
    me: Seq<char>,
    reports_to: Option<Seq<char>>,
    replies: Seq<(Seq<char>, Seq<char>)>,
    direct: Seq<(Seq<char>, Seq<char>)>,
    delegate: Seq<(Seq<char>, Seq<char>)>,
    confirmed: nat,
)
    ensures
        ({
            let all = contacted(replies, direct, delegated(delegate));
            let r = planned_handoff(response, me, reports_to, all, confirmed);
            let to = text::bare_name(reports_to->0);
            &&& r is Some <==> {
                &&& confirmed > 0
                &&& reports_to is Some
                &&& forall|i: int| 0 <= i < replies.len() ==> (#[trigger] replies[i]).0 != to
                &&& forall|i: int| 0 <= i < direct.len() ==> (#[trigger] direct[i]).0 != to
                &&& forall|i: int|
                    0 <= i < delegate.len() ==> text::bare_name((#[trigger] delegate[i]).0) != to
            }
            &&& r is Some ==> (r->0).0 == to
            &&& r is Some ==> text::holds((r->0).1, "@"@ + me)
            &&& r is Some && response is Some ==> (response->0).is_suffix_of((r->0).1)
        }),
{
    let busy = delegated(delegate);
    let all = contacted(replies, direct, busy);
    let to = text::bare_name(reports_to->0);
    let r = planned_handoff(response, me, reports_to, all, confirmed);
    let n = replies.len() as int;
    let k = direct.len() as int;
    if all.contains(to) {
        let i = choose|i: int| 0 <= i < all.len() && all[i] == to;
        if i < n {
            assert(replies[i].0 == to);
        } else if i < n + k {
            assert(direct[i - n].0 == to);
        } else {
            assert(text::bare_name(delegate[i - n - k].0) == to);
        }
    } else {
        assert forall|i: int| 0 <= i < replies.len() implies (#[trigger] replies[i]).0 != to by {
            assert(all[i] == replies[i].0);
        }
        assert forall|i: int| 0 <= i < direct.len() implies (#[trigger] direct[i]).0 != to by {
            assert(all[n + i] == direct[i].0);
        }
        assert forall|i: int| 0 <= i < delegate.len() implies text::bare_name(
            (#[trigger] delegate[i]).0,
        ) != to by {
            assert(all[n + k + i] == text::bare_name(delegate[i].0));
        }
    }
    if r is Some {
        let body = (r->0).1;
        let summary = match response {
            Some(s) => s,
            None => "Task completed."@,
        };
        reveal_strlit("Completed work from @");
        reveal_strlit("Completed work from ");
        reveal_strlit("@");
        let at = "@"@ + me;
        assert(body =~= "Completed work from "@ + at + (": "@ + summary));
        text::middle_is_held("Completed work from "@, at, ": "@ + summary);
        assert(summary =~= body.subrange(body.len() - summary.len(), body.len() as int));
    }
}

proof fn mention_is_found(
    mentions: Seq<Option<Seq<char>>>,
    me: Seq<char>,
    teammates: Seq<Seq<char>>,
    who: Seq<char>,
)
    ensures
        mentioned_teammates(mentions, me, teammates).contains(who) <==> mentions.contains(
            Some(who),
        ) && teammates.contains(who) && who != me,
        mentioned_teammates(mentions, me, teammates).no_duplicates(),
    decreases mentions.len(),
{
    let all = mentioned_teammates(mentions, me, teammates);
    if mentions.len() > 0 {
        let init = mentions.drop_last();
        let r = mentioned_teammates(init, me, teammates);
        mention_is_found(init, me, teammates, who);
        assert(mentions[mentions.len() - 1] == mentions.last());
        if all.contains(who) {
            let k = choose|k: int| 0 <= k < all.len() && all[k] == who;
            if k < r.len() {
                assert(r[k] == who);
                let i = choose|i: int| 0 <= i < init.len() && init[i] == Some(who);
                assert(mentions[i] == Some(who));
            }
        }
        if mentions.contains(Some(who)) && teammates.contains(who) && who != me {
            let i = choose|i: int| 0 <= i < mentions.len() && mentions[i] == Some(who);
            if i < init.len() {
                assert(init[i] == Some(who));
            }
            if r.contains(who) {
                let k = choose|k: int| 0 <= k < r.len() && r[k] == who;
                assert(all[k] == who);
            } else {
                assert(all[all.len() - 1] == who);
            }
        }
    }
}

/// A claim without a task becomes a task exactly where it mentions one teammate and no other: that
/// teammate gets the response. Otherwise the claim is taken back, and no task comes of it.
pub proof fn lone_mentions_become_tasks(
    response: Seq<char>,
    me: Seq<char>,
    teammates: Seq<Seq<char>>,
    mentions: Seq<Option<Seq<char>>>,
    who: Seq<char>,
)
    requires
        mentions.contains(Some(who)),
        teammates.contains(who),
        who != me,
    ensures
        ({
            let h = honest(Some(response), Seq::empty(), me, teammates, true, mentions);
            let alone = forall|other: Seq<char>|
                #[trigger] mentions.contains(Some(other)) && teammates.contains(other) && other
                    != me ==> other == who;
            &&& alone ==> h.0 == Some(response) && h.1 == seq![(who, response)]
            &&& !alone ==> h.0 == Some(SCRUBBED@) && h.1.len() == 0
        }),
{
    let found = mentioned_teammates(mentions, me, teammates);
    mention_is_found(mentions, me, teammates, who);
    let i = choose|i: int| 0 <= i < found.len() && found[i] == who;
    let alone = forall|other: Seq<char>|
        #[trigger] mentions.contains(Some(other)) && teammates.contains(other) && other != me
            ==> other == who;
    if alone {
        if found.len() > 1 {
            let j = if i == 0 {
                1int
            } else {
                0int
            };
            mention_is_found(mentions, me, teammates, found[j]);
            assert(found.contains(found[j]));
            assert(mentions.contains(Some(found[j])));
            assert(found[i] != found[j]);
        }
        assert(found.len() == 1);
    } else {
        let other = choose|other: Seq<char>|
            #[trigger] mentions.contains(Some(other)) && teammates.contains(other) && other != me
                && other != who;
        mention_is_found(mentions, me, teammates, other);
        let j = choose|j: int| 0 <= j < found.len() && found[j] == other;
        assert(i != j);
        assert(found.len() != 1);
    }
}

/// Where nobody is mentioned who could be given work, a claim without a task is taken back.
pub proof fn empty_claims_are_taken_back(
    response: Seq<char>,
    me: Seq<char>,
    teammates: Seq<Seq<char>>,
    mentions: Seq<Option<Seq<char>>>,
)
    requires
        forall|who: Seq<char>|
            #[trigger] mentions.contains(Some(who)) && teammates.contains(who) ==> who == me,
    ensures
        ({
            let h = honest(Some(response), Seq::empty(), me, teammates, true, mentions);
            h.0 == Some(SCRUBBED@) && h.1.len() == 0
        }),
{
    let found = mentioned_teammates(mentions, me, teammates);
    if found.len() > 0 {
        mention_is_found(mentions, me, teammates, found[0]);
        assert(found.contains(found[0]));
        assert(mentions.contains(Some(found[0])));
    }
}

/// Every task is decided by itself: it goes to its target, named without the sign, exactly where
/// that is the worker, everybody, the person at the keyboard or a teammate.
pub proof fn each_task_is_decided_alone(
    a: Seq<(Seq<char>, Seq<char>)>,
    b: Seq<(Seq<char>, Seq<char>)>,
    x: (Seq<char>, Seq<char>),
    me: Seq<char>,
    teammates: Seq<Seq<char>>,
)
    ensures
        planned_todos(a + b, me, teammates) == planned_todos(a, me, teammates) + planned_todos(b, me, teammates),
        planned_todos(seq![x], me, teammates) == (if text::bare_name(x.0) == me || text::bare_name(x.0) == "all"@ || text::bare_name(x.0)
            == "human"@ || teammates.contains(text::bare_name(x.0)) {
            seq![(text::bare_name(x.0), x.1)]
        } else {
            Seq::empty()
        }),
    decreases b.len(),
{
    let one = seq![x];
    assert(one.drop_last() =~= Seq::<(Seq<char>, Seq<char>)>::empty());
    assert(planned_todos(one.drop_last(), me, teammates).len() == 0);
    assert(planned_todos(one, me, teammates) =~= (if text::bare_name(x.0) == me || text::bare_name(x.0) == "all"@ || text::bare_name(x.0)
            == "human"@ || teammates.contains(text::bare_name(x.0)) {
            seq![(text::bare_name(x.0), x.1)]
        } else {
            Seq::empty()
        }));
    if b.len() == 0 {
        assert(a + b =~= a);
        assert(planned_todos(a, me, teammates) + planned_todos(b, me, teammates) =~= planned_todos(a, me, teammates));
    } else {
        each_task_is_decided_alone(a, b.drop_last(), x, me, teammates);
        assert((a + b).drop_last() =~= a + b.drop_last());
        assert((a + b).last() == b.last());
        assert(planned_todos(a + b, me, teammates) =~= planned_todos(a, me, teammates) + planned_todos(b, me, teammates));
    }
}

/// A target is refused exactly where it is neither the worker, nor everybody, nor the person at the
/// keyboard, nor a teammate.
pub proof fn each_target_is_refused_alone(
    a: Seq<(Seq<char>, Seq<char>)>,
    b: Seq<(Seq<char>, Seq<char>)>,
    x: (Seq<char>, Seq<char>),
    me: Seq<char>,
    teammates: Seq<Seq<char>>,
)
    ensures
        refused_targets(a + b, me, teammates) == refused_targets(a, me, teammates) + refused_targets(b, me, teammates),
        refused_targets(seq![x], me, teammates) == (if text::bare_name(x.0) == me || text::bare_name(x.0) == "all"@ || text::bare_name(x.0)
            == "human"@ || teammates.contains(text::bare_name(x.0)) {
            Seq::empty()
        } else {
            seq![text::bare_name(x.0)]
        }),
    decreases b.len(),
{
    let one = seq![x];
    assert(one.drop_last() =~= Seq::<(Seq<char>, Seq<char>)>::empty());
    assert(refused_targets(one.drop_last(), me, teammates).len() == 0);
    assert(refused_targets(one, me, teammates) =~= (if text::bare_name(x.0) == me || text::bare_name(x.0) == "all"@ || text::bare_name(x.0)
            == "human"@ || teammates.contains(text::bare_name(x.0)) {
            Seq::empty()
        } else {
            seq![text::bare_name(x.0)]
        }));
    if b.len() == 0 {
        assert(a + b =~= a);
        assert(refused_targets(a, me, teammates) + refused_targets(b, me, teammates) =~= refused_targets(a, me, teammates));
    } else {
        each_target_is_refused_alone(a, b.drop_last(), x, me, teammates);
        assert((a + b).drop_last() =~= a + b.drop_last());
        assert((a + b).last() == b.last());
        assert(refused_targets(a + b, me, teammates) =~= refused_targets(a, me, teammates) + refused_targets(b, me, teammates));
    }
}

/// A plain text goes to everybody who wrote, once for each message, but for the worker itself and
/// the harness.
pub proof fn each_sender_gets_the_plain_text(
    a: Seq<Seq<char>>,
    b: Seq<Seq<char>>,
    x: Seq<char>,
    me: Seq<char>,
    body: Seq<char>,
)
    ensures
        plain_replies(a + b, me, body) == plain_replies(a, me, body) + plain_replies(b, me, body),
        plain_replies(seq![x], me, body) == (if x == me || x == "system"@ {
            Seq::empty()
        } else {
            seq![(x, body)]
        }),
    decreases b.len(),
{
    let one = seq![x];
    assert(one.drop_last() =~= Seq::<Seq<char>>::empty());
    assert(plain_replies(one.drop_last(), me, body).len() == 0);
    assert(plain_replies(one, me, body) =~= (if x == me || x == "system"@ {
            Seq::empty()
        } else {
            seq![(x, body)]
        }));
    if b.len() == 0 {
        assert(a + b =~= a);
        assert(plain_replies(a, me, body) + plain_replies(b, me, body) =~= plain_replies(a, me, body));
    } else {
        each_sender_gets_the_plain_text(a, b.drop_last(), x, me, body);
        assert((a + b).drop_last() =~= a + b.drop_last());
        assert((a + b).last() == b.last());
        assert(plain_replies(a + b, me, body) =~= plain_replies(a, me, body) + plain_replies(b, me, body));
    }
}

/// An answer is taken for a broken object exactly where it holds the name of the response and a
/// brace.
pub proof fn broken_objects_are_told_apart(raw: Seq<char>)
    ensures
        looks_structured(raw) <==> text::holds(raw, "\"response\""@) && text::holds(raw, "{"@),
{
    text::finding_is_holding(raw, "\"response\""@);
    text::finding_is_holding(raw, "{"@);
}

/// Without an answer nothing is claimed and nobody is mentioned; otherwise both go by the answer
/// itself.
pub proof fn claims_are_read_from_the_answer(s: Seq<char>)
    ensures
        !claims_delegation(None),
        mentions_in(None).len() == 0,
        claims_delegation(Some(s)) <==> outside::regex_matches(DELEGATION_CLAIM@, s) == Some(true),
        outside::regex_first_groups(MENTION@, s) matches Some(g) ==> mentions_in(Some(s)) == g,
        outside::regex_first_groups(MENTION@, s) is None ==> mentions_in(Some(s)).len() == 0,
{
}

} // verus!
