//! The batch loop: when queued messages are taken up, how often a worker may prompt itself, and
//! what happens once a call of the tool is over.
use crate::clock::Timestamp;
use crate::text;
use crate::worker;
use crate::worker::tier;
use crate::worker::tier::PromptTier;
use crate::worker::Message;
use vstd::prelude::*;

verus! {

/// How many batches in a row may come from the worker itself.
pub const MAX_SELF_KICKS: u32 = 10;

/// How many nudges to go on with pending tasks one message from outside may set off.
pub const MAX_AUTO_KICKS: u32 = 3;

/// What a nudge to go on with pending tasks begins with.
pub const AUTO_KICK_MARKER: &'static str = "[auto-kick] pending tasks";

/// What the batch loop remembers from one batch to the next.
#[derive(Clone, Copy, PartialEq, Eq, Structural, Debug)]
pub struct BatchState {
    /// Batches in a row that came from the worker itself.
    pub self_kicks: u32,
    /// Nudges since the last message from outside.
    pub auto_kicks: u32,
}

/// A batch to be worked on.
pub struct Batch {
    /// The messages, without the worker's own.
    pub messages: Vec<Message>,
    /// Nothing was left: the worker prompted itself.
    pub self_kick: bool,
    /// Nudges up to and including this batch.
    pub auto_kicks: u32,
}

/// The outcome of taking up the queue.
pub enum Step {
    /// The worker has prompted itself too often; it pauses until somebody writes.
    Paused,
    /// There is something to do.
    Run(Batch),
}

/// The batch is due: something is queued and the window since the first message has passed.
pub open spec fn due(queued: nat, waited_ms: Option<u64>, window_ms: u64) -> bool {
    queued > 0 && waited_ms is Some && waited_ms->0 >= window_ms
}

/// Whether the queue is taken up.
pub fn should_process(queued: usize, waited_ms: Option<u64>, window_ms: u64) -> (r: bool)
    ensures
        r == due(queued as nat, waited_ms, window_ms),
{
    match waited_ms {
        Some(ms) => queued > 0 && ms >= window_ms,
        None => false,
    }
}

/// The messages that `me` did not send, in order.
pub open spec fn from_others(messages: Seq<Message>, me: Seq<char>) -> Seq<Message>
    decreases messages.len(),
{
    if messages.len() == 0 {
        Seq::empty()
    } else {
        let r = from_others(messages.drop_last(), me);
        if messages.last().sender@ != me {
            r.push(messages.last())
        } else {
            r
        }
    }
}

/// A nudge to go on with pending tasks.
pub open spec fn is_nudge(m: Message) -> bool {
    m.sender@ == "system"@ && AUTO_KICK_MARKER@.is_prefix_of(m.content@)
}

/// There is a nudge in the batch.
pub open spec fn nudged(messages: Seq<Message>) -> bool {
    exists|i: int| 0 <= i < messages.len() && is_nudge(#[trigger] messages[i])
}

/// The state behind a batch that held `messages` from others.
pub open spec fn state_after(s: BatchState, messages: Seq<Message>) -> BatchState {
    BatchState {
        self_kicks: if messages.len() > 0 {
            0
        } else if s.self_kicks < MAX_SELF_KICKS {
            (s.self_kicks + 1) as u32
        } else {
            0
        },
        auto_kicks: if messages.len() == 0 {
            s.auto_kicks
        } else if nudged(messages) {
            if s.auto_kicks < u32::MAX {
                (s.auto_kicks + 1) as u32
            } else {
                s.auto_kicks
            }
        } else {
            0
        },
    }
}

/// The worker pauses: nobody else wrote and it has prompted itself as often as it may.
pub open spec fn pauses(s: BatchState, messages: Seq<Message>) -> bool {
    messages.len() == 0 && s.self_kicks >= MAX_SELF_KICKS
}

fn strip_own(queue: Vec<Message>, me: &str) -> (r: Vec<Message>)
    ensures
        r@ == from_others(queue@, me@),
{
    let mut rest = queue;
    let ghost all = queue@;
    let mut out: Vec<Message> = Vec::new();
    let ghost mut n: int = 0;
    assert(all.skip(0) =~= all);
    while rest.len() > 0
        invariant
            0 <= n <= all.len(),
            rest@ == all.skip(n),
            out@ == from_others(all.take(n), me@),
        decreases rest@.len(),
    {
        let m = rest.remove(0);
        proof {
            assert(m == all[n]);
            assert(all.take(n + 1).drop_last() =~= all.take(n));
            assert(all.skip(n).remove(0) =~= all.skip(n + 1));
            n = n + 1;
        }
        if !text::same(m.sender.as_str(), me) {
            out.push(m);
        }
    }
    assert(all.take(n) =~= all);
    out
}

fn has_nudge(messages: &Vec<Message>) -> (r: bool)
    ensures
        r == nudged(messages@),
{
    let mut i: usize = 0;
    while i < messages.len()
        invariant
            i <= messages@.len(),
            forall|k: int| 0 <= k < i ==> !is_nudge(#[trigger] messages@[k]),
        decreases messages@.len() - i,
    {
        if text::same(messages[i].sender.as_str(), "system") && text::starts_with(
            messages[i].content.as_str(),
            AUTO_KICK_MARKER,
        ) {
            assert(is_nudge(messages@[i as int]));
            return true;
        }
        i += 1;
    }
    false
}

impl BatchState {
    /// The state of a worker that has just started.
    pub fn new() -> (s: BatchState)
        ensures
            s == (BatchState { self_kicks: 0, auto_kicks: 0 }),
    {
        BatchState { self_kicks: 0, auto_kicks: 0 }
    }

    /// Takes up what is queued. The worker's own messages are never fed back to it.
    pub fn take_up(&mut self, queue: Vec<Message>, me: &str) -> (r: Step)
        requires
            old(self).self_kicks <= MAX_SELF_KICKS,
        ensures
            final(self).self_kicks <= MAX_SELF_KICKS,
            *final(self) == state_after(*old(self), from_others(queue@, me@)),
            match r {
                Step::Paused => pauses(*old(self), from_others(queue@, me@)),
                Step::Run(b) => {
                    &&& !pauses(*old(self), from_others(queue@, me@))
                    &&& b.messages@ == from_others(queue@, me@)
                    &&& b.self_kick == (from_others(queue@, me@).len() == 0)
                    &&& b.auto_kicks == final(self).auto_kicks
                },
            },
    {
        let messages = strip_own(queue, me);
        let self_kick = messages.len() == 0;
        if self_kick {
            if self.self_kicks >= MAX_SELF_KICKS {
                self.self_kicks = 0;
                return Step::Paused;
            }
            self.self_kicks = self.self_kicks + 1;
        } else {
            self.self_kicks = 0;
            if has_nudge(&messages) {
                if self.auto_kicks < u32::MAX {
                    self.auto_kicks = self.auto_kicks + 1;
                }
            } else {
                self.auto_kicks = 0;
            }
        }
        Step::Run(Batch { messages, self_kick, auto_kicks: self.auto_kicks })
    }
}

/// How a batch is dealt with: one in which the worker prompted itself always calls the tool.
pub open spec fn batch_tier(b: Batch, me: Seq<char>) -> PromptTier {
    if b.self_kick {
        PromptTier::Full
    } else {
        tier::tier_by(worker::senders(b.messages@), tier::signs_of(b.messages@), me)
    }
}

/// How a batch is dealt with.
pub fn tier_of_batch(b: &Batch, me: &str) -> (t: PromptTier)
    ensures
        t == batch_tier(*b, me@),
{
    if b.self_kick {
        PromptTier::Full
    } else {
        tier::classify_tier(&b.messages, me)
    }
}

// ── Presence ────────────────────────────────────────────────────────────────
/// The senders that are people or workers, other than `me`, each once and with an `@`.
pub open spec fn handles(from: Seq<Seq<char>>, me: Seq<char>) -> Seq<Seq<char>>
    decreases from.len(),
{
    if from.len() == 0 {
        Seq::empty()
    } else {
        let r = handles(from.drop_last(), me);
        let h = "@"@ + from.last();
        if from.last() != me && from.last() != "system"@ && !r.contains(h) {
            r.push(h)
        } else {
            r
        }
    }
}

/// What the roster shows while a batch is worked on.
pub open spec fn busy_text(from: Seq<Seq<char>>, me: Seq<char>) -> Seq<char> {
    if handles(from, me).len() == 0 {
        "working (self-kick)"@
    } else {
        "working on msg from "@ + text::joined(handles(from, me), ", "@)
    }
}

/// What the roster shows while a batch is worked on.
pub fn working_status(messages: &Vec<Message>, me: &str) -> (r: String)
    ensures
        r@ == busy_text(worker::senders(messages@), me@),
{
    let ghost all = worker::senders(messages@);
    let mut hs: Vec<String> = Vec::new();
    let mut i: usize = 0;
    assert(text::texts(hs@) =~= handles(all.take(0), me@));
    while i < messages.len()
        invariant
            i <= messages@.len(),
            all == worker::senders(messages@),
            text::texts(hs@) == handles(all.take(i as int), me@),
        decreases messages@.len() - i,
    {
        assert(all.take(i + 1).drop_last() =~= all.take(i as int));
        let s = messages[i].sender.as_str();
        if !text::same(s, me) && !text::same(s, "system") {
            let h = text::glue("@", s);
            if !text::list_has(&hs, h.as_str()) {
                let ghost before = hs@;
                let ghost name = h@;
                hs.push(h);
                assert(text::texts(hs@) =~= text::texts(before).push(name));
            }
        }
        i += 1;
    }
    assert(all.take(i as int) =~= all);
    assert(text::texts(hs@).len() == hs@.len());
    if hs.len() == 0 {
        "working (self-kick)".to_owned()
    } else {
        text::glue("working on msg from ", text::join(&hs, ", ").as_str())
    }
}

/// What the roster shows once the tool is done: what the worker reported, else its role.
pub fn status_after_call(reported: &Option<String>, role: &str) -> (r: String)
    ensures
        r@ == (match text::opt_text(*reported) {
            Some(s) => s,
            None => role@,
        }),
{
    match reported {
        Some(s) => s.clone(),
        None => role.to_owned(),
    }
}

// ── Messages of the harness ─────────────────────────────────────────────────
/// What a nudge says.
pub open spec fn nudge_text(pending: nat) -> Seq<char> {
    AUTO_KICK_MARKER@ + " \u{2014} you have "@ + text::decimal(pending)
        + " pending task(s). Pick up the next one when ready."@
}

/// A nudge is queued behind a call: the worker did not ask to go on, there is budget left, tasks
/// are pending and nothing else waits.
pub open spec fn nudge_due(
    went_on: bool,
    auto_kicks: u32,
    pending: Option<nat>,
    queue_empty: bool,
) -> bool {
    !went_on && auto_kicks < MAX_AUTO_KICKS && pending is Some && pending->0 > 0 && queue_empty
}

/// The nudge that follows a call, if any. `pending` is the number of pending tasks, where the
/// server could be asked.
pub fn nudge_after_call(
    went_on: bool,
    auto_kicks: u32,
    pending: Option<usize>,
    queue_empty: bool,
    me: &str,
    now: Timestamp,
) -> (r: Option<Message>)
    ensures
        ({
            let n: Option<nat> = match pending {
                Some(k) => Some(k as nat),
                None => None,
            };
            match r {
                Some(m) => {
                    &&& nudge_due(went_on, auto_kicks, n, queue_empty)
                    &&& m.sender@ == "system"@
                    &&& m.recipient@ == me@
                    &&& m.content@ == nudge_text(n->0)
                    &&& m.hash@.len() == 0
                    &&& m.timestamp == now
                },
                None => !nudge_due(went_on, auto_kicks, n, queue_empty),
            }
        }),
{
    match pending {
        Some(k) => {
            if went_on || auto_kicks >= MAX_AUTO_KICKS || k == 0 || !queue_empty {
                return None;
            }
            let mut content = AUTO_KICK_MARKER.to_owned();
            content.append(" \u{2014} you have ");
            content.append(text::count(k).as_str());
            content.append(" pending task(s). Pick up the next one when ready.");
            Some(
                Message {
                    sender: "system".to_owned(),
                    content,
                    hash: String::new(),
                    timestamp: now,
                    recipient: me.to_owned(),
                },
            )
        },
        None => None,
    }
}

/// What a worker is told when it starts.
pub const BOOT_TEXT: &'static str =
    "Session start \u{2014} welcome back. Check your pending tasks and pick up where you left off. Set continue:true to keep working through your task list, or continue:false when you're blocked or done.";

/// The message that a worker finds in its queue when it first connects, and only then.
pub fn boot_message(booted: bool, me: &str, now: Timestamp) -> (r: Option<Message>)
    ensures
        r is Some == !booted,
        r matches Some(m) ==> m.sender@ == "system"@ && m.recipient@ == me@ && m.content@
            == BOOT_TEXT@ && m.hash@.len() == 0 && m.timestamp == now,
{
    if booted {
        return None;
    }
    Some(
        Message {
            sender: "system".to_owned(),
            content: BOOT_TEXT.to_owned(),
            hash: String::new(),
            timestamp: now,
            recipient: me.to_owned(),
        },
    )
}

/// The queued messages of others among those that arrived while the worker was away.
pub fn offline_messages(pending: Vec<Message>, me: &str) -> (r: Vec<Message>)
    ensures
        r@ == from_others(pending@, me@),
{
    strip_own(pending, me)
}

/// What becomes of a message that arrives on the stream.
#[derive(Clone, Copy, PartialEq, Eq, Structural, Debug)]
pub enum Arrival {
    /// It is a ping: it is answered at once and never waits.
    Answer,
    /// It is queued; where it is alone in the queue, the window of the next batch starts.
    Queue { starts_window: bool },
}

/// What becomes of a message that arrives while `queued` messages wait.
pub fn on_arrival(content: &str, queued: usize) -> (r: Arrival)
    ensures
        r == (if tier::pings(content@) {
            Arrival::Answer
        } else {
            Arrival::Queue { starts_window: queued == 0 }
        }),
{
    if tier::is_ping(content) {
        Arrival::Answer
    } else {
        Arrival::Queue { starts_window: queued == 0 }
    }
}

// ── Laws ────────────────────────────────────────────────────────────────────
/// The state behind `n` batches in a row in which nobody else wrote.
pub open spec fn after_self_kicks(s: BatchState, n: nat) -> BatchState
    decreases n,
{
    if n == 0 {
        s
    } else {
        state_after(after_self_kicks(s, (n - 1) as nat), Seq::empty())
    }
}

/// A worker that nobody writes to prompts itself a fixed number of times and then pauses.
pub proof fn self_kicks_are_capped(s: BatchState, n: nat)
    requires
        s.self_kicks == 0,
        n <= MAX_SELF_KICKS,
    ensures
        after_self_kicks(s, n).self_kicks == n,
        pauses(after_self_kicks(s, n), Seq::empty()) <==> n == MAX_SELF_KICKS,
    decreases n,
{
    if n > 0 {
        self_kicks_are_capped(s, (n - 1) as nat);
    }
}

/// A message from outside gives a worker its full budget of self-prompts and, unless it is a
/// nudge, of nudges.
pub proof fn outside_messages_reset(s: BatchState, messages: Seq<Message>)
    requires
        messages.len() > 0,
    ensures
        !pauses(s, messages),
        state_after(s, messages).self_kicks == 0,
        !nudged(messages) ==> state_after(s, messages).auto_kicks == 0,
{
}

/// Each nudge uses up budget: a batch that holds one leaves the counter higher, up to the point
/// where no further nudge is due.
pub proof fn nudges_are_capped(
    s: BatchState,
    messages: Seq<Message>,
    pending: Option<nat>,
    queue_empty: bool,
)
    requires
        nudged(messages),
        s.auto_kicks + 1 >= MAX_AUTO_KICKS,
    ensures
        !nudge_due(false, state_after(s, messages).auto_kicks, pending, queue_empty),
{
}

/// The text of a nudge is recognised as one.
pub proof fn nudges_are_recognised(m: Message, pending: nat)
    requires
        m.sender@ == "system"@,
        m.content@ == nudge_text(pending),
    ensures
        is_nudge(m),
{
    let rest = " \u{2014} you have "@ + text::decimal(pending)
        + " pending task(s). Pick up the next one when ready."@;
    assert(m.content@ =~= AUTO_KICK_MARKER@ + rest);
    assert(m.content@.take(AUTO_KICK_MARKER@.len() as int) =~= AUTO_KICK_MARKER@);
}

/// What a worker is fed never holds a message of its own.
pub proof fn own_messages_are_never_fed(messages: Seq<Message>, me: Seq<char>)
    ensures
        forall|i: int|
            0 <= i < from_others(messages, me).len() ==> (#[trigger] from_others(
                messages,
                me,
            )[i]).sender@ != me,
    decreases messages.len(),
{
    if messages.len() > 0 {
        let r = from_others(messages.drop_last(), me);
        let all = from_others(messages, me);
        own_messages_are_never_fed(messages.drop_last(), me);
        assert forall|i: int| 0 <= i < all.len() implies (#[trigger] all[i]).sender@ != me by {
            if i < r.len() {
                assert(all[i] == r[i]);
            }
        }
    }
}

/// Every message is fed to the worker, in order, but for those that it sent itself.
pub proof fn each_message_is_fed_alone(a: Seq<Message>, b: Seq<Message>, x: Message, me: Seq<char>)
    ensures
        from_others(a + b, me) == from_others(a, me) + from_others(b, me),
        from_others(seq![x], me) == (if x.sender@ == me {
            Seq::empty()
        } else {
            seq![x]
        }),
    decreases b.len(),
{
    let one = seq![x];
    assert(one.drop_last() =~= Seq::<Message>::empty());
    assert(from_others(one.drop_last(), me).len() == 0);
    assert(from_others(one, me) =~= (if x.sender@ == me {
            Seq::empty()
        } else {
            seq![x]
        }));
    if b.len() == 0 {
        assert(a + b =~= a);
        assert(from_others(a, me) + from_others(b, me) =~= from_others(a, me));
    } else {
        each_message_is_fed_alone(a, b.drop_last(), x, me);
        assert((a + b).drop_last() =~= a + b.drop_last());
        assert((a + b).last() == b.last());
        assert(from_others(a + b, me) =~= from_others(a, me) + from_others(b, me));
    }
}

/// A status names everybody who wrote, once, but for the worker itself and the harness.
pub proof fn every_writer_is_named(
    a: Seq<Seq<char>>,
    y: Seq<char>,
    me: Seq<char>,
)
    ensures
        handles(a, me).contains(y) <==> (exists|i: int| 0 <= i < a.len() && (#[trigger] a[i]) != me && a[i] != "system"@ && "@"@ + a[i] == y),
        handles(a, me).no_duplicates(),
    decreases a.len(),
{
    let all = handles(a, me);
    if a.len() > 0 {
        let init = a.drop_last();
        let r = handles(init, me);
        every_writer_is_named(init, y, me);
        assert(a[a.len() - 1] == a.last());
        assert forall|i: int| 0 <= i < init.len() implies #[trigger] init[i] == a[i] by {}
        if all.contains(y) {
            let k = choose|k: int| 0 <= k < all.len() && all[k] == y;
            if k < r.len() {
                assert(r[k] == y);
                let i = choose|i: int| 0 <= i < init.len() && (#[trigger] init[i]) != me && init[i] != "system"@ && "@"@ + init[i] == y;
                assert(a[i] == init[i]);
            } else {
                assert(a[a.len() - 1] != me && a[a.len() - 1] != "system"@ && "@"@ + a[a.len() - 1] == y);
            }
        }
        if exists|i: int| 0 <= i < a.len() && (#[trigger] a[i]) != me && a[i] != "system"@ && "@"@ + a[i] == y {
            let i = choose|i: int| 0 <= i < a.len() && (#[trigger] a[i]) != me && a[i] != "system"@ && "@"@ + a[i] == y;
            if i < init.len() {
                assert(init[i] == a[i]);
            }
            if r.contains(y) {
                let k = choose|k: int| 0 <= k < r.len() && r[k] == y;
                assert(all[k] == y);
            } else {
                assert(all[all.len() - 1] == y);
            }
        }
    }
}

/// What comes later is put behind what came before.
pub proof fn first_writers_are_named_first(
    a: Seq<Seq<char>>,
    b: Seq<Seq<char>>,
    me: Seq<char>,
)
    ensures
        handles(a, me).is_prefix_of(handles(a + b, me)),
    decreases b.len(),
{
    let x = handles(a, me);
    if b.len() == 0 {
        assert(a + b =~= a);
        assert(x =~= x.subrange(0, x.len() as int));
    } else {
        first_writers_are_named_first(a, b.drop_last(), me);
        assert((a + b).drop_last() =~= a + b.drop_last());
        let c = handles(a + b, me);
        assert(x =~= c.subrange(0, x.len() as int));
    }
}

/// A status says on whose messages the worker works, or that nobody wrote.
pub proof fn statuses_say_for_whom(from: Seq<Seq<char>>, me: Seq<char>)
    ensures
        (forall|i: int| 0 <= i < from.len() ==> #[trigger] from[i] == me || from[i] == "system"@)
            ==> busy_text(from, me) == "working (self-kick)"@,
        (exists|i: int| 0 <= i < from.len() && #[trigger] from[i] != me && from[i] != "system"@)
            ==> busy_text(from, me) == "working on msg from "@ + text::joined(
            handles(from, me),
            ", "@,
        ),
{
    let hs = handles(from, me);
    if hs.len() > 0 {
        every_writer_is_named(from, hs[0], me);
        assert(hs.contains(hs[0]));
    }
    if exists|i: int| 0 <= i < from.len() && #[trigger] from[i] != me && from[i] != "system"@ {
        let i = choose|i: int|
            0 <= i < from.len() && #[trigger] from[i] != me && from[i] != "system"@;
        every_writer_is_named(from, "@"@ + from[i], me);
        assert(hs.contains("@"@ + from[i]));
    }
}

/// Queued messages are taken up exactly once the first of them has waited for the whole window.
pub proof fn windows_are_waited_out(queued: nat, waited_ms: Option<u64>, window_ms: u64)
    ensures
        due(queued, waited_ms, window_ms) <==> queued >= 1 && exists|ms: u64|
            waited_ms == Some(ms) && ms >= window_ms,
        queued >= 1 && due(queued, waited_ms, window_ms) ==> due(queued + 1, waited_ms, window_ms),
{
}

/// How the counters move: a batch of one's own counts up to ten and then pauses once; a batch from
/// outside begins anew; nudges count as long as nobody else writes without one.
pub proof fn counters_are_exact(s: BatchState, messages: Seq<Message>)
    requires
        s.self_kicks <= 10,
    ensures
        messages.len() == 0 ==> {
            &&& pauses(s, messages) <==> s.self_kicks == 10
            &&& s.self_kicks < 10 ==> state_after(s, messages).self_kicks == s.self_kicks + 1
            &&& s.self_kicks == 10 ==> state_after(s, messages).self_kicks == 0
            &&& state_after(s, messages).auto_kicks == s.auto_kicks
        },
        messages.len() > 0 ==> {
            &&& !pauses(s, messages)
            &&& state_after(s, messages).self_kicks == 0
        },
        messages.len() > 0 && (forall|i: int|
            0 <= i < messages.len() ==> (#[trigger] messages[i]).sender@ != "system"@)
            ==> state_after(s, messages).auto_kicks == 0,
        messages.len() > 0 && (exists|i: int|
            0 <= i < messages.len() && (#[trigger] messages[i]).sender@ == "system"@
                && AUTO_KICK_MARKER@.is_prefix_of(messages[i].content@)) && s.auto_kicks < u32::MAX
            ==> state_after(s, messages).auto_kicks == s.auto_kicks + 1,
{
    if exists|i: int|
        0 <= i < messages.len() && (#[trigger] messages[i]).sender@ == "system"@
            && AUTO_KICK_MARKER@.is_prefix_of(messages[i].content@) {
        let i = choose|i: int|
            0 <= i < messages.len() && (#[trigger] messages[i]).sender@ == "system"@
                && AUTO_KICK_MARKER@.is_prefix_of(messages[i].content@);
        assert(is_nudge(messages[i]));
    }
}

/// A worker is nudged exactly where it does not go on by itself, was nudged fewer than three times,
/// has tasks, and has nothing else to do; the nudge says how many tasks there are.
pub proof fn nudges_are_exact(
    went_on: bool,
    auto_kicks: u32,
    pending: Option<nat>,
    queue_empty: bool,
    n: nat,
)
    ensures
        nudge_due(went_on, auto_kicks, pending, queue_empty) <==> {
            &&& !went_on
            &&& auto_kicks < 3
            &&& pending is Some
            &&& pending != Some(0nat)
            &&& queue_empty
        },
        text::holds(nudge_text(n), "you have "@ + text::decimal(n) + " pending task(s)"@),
        "[auto-kick]"@.is_prefix_of(nudge_text(n)),
{
    let whole = nudge_text(n);
    let part = "you have "@ + text::decimal(n) + " pending task(s)"@;
    reveal_strlit(" \u{2014} you have ");
    reveal_strlit("you have ");
    reveal_strlit(" pending task(s). Pick up the next one when ready.");
    reveal_strlit(" pending task(s)");
    let k = AUTO_KICK_MARKER@.len() as int + 3;
    assert(whole.subrange(k, k + part.len()) =~= part);
    reveal_strlit("[auto-kick]");
    reveal_strlit("[auto-kick] pending tasks");
    assert("[auto-kick]"@ =~= whole.subrange(0, "[auto-kick]"@.len() as int));
}

/// A batch of one's own always asks for the tool.
pub proof fn own_batches_ask_for_the_tool(b: Batch, me: Seq<char>, i: int)
    ensures
        b.self_kick ==> batch_tier(b, me) == PromptTier::Full,
        0 <= i < b.messages@.len() && b.messages@[i].sender@ != me && !tier::pings(
            b.messages@[i].content@,
        ) && !tier::acks(b.messages@[i].content@) ==> batch_tier(b, me) == PromptTier::Full,
        !b.self_kick && (forall|k: int|
            0 <= k < b.messages@.len() ==> tier::pings((#[trigger] b.messages@[k]).content@))
            ==> batch_tier(b, me) == PromptTier::Harness,
{
    let from = worker::senders(b.messages@);
    let signs = tier::signs_of(b.messages@);
    if 0 <= i < b.messages@.len() && b.messages@[i].sender@ != me && !tier::pings(
        b.messages@[i].content@,
    ) && !tier::acks(b.messages@[i].content@) && !b.self_kick {
        tier::content_reaches_the_tool(from, signs, me, i);
    }
    if !b.self_kick && (forall|k: int|
        0 <= k < b.messages@.len() ==> tier::pings((#[trigger] b.messages@[k]).content@)) {
        assert forall|k: int| 0 <= k < signs.len() implies (#[trigger] signs[k]).ping by {
            assert(tier::pings(b.messages@[k].content@));
        }
    }
}

} // verus!
