//! How much a batch of messages asks for: an answer that the harness gives by itself, or a call
//! of the command-line tool.
use crate::outside;
use crate::text;
use crate::worker;
use crate::worker::turn::Outgoing;
use crate::worker::{Message, WorkerState};
use vstd::prelude::*;

verus! {

/// Messages that only ask whether the worker is there.
pub const PING_PATTERN: &'static str =
    "(?i)^(ping|status|are you there\\??|health ?check|you up\\??)$";

/// Messages that open with an acknowledgment.
pub const ACK_START_PATTERN: &'static str =
    "(?i)^(@[\\w-]+[:,]?\\s+)*\\s*(acknowledged?|acknowledging|ack\\b|aligned|standing by|same gate|holding|received|noted|roger|unchanged|freeze (holds|respected|unchanged)|gate freeze|doc freeze|standby|thanks|thank you|perfect|great|locked in|locked|got it|ok\\b|okay|will do|on it|sounds good|understood|confirmed|copy that)";

/// An acknowledgment of more bytes than this is taken to carry content behind its opening.
pub const ACK_MAX_LEN: usize = 300;

/// The two ways a batch is dealt with.
#[derive(Clone, Copy, PartialEq, Eq, Structural, Debug)]
pub enum PromptTier {
    /// Handled by the harness, without a call of the tool.
    Harness,
    /// A call of the tool with the full prompt.
    Full,
}

/// The name of a tier.
pub open spec fn tier_name(t: PromptTier) -> Seq<char> {
    match t {
        PromptTier::Harness => "harness"@,
        PromptTier::Full => "full"@,
    }
}

impl PromptTier {
    /// The name of the tier.
    pub fn label(self) -> (r: String)
        ensures
            r@ == tier_name(self),
    {
        match self {
            PromptTier::Harness => "harness".to_owned(),
            PromptTier::Full => "full".to_owned(),
        }
    }
}

/// `content` only asks whether the worker is there.
pub open spec fn pings(content: Seq<char>) -> bool {
    outside::regex_matches(PING_PATTERN@, text::trimmed(content)) == Some(true)
}

/// `content` is nothing but an acknowledgment.
pub open spec fn acks(content: Seq<char>) -> bool {
    text::byte_len(text::trimmed(content)) <= ACK_MAX_LEN && outside::regex_matches(
        ACK_START_PATTERN@,
        text::trimmed(content),
    ) == Some(true)
}

fn matches_pattern(pattern: &str, hay: &str) -> (r: bool)
    ensures
        r == (outside::regex_matches(pattern@, hay@) == Some(true)),
{
    match outside::regex_is_match(pattern, hay) {
        Some(b) => b,
        None => false,
    }
}

/// Whether `content` only asks whether the worker is there.
pub fn is_ping(content: &str) -> (r: bool)
    ensures
        r == pings(content@),
{
    matches_pattern(PING_PATTERN, text::trim(content).as_str())
}

/// Whether a trimmed text is short enough for a pure acknowledgment and opens with one.
pub fn is_pure_ack(content: &str) -> (r: bool)
    ensures
        r == acks(content@),
{
    let t = text::trim(content);
    text::bytes_in(t.as_str()) <= ACK_MAX_LEN && matches_pattern(ACK_START_PATTERN, t.as_str())
}

/// What the patterns say of one message.
#[derive(Clone, Copy, PartialEq, Eq, Structural, Debug)]
pub struct Signs {
    pub ping: bool,
    pub ack: bool,
}

/// What the patterns say of each message.
pub open spec fn signs_of(messages: Seq<Message>) -> Seq<Signs> {
    Seq::new(
        messages.len(),
        |i: int| Signs { ping: pings(messages[i].content@), ack: acks(messages[i].content@) },
    )
}

/// The tier of a batch: the harness deals with it where every message is a ping, and where
/// somebody else wrote and every message of somebody else is a pure acknowledgment.
pub open spec fn tier_by(from: Seq<Seq<char>>, signs: Seq<Signs>, me: Seq<char>) -> PromptTier {
    if forall|i: int| 0 <= i < signs.len() ==> (#[trigger] signs[i]).ping {
        PromptTier::Harness
    } else if (exists|i: int| 0 <= i < from.len() && #[trigger] from[i] != me) && (forall|i: int|
        0 <= i < from.len() && #[trigger] from[i] != me ==> signs[i].ack) {
        PromptTier::Harness
    } else {
        PromptTier::Full
    }
}

/// The tier of a batch, given what the patterns say of each message.
pub fn tier_from(messages: &Vec<Message>, signs: &Vec<Signs>, me: &str) -> (t: PromptTier)
    requires
        signs@.len() == messages@.len(),
    ensures
        t == tier_by(worker::senders(messages@), signs@, me@),
{
    let ghost from = worker::senders(messages@);
    let mut all_pings = true;
    let mut others = false;
    let mut all_acks = true;
    let mut i: usize = 0;
    let ghost mut other_at: int = 0;
    let ghost mut bad_ping: int = 0;
    let ghost mut bad_ack: int = 0;
    while i < messages.len()
        invariant
            i <= messages@.len(),
            signs@.len() == messages@.len(),
            from == worker::senders(messages@),
            all_pings ==> forall|k: int| 0 <= k < i ==> (#[trigger] signs@[k]).ping,
            !all_pings ==> 0 <= bad_ping < i && !signs@[bad_ping].ping,
            others ==> 0 <= other_at < i && from[other_at] != me@,
            !others ==> forall|k: int| 0 <= k < i ==> #[trigger] from[k] == me@,
            all_acks ==> forall|k: int|
                0 <= k < i && #[trigger] from[k] != me@ ==> signs@[k].ack,
            !all_acks ==> 0 <= bad_ack < i && from[bad_ack] != me@ && !signs@[bad_ack].ack,
        decreases messages@.len() - i,
    {
        if all_pings && !signs[i].ping {
            all_pings = false;
            proof {
                bad_ping = i as int;
            }
        }
        if !text::same(messages[i].sender.as_str(), me) {
            assert(from[i as int] != me@);
            if !others {
                others = true;
                proof {
                    other_at = i as int;
                }
            }
            if all_acks && !signs[i].ack {
                all_acks = false;
                proof {
                    bad_ack = i as int;
                }
            }
        }
        i += 1;
    }
    if all_pings {
        PromptTier::Harness
    } else if others && all_acks {
        PromptTier::Harness
    } else {
        PromptTier::Full
    }
}

/// The tier of a batch.
pub fn classify_tier(messages: &Vec<Message>, me: &str) -> (t: PromptTier)
    ensures
        t == tier_by(worker::senders(messages@), signs_of(messages@), me@),
{
    let mut signs: Vec<Signs> = Vec::new();
    let mut i: usize = 0;
    while i < messages.len()
        invariant
            i <= messages@.len(),
            signs@ == signs_of(messages@).take(i as int),
        decreases messages@.len() - i,
    {
        let content = messages[i].content.as_str();
        signs.push(Signs { ping: is_ping(content), ack: is_pure_ack(content) });
        assert(signs_of(messages@).take(i + 1) =~= signs_of(messages@).take(i as int).push(
            signs_of(messages@)[i as int],
        ));
        i += 1;
    }
    assert(signs_of(messages@).take(i as int) =~= signs_of(messages@));
    tier_from(messages, &signs, me)
}

/// A batch that holds anything but pings and acknowledgments from others is never swallowed.
pub proof fn content_reaches_the_tool(
    from: Seq<Seq<char>>,
    signs: Seq<Signs>,
    me: Seq<char>,
    i: int,
)
    requires
        from.len() == signs.len(),
        0 <= i < from.len(),
        from[i] != me,
        !signs[i].ping,
        !signs[i].ack,
    ensures
        tier_by(from, signs, me) == PromptTier::Full,
{
}

// ── Answers of the harness ──────────────────────────────────────────────────
/// The senders other than `me`, each once.
pub open spec fn other_senders(from: Seq<Seq<char>>, me: Seq<char>) -> Seq<Seq<char>>
    decreases from.len(),
{
    if from.len() == 0 {
        Seq::empty()
    } else {
        let r = other_senders(from.drop_last(), me);
        if from.last() != me && !r.contains(from.last()) {
            r.push(from.last())
        } else {
            r
        }
    }
}

/// The senders other than `me`, each once.
pub fn distinct_others(messages: &Vec<Message>, me: &str) -> (r: Vec<String>)
    ensures
        text::texts(r@) == other_senders(worker::senders(messages@), me@),
{
    let ghost all = worker::senders(messages@);
    let mut r: Vec<String> = Vec::new();
    let mut i: usize = 0;
    assert(text::texts(r@) =~= other_senders(all.take(0), me@));
    while i < messages.len()
        invariant
            i <= messages@.len(),
            all == worker::senders(messages@),
            text::texts(r@) == other_senders(all.take(i as int), me@),
        decreases messages@.len() - i,
    {
        assert(all.take(i + 1).drop_last() =~= all.take(i as int));
        let s = messages[i].sender.as_str();
        if !text::same(s, me) && !text::list_has(&r, s) {
            let ghost before = r@;
            r.push(messages[i].sender.clone());
            assert(text::texts(r@) =~= text::texts(before).push(s@));
        }
        i += 1;
    }
    assert(all.take(i as int) =~= all);
    r
}

pub open spec fn or_text(o: Option<Seq<char>>, other: Seq<char>) -> Seq<char> {
    match o {
        Some(s) => s,
        None => other,
    }
}

/// What a worker answers to a ping.
pub open spec fn ping_answer(s: worker::StateModel) -> Seq<char> {
    "Online. Status: "@ + or_text(s.status, "idle"@) + ". Files touched: "@ + text::decimal(
        s.files_touched.len(),
    ) + ". Pending: "@ + or_text(s.pending, "none"@)
}

/// What a worker answers to a ping.
pub fn ping_reply(state: &WorkerState) -> (r: String)
    ensures
        r@ == ping_answer(state@),
{
    let mut r = "Online. Status: ".to_owned();
    match &state.status {
        Some(s) => {
            r.append(s.as_str());
        },
        None => {
            r.append("idle");
        },
    }
    r.append(". Files touched: ");
    r.append(text::count(state.files_touched.len()).as_str());
    r.append(". Pending: ");
    match &state.pending {
        Some(s) => {
            r.append(s.as_str());
        },
        None => {
            r.append("none");
        },
    }
    r
}

/// What the harness does with a batch that it deals with by itself.
pub enum HarnessAnswer {
    /// The batch asked whether the worker is there: each of these is answered.
    Status(Vec<Outgoing>),
    /// The batch held acknowledgments: nobody is answered, which ends the exchange.
    Swallowed(Vec<String>),
}

/// Whether every message is a ping.
pub open spec fn all_ping(messages: Seq<Message>) -> bool {
    forall|i: int| 0 <= i < messages.len() ==> pings((#[trigger] messages[i]).content@)
}

/// Answers a batch without a call of the tool.
pub fn handle_harness_tier(messages: &Vec<Message>, me: &str, state: &WorkerState) -> (r:
    HarnessAnswer)
    ensures
        ({
            let others = other_senders(worker::senders(messages@), me@);
            match r {
                HarnessAnswer::Status(v) => all_ping(messages@) && worker::turn::sent(v@)
                    == Seq::new(others.len(), |i: int| (others[i], ping_answer(state@))),
                HarnessAnswer::Swallowed(v) => !all_ping(messages@) && text::texts(v@) == others,
            }
        }),
{
    let mut ping = true;
    let mut i: usize = 0;
    while i < messages.len()
        invariant
            i <= messages@.len(),
            ping ==> forall|k: int| 0 <= k < i ==> pings((#[trigger] messages@[k]).content@),
            !ping ==> !all_ping(messages@),
        decreases messages@.len() - i,
    {
        if !is_ping(messages[i].content.as_str()) {
            assert(!pings(messages@[i as int].content@));
            ping = false;
        }
        i += 1;
    }
    let others = distinct_others(messages, me);
    if !ping {
        return HarnessAnswer::Swallowed(others);
    }
    let answer = ping_reply(state);
    let ghost names = text::texts(others@);
    let ghost want = Seq::new(names.len(), |i: int| (names[i], ping_answer(state@)));
    let mut v: Vec<Outgoing> = Vec::new();
    let mut j: usize = 0;
    while j < others.len()
        invariant
            j <= others@.len(),
            names == text::texts(others@),
            answer@ == ping_answer(state@),
            want == Seq::new(names.len(), |i: int| (names[i], ping_answer(state@))),
            worker::turn::sent(v@) == want.take(j as int),
        decreases others@.len() - j,
    {
        let ghost before = v@;
        v.push(Outgoing { to: others[j].clone(), text: answer.clone() });
        assert(worker::turn::sent(v@) =~= worker::turn::sent(before).push(want[j as int]));
        assert(want.take(j + 1) =~= want.take(j as int).push(want[j as int]));
        j += 1;
    }
    assert(want.take(j as int) =~= want);
    HarnessAnswer::Status(v)
}

/// Whoever wrote is answered once, but for the worker itself.
pub proof fn everybody_else_is_answered(
    a: Seq<Seq<char>>,
    y: Seq<char>,
    me: Seq<char>,
)
    ensures
        other_senders(a, me).contains(y) <==> (exists|i: int| 0 <= i < a.len() && (#[trigger] a[i]) != me && a[i] == y),
        other_senders(a, me).no_duplicates(),
    decreases a.len(),
{
    let all = other_senders(a, me);
    if a.len() > 0 {
        let init = a.drop_last();
        let r = other_senders(init, me);
        everybody_else_is_answered(init, y, me);
        assert(a[a.len() - 1] == a.last());
        assert forall|i: int| 0 <= i < init.len() implies #[trigger] init[i] == a[i] by {}
        if all.contains(y) {
            let k = choose|k: int| 0 <= k < all.len() && all[k] == y;
            if k < r.len() {
                assert(r[k] == y);
                let i = choose|i: int| 0 <= i < init.len() && (#[trigger] init[i]) != me && init[i] == y;
                assert(a[i] == init[i]);
            } else {
                assert(a[a.len() - 1] != me && a[a.len() - 1] == y);
            }
        }
        if exists|i: int| 0 <= i < a.len() && (#[trigger] a[i]) != me && a[i] == y {
            let i = choose|i: int| 0 <= i < a.len() && (#[trigger] a[i]) != me && a[i] == y;
            if i < init.len() {
                assert(init[i] == a[i]);
            }
            if r.contains(y) {
                let k = choose|k: int| 0 <= k < r.len() && r[k] == y;
                assert(all[k] == y);
            } else {
                assert(all[all.len() - 1] == y);
            }
        }
    }
}

/// What comes later is put behind what came before.
pub proof fn first_writers_are_answered_first(
    a: Seq<Seq<char>>,
    b: Seq<Seq<char>>,
    me: Seq<char>,
)
    ensures
        other_senders(a, me).is_prefix_of(other_senders(a + b, me)),
    decreases b.len(),
{
    let x = other_senders(a, me);
    if b.len() == 0 {
        assert(a + b =~= a);
        assert(x =~= x.subrange(0, x.len() as int));
    } else {
        first_writers_are_answered_first(a, b.drop_last(), me);
        assert((a + b).drop_last() =~= a + b.drop_last());
        let c = other_senders(a + b, me);
        assert(x =~= c.subrange(0, x.len() as int));
    }
}

/// The harness answers by itself exactly where every message is a ping, or where somebody else wrote
/// and all that others wrote are acknowledgments.
pub proof fn tiers_are_exact(from: Seq<Seq<char>>, signs: Seq<Signs>, me: Seq<char>)
    ensures
        tier_by(from, signs, me) == PromptTier::Harness <==> {
            ||| forall|i: int| 0 <= i < signs.len() ==> (#[trigger] signs[i]).ping
            ||| {
                &&& exists|i: int| 0 <= i < from.len() && #[trigger] from[i] != me
                &&& forall|i: int|
                    0 <= i < from.len() && #[trigger] from[i] != me ==> signs[i].ack
            }
        },
        tier_by(from, signs, me) == PromptTier::Harness || tier_by(from, signs, me)
            == PromptTier::Full,
{
}

/// One more message that asks for the tool makes the whole batch ask for it, and one more ping never
/// does where all are pings.
pub proof fn one_message_is_enough(
    from: Seq<Seq<char>>,
    signs: Seq<Signs>,
    me: Seq<char>,
    who: Seq<char>,
    s: Signs,
)
    requires
        from.len() == signs.len(),
    ensures
        who != me && !s.ping && !s.ack ==> tier_by(from.push(who), signs.push(s), me)
            == PromptTier::Full,
        s.ping && (forall|i: int| 0 <= i < signs.len() ==> (#[trigger] signs[i]).ping) ==> tier_by(
            from.push(who),
            signs.push(s),
            me,
        ) == PromptTier::Harness,
{
    let f = from.push(who);
    let g = signs.push(s);
    let n = from.len() as int;
    assert(f[n] == who && g[n] == s);
    if who != me && !s.ping && !s.ack {
        content_reaches_the_tool(f, g, me, n);
    }
}

/// A ping is told by the whole of its text without the blanks round it; an acknowledgment by its
/// beginning, and only where it takes at most three hundred bytes.
pub proof fn blanks_do_not_matter(content: Seq<char>)
    ensures
        pings(content) <==> outside::regex_matches(PING_PATTERN@, text::trimmed(content)) == Some(
            true,
        ),
        acks(content) <==> text::byte_len(text::trimmed(content)) <= 300
            && outside::regex_matches(ACK_START_PATTERN@, text::trimmed(content)) == Some(true),
{
}

/// The answer to a ping holds the status, the number of files touched and what is pending; a worker
/// without a status is idle, and one with nothing pending says so.
pub proof fn pings_are_answered_with_the_state(s: worker::StateModel)
    ensures
        s.status matches Some(x) ==> ("Online. Status: "@ + x + ". Files touched: "@).is_prefix_of(
            ping_answer(s),
        ),
        s.status is None ==> ("Online. Status: "@ + "idle"@ + ". Files touched: "@).is_prefix_of(
            ping_answer(s),
        ),
        s.pending matches Some(x) ==> (text::decimal(s.files_touched.len()) + ". Pending: "@
            + x).is_suffix_of(ping_answer(s)),
        s.pending is None ==> (text::decimal(s.files_touched.len()) + ". Pending: "@
            + "none"@).is_suffix_of(ping_answer(s)),
{
    let p = ping_answer(s);
    let status = match s.status {
        Some(x) => x,
        None => "idle"@,
    };
    let pending = match s.pending {
        Some(x) => x,
        None => "none"@,
    };
    let a = "Online. Status: "@ + status + ". Files touched: "@;
    let b = text::decimal(s.files_touched.len()) + ". Pending: "@ + pending;
    assert(a =~= p.subrange(0, a.len() as int));
    assert(b =~= p.subrange(p.len() - b.len(), p.len() as int));
}

/// Each message is looked at by itself, and a tier goes by its name.
pub proof fn messages_are_looked_at_alone(messages: Seq<Message>, i: int)
    ensures
        signs_of(messages).len() == messages.len(),
        0 <= i < messages.len() ==> (signs_of(messages)[i].ping <==> pings(messages[i].content@)),
        0 <= i < messages.len() ==> (signs_of(messages)[i].ack <==> acks(messages[i].content@)),
        all_ping(messages) <==> forall|k: int|
            0 <= k < messages.len() ==> (#[trigger] signs_of(messages)[k]).ping,
        tier_name(PromptTier::Harness) == "harness"@,
        tier_name(PromptTier::Full) == "full"@,
{
    if forall|k: int| 0 <= k < messages.len() ==> (#[trigger] signs_of(messages)[k]).ping {
        assert forall|k: int| 0 <= k < messages.len() implies pings(
            (#[trigger] messages[k]).content@,
        ) by {
            assert(signs_of(messages)[k].ping);
        }
    }
}

} // verus!
