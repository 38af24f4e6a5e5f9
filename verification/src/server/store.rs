//! What concerns messages and presence together.
use crate::clock::Timestamp;
use crate::server;
use crate::server::messages;
use crate::server::messages::{Messages, Query};
use crate::server::presence;
use crate::server::presence::{Presence, PresenceModel};
use crate::server::Refusal;
use crate::text;
use vstd::prelude::*;

verus! {

/// The time from which on messages and presence are recent.
pub open spec fn cutoff(now: Timestamp) -> Timestamp {
    Timestamp { secs: (now.secs - server::RECENT_SECS) as i64, nanos: now.nanos }
}

/// Deletes what is no longer recent in a namespace and says how many messages that were. A
/// server that keeps everything for an audit deletes nothing.
pub fn cleanup_old_messages(
    table: &mut Messages,
    presence: &mut Presence,
    audit: bool,
    team: &Option<String>,
    now: Timestamp,
) -> (r: Result<usize, Refusal>)
    requires
        now.valid(),
    ensures
        audit ==> r == Err::<usize, Refusal>(Refusal::Forbidden) && final(table)@ == old(table)@
            && final(presence)@ == old(presence)@,
        !audit ==> {
            let space = server::space_of(text::opt_text(*team));
            &&& final(table)@ == Messages::without_old(old(table)@, space, cutoff(now))
            &&& final(presence)@ == presence::left(
                old(presence)@,
                space,
                Seq::empty(),
                presence::Gone::Before(cutoff(now)),
            )
            &&& r == Ok::<usize, Refusal>((old(table)@.len() - final(table)@.len()) as usize)
        },
{
    if audit {
        return Err(Refusal::Forbidden);
    }
    let since = now.minus_seconds(server::RECENT_SECS);
    let n: usize = table.delete_old(team, since);
    presence.delete_old(team, since);
    Ok(n)
}

/// How many were seen since a time.
pub open spec fn seen_since(rows: Seq<PresenceModel>, space: Seq<char>, since: Timestamp) -> nat
    decreases rows.len(),
{
    if rows.len() == 0 {
        0
    } else {
        seen_since(rows.drop_last(), space, since) + if server::space_of(rows.last().team) == space
            && !rows.last().last_seen.earlier(since) {
            1nat
        } else {
            0nat
        }
    }
}

/// What a server counts.
pub struct Metrics {
    pub messages_total: usize,
    pub messages_last_hour: usize,
    pub active_workers: usize,
}

/// What a server counts in a namespace: all messages, the recent ones, and those seen recently.
pub fn get_metrics(table: &Messages, presence: &Presence, team: &Option<String>, now: Timestamp) -> (r:
    Metrics)
    requires
        now.valid(),
    ensures
        r.messages_total == messages::selected(
            table@,
            Query::Any,
            Seq::empty(),
            server::space_of(text::opt_text(*team)),
            None,
        ).len(),
        r.messages_last_hour == messages::selected(
            table@,
            Query::Any,
            Seq::empty(),
            server::space_of(text::opt_text(*team)),
            Some(cutoff(now)),
        ).len(),
        r.active_workers == seen_since(
            presence@,
            server::space_of(text::opt_text(*team)),
            cutoff(now),
        ),
{
    let since = now.minus_seconds(server::RECENT_SECS);
    let nobody = String::new();
    let ghost rows = presence@;
    let ghost space = server::space_of(text::opt_text(*team));
    let mut n: usize = 0;
    let mut i: usize = 0;
    assert(rows.take(0) =~= Seq::<PresenceModel>::empty());
    while i < presence.rows.len()
        invariant
            i <= presence.rows.len(),
            n <= i,
            rows == presence@,
            space == server::space_of(text::opt_text(*team)),
            n == seen_since(rows.take(i as int), space, since),
        decreases presence.rows@.len() - i,
    {
        assert(rows.take(i + 1).drop_last() =~= rows.take(i as int));
        let x = &presence.rows[i];
        assert(rows.take(i + 1).last() == x@);
        if server::same_space(&x.team_id, team) && !x.last_seen.is_before(since) {
            n += 1;
        }
        i += 1;
    }
    assert(rows.take(i as int) =~= rows);
    Metrics {
        messages_total: table.count(Query::Any, nobody.as_str(), team, None),
        messages_last_hour: table.count(Query::Any, nobody.as_str(), team, Some(since)),
        active_workers: n,
    }
}

/// Cleaning up takes nothing from the lists of recent messages.
pub proof fn cleanup_hides_nothing_recent(
    rows: Seq<messages::RowModel>,
    space: Seq<char>,
    since: Timestamp,
    q: Query,
    who: Seq<char>,
)
    ensures
        messages::selected(Messages::without_old(rows, space, since), q, who, space, Some(since))
            == messages::selected(rows, q, who, space, Some(since)),
    decreases rows.len(),
{
    if rows.len() > 0 {
        let init = rows.drop_last();
        cleanup_hides_nothing_recent(init, space, since, q, who);
        let kept = Messages::without_old(init, space, since);
        let all = Messages::without_old(rows, space, since);
        if all.len() > kept.len() {
            assert(all.drop_last() =~= kept);
        }
    }
}

/// A worker counts as active exactly where it is of the namespace and was seen since the time.
pub proof fn each_row_counts_once(
    a: Seq<PresenceModel>,
    b: Seq<PresenceModel>,
    x: PresenceModel,
    space: Seq<char>,
    since: Timestamp,
)
    ensures
        seen_since(a + b, space, since) == seen_since(a, space, since) + seen_since(b, space, since),
        seen_since(seq![x], space, since) == (if server::space_of(x.team) == space && (x.last_seen.secs > since.secs || (
        x.last_seen.secs == since.secs && x.last_seen.nanos >= since.nanos)) {
            1nat
        } else {
            0nat
        }),
    decreases b.len(),
{
    let one = seq![x];
    assert(one.drop_last() =~= Seq::<PresenceModel>::empty());
    assert(seen_since(one.drop_last(), space, since) == 0);
    if b.len() == 0 {
        assert(a + b =~= a);
    } else {
        each_row_counts_once(a, b.drop_last(), x, space, since);
        assert((a + b).drop_last() =~= a + b.drop_last());
        assert((a + b).last() == b.last());
    }
}

/// What is older than eight hours is cleaned up.
pub proof fn eight_hours_are_kept(now: Timestamp)
    requires
        now.valid(),
    ensures
        now.total() - cutoff(now).total() == 8 * 3600 * 1_000_000_000,
{
}

} // verus!
