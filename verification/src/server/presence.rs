//! Presence, and the roster made of it and of who has written.
use crate::clock::Timestamp;
use crate::server;
use crate::server::messages;
use crate::server::messages::{Message, MessageModel, Messages};
use crate::server::Refusal;
use crate::sorting;
use crate::text;
use vstd::prelude::*;

verus! {

/// A sign of life, with what the worker is doing.
pub struct PresenceUpdate {
    pub role: Option<String>,
}

/// A row of the table.
pub struct PresenceRow {
    pub instance_id: String,
    pub role: String,
    pub last_seen: Timestamp,
    pub team_id: Option<String>,
}

/// The model of a [`PresenceRow`].
#[verifier::ext_equal]
pub struct PresenceModel {
    pub instance: Seq<char>,
    pub role: Seq<char>,
    pub last_seen: Timestamp,
    pub team: Option<Seq<char>>,
}

impl View for PresenceRow {
    type V = PresenceModel;

    open spec fn view(&self) -> PresenceModel {
        PresenceModel {
            instance: self.instance_id@,
            role: self.role@,
            last_seen: self.last_seen,
            team: text::opt_text(self.team_id),
        }
    }
}

/// The models of the rows.
pub open spec fn presence_models(v: Seq<PresenceRow>) -> Seq<PresenceModel> {
    Seq::new(v.len(), |i: int| v[i]@)
}

/// The row is that of an identity.
pub open spec fn is_of(r: PresenceModel, space: Seq<char>, who: Seq<char>) -> bool {
    server::space_of(r.team) == space && r.instance == who
}

/// The identity has a row.
pub open spec fn is_present(rows: Seq<PresenceModel>, space: Seq<char>, who: Seq<char>) -> bool {
    exists|i: int| 0 <= i < rows.len() && is_of(#[trigger] rows[i], space, who)
}

/// A row behind a sign of life: a role that is announced replaces the old one.
pub open spec fn touched(r: PresenceModel, role: Seq<char>, now: Timestamp) -> PresenceModel {
    PresenceModel {
        role: if role.len() > 0 {
            role
        } else {
            r.role
        },
        last_seen: now,
        ..r
    }
}

/// The table behind a sign of life of `who`.
pub open spec fn seen(
    rows: Seq<PresenceModel>,
    team: Option<Seq<char>>,
    who: Seq<char>,
    role: Seq<char>,
    now: Timestamp,
) -> Seq<PresenceModel> {
    let space = server::space_of(team);
    if is_present(rows, space, who) {
        Seq::new(
            rows.len(),
            |i: int|
                if is_of(rows[i], space, who) {
                    touched(rows[i], role, now)
                } else {
                    rows[i]
                },
        )
    } else {
        rows.push(PresenceModel { instance: who, role, last_seen: now, team })
    }
}

/// Which rows are deleted.
#[derive(Clone, Copy, PartialEq, Eq, Structural, Debug)]
pub enum Gone {
    /// Those of one identity.
    Identity,
    /// Those last seen before a time.
    Before(Timestamp),
}

/// The row is deleted.
pub open spec fn is_gone(r: PresenceModel, space: Seq<char>, who: Seq<char>, g: Gone) -> bool {
    server::space_of(r.team) == space && match g {
        Gone::Identity => r.instance == who,
        Gone::Before(t) => r.last_seen.earlier(t),
    }
}

/// The rows that are left.
pub open spec fn left(rows: Seq<PresenceModel>, space: Seq<char>, who: Seq<char>, g: Gone) -> Seq<
    PresenceModel,
>
    decreases rows.len(),
{
    if rows.len() == 0 {
        Seq::empty()
    } else {
        let r = left(rows.drop_last(), space, who, g);
        if is_gone(rows.last(), space, who, g) {
            r
        } else {
            r.push(rows.last())
        }
    }
}

/// The table of presence.
pub struct Presence {
    pub rows: Vec<PresenceRow>,
}

impl View for Presence {
    type V = Seq<PresenceModel>;

    open spec fn view(&self) -> Seq<PresenceModel> {
        presence_models(self.rows@)
    }
}

/// What a sign of life announces.
pub open spec fn announced(u: PresenceUpdate) -> Seq<char> {
    match text::opt_text(u.role) {
        Some(r) => r,
        None => Seq::empty(),
    }
}

impl Presence {
    /// A table without rows.
    pub fn new() -> (p: Presence)
        ensures
            p@ == Seq::<PresenceModel>::empty(),
    {
        let p = Presence { rows: Vec::new() };
        assert(p@ =~= Seq::<PresenceModel>::empty());
        p
    }

    /// Takes note of a sign of life.
    pub fn update_presence(
        &mut self,
        team: &Option<String>,
        who: &str,
        payload: PresenceUpdate,
        now: Timestamp,
    ) -> (r: Result<(), Refusal>)
        ensures
            r == (if server::instance_name(who@) && announced(payload).len()
                <= server::MAX_ROLE_LEN {
                Ok::<(), Refusal>(())
            } else {
                Err(Refusal::BadRequest)
            }),
            final(self)@ == (if r is Ok {
                seen(old(self)@, text::opt_text(*team), who@, announced(payload), now)
            } else {
                old(self)@
            }),
    {
        let role = match payload.role {
            Some(s) => s,
            None => String::new(),
        };
        if !server::is_instance_name(who) || text::chars_of(role.as_str()).len()
            > server::MAX_ROLE_LEN {
            return Err(Refusal::BadRequest);
        }
        let ghost before = self.rows@;
        let ghost rows = self@;
        let ghost space = server::space_of(text::opt_text(*team));
        let mut found = false;
        let mut i: usize = 0;
        while i < self.rows.len()
            invariant
                i <= self.rows@.len(),
                self.rows@.len() == before.len(),
                rows == presence_models(before),
                space == server::space_of(text::opt_text(*team)),
                found ==> is_present(rows, space, who@),
                !found ==> forall|k: int| 0 <= k < i ==> !is_of(#[trigger] rows[k], space, who@),
                forall|k: int|
                    0 <= k < i ==> (#[trigger] self.rows@[k])@ == (if is_of(rows[k], space, who@) {
                        touched(rows[k], role@, now)
                    } else {
                        rows[k]
                    }),
                forall|k: int| i <= k < before.len() ==> #[trigger] self.rows@[k] == before[k],
            decreases self.rows@.len() - i,
        {
            assert(self.rows@[i as int] == before[i as int]);
            assert(rows[i as int] == before[i as int]@);
            if server::same_space(&self.rows[i].team_id, team) && text::same(
                self.rows[i].instance_id.as_str(),
                who,
            ) {
                assert(is_of(rows[i as int], space, who@));
                found = true;
                if !role.as_str().is_empty() {
                    self.rows[i].role = role.clone();
                }
                self.rows[i].last_seen = now;
                assert(self.rows@[i as int]@ =~= touched(rows[i as int], role@, now));
            }
            i += 1;
        }
        if !found {
            assert(!is_present(rows, space, who@));
            assert(self@ =~= rows);
            let ghost mid = self.rows@;
            let row = PresenceRow {
                instance_id: who.to_owned(),
                role,
                last_seen: now,
                team_id: text::copy_opt(team),
            };
            let ghost m = row@;
            self.rows.push(row);
            assert(self@ =~= rows.push(m));
        }
        assert(self@ =~= seen(rows, text::opt_text(*team), who@, announced(payload), now));
        Ok(())
    }

    fn delete(&mut self, team: &Option<String>, who: &str, g: Gone)
        ensures
            final(self)@ == left(old(self)@, server::space_of(text::opt_text(*team)), who@, g),
    {
        let ghost all = self.rows@;
        let ghost models = self@;
        let ghost space = server::space_of(text::opt_text(*team));
        let mut rest: Vec<PresenceRow> = Vec::new();
        rest.append(&mut self.rows);
        let mut kept: Vec<PresenceRow> = Vec::new();
        let ghost mut n: int = 0;
        assert(rest@ =~= all.skip(0));
        assert(presence_models(kept@) =~= left(models.take(0), space, who@, g));
        while rest.len() > 0
            invariant
                0 <= n <= all.len(),
                rest@ == all.skip(n),
                models == presence_models(all),
                space == server::space_of(text::opt_text(*team)),
                presence_models(kept@) == left(models.take(n), space, who@, g),
            decreases rest@.len(),
        {
            let row = rest.remove(0);
            proof {
                assert(row == all[n]);
                assert(models.take(n + 1).drop_last() =~= models.take(n));
                assert(models.take(n + 1).last() == row@);
                assert(all.skip(n).remove(0) =~= all.skip(n + 1));
                n = n + 1;
            }
            let gone = server::same_space(&row.team_id, team) && (match g {
                Gone::Identity => text::same(row.instance_id.as_str(), who),
                Gone::Before(t) => row.last_seen.is_before(t),
            });
            if !gone {
                let ghost before = kept@;
                let ghost m = row@;
                kept.push(row);
                assert(presence_models(kept@) =~= presence_models(before).push(m));
            }
        }
        assert(models.take(n) =~= models);
        self.rows = kept;
    }

    /// Takes an identity off the roster.
    pub fn delete_presence(&mut self, team: &Option<String>, who: &str) -> (r: Result<(), Refusal>)
        ensures
            r == (if server::instance_name(who@) {
                Ok::<(), Refusal>(())
            } else {
                Err(Refusal::BadRequest)
            }),
            final(self)@ == (if r is Ok {
                left(
                    old(self)@,
                    server::space_of(text::opt_text(*team)),
                    who@,
                    Gone::Identity,
                )
            } else {
                old(self)@
            }),
    {
        if !server::is_instance_name(who) {
            return Err(Refusal::BadRequest);
        }
        self.delete(team, who, Gone::Identity);
        Ok(())
    }

    /// Takes those off the roster who were last seen before a time.
    pub fn delete_old(&mut self, team: &Option<String>, cutoff: Timestamp)
        ensures
            final(self)@ == left(
                old(self)@,
                server::space_of(text::opt_text(*team)),
                Seq::empty(),
                Gone::Before(cutoff),
            ),
    {
        let nobody = String::new();
        self.delete(team, nobody.as_str(), Gone::Before(cutoff));
    }
}

// ── The roster ──────────────────────────────────────────────────────────────
/// A worker as the roster shows it.
pub struct WorkerInfo {
    pub instance_id: String,
    pub role: String,
    pub last_seen: Timestamp,
    pub message_count: usize,
}

/// The model of a [`WorkerInfo`].
#[verifier::ext_equal]
pub struct InfoModel {
    pub instance: Seq<char>,
    pub role: Seq<char>,
    pub last_seen: Timestamp,
    pub count: nat,
}

impl View for WorkerInfo {
    type V = InfoModel;

    open spec fn view(&self) -> InfoModel {
        InfoModel {
            instance: self.instance_id@,
            role: self.role@,
            last_seen: self.last_seen,
            count: self.message_count as nat,
        }
    }
}

/// The models of a list of workers.
pub open spec fn info_models(v: Seq<WorkerInfo>) -> Seq<InfoModel> {
    Seq::new(v.len(), |i: int| v[i]@)
}

/// How many of the messages `who` sent.
pub open spec fn sent_by(m: Seq<MessageModel>, who: Seq<char>) -> nat
    decreases m.len(),
{
    if m.len() == 0 {
        0
    } else {
        sent_by(m.drop_last(), who) + if m.last().sender == who {
            1nat
        } else {
            0nat
        }
    }
}

/// When `who` last sent one of the messages.
pub open spec fn last_sent(m: Seq<MessageModel>, who: Seq<char>) -> Option<Timestamp>
    decreases m.len(),
{
    if m.len() == 0 {
        None
    } else {
        let r = last_sent(m.drop_last(), who);
        if m.last().sender != who {
            r
        } else {
            match r {
                Some(t) => if t.earlier(m.last().timestamp) {
                    Some(m.last().timestamp)
                } else {
                    Some(t)
                },
                None => Some(m.last().timestamp),
            }
        }
    }
}

/// Those seen since a time, with the number of messages they sent, in the order of the rows.
pub open spec fn present(
    rows: Seq<PresenceModel>,
    space: Seq<char>,
    cutoff: Timestamp,
    recent: Seq<MessageModel>,
) -> Seq<InfoModel>
    decreases rows.len(),
{
    if rows.len() == 0 {
        Seq::empty()
    } else {
        let r = present(rows.drop_last(), space, cutoff, recent);
        let x = rows.last();
        if server::space_of(x.team) == space && !x.last_seen.earlier(cutoff) {
            r.push(
                InfoModel {
                    instance: x.instance,
                    role: x.role,
                    last_seen: x.last_seen,
                    count: sent_by(recent, x.instance),
                },
            )
        } else {
            r
        }
    }
}

/// The names on a list.
pub open spec fn listed(v: Seq<InfoModel>) -> Seq<Seq<char>> {
    Seq::new(v.len(), |i: int| v[i].instance)
}

/// Those who sent one of the messages, each where they first appear, without those on a list.
pub open spec fn other_senders(m: Seq<MessageModel>, but: Seq<Seq<char>>) -> Seq<Seq<char>>
    decreases m.len(),
{
    if m.len() == 0 {
        Seq::empty()
    } else {
        let r = other_senders(m.drop_last(), but);
        let s = m.last().sender;
        if but.contains(s) || r.contains(s) {
            r
        } else {
            r.push(s)
        }
    }
}

/// What the roster says of those who wrote but gave no sign of life.
pub open spec fn writers(recent: Seq<MessageModel>, but: Seq<Seq<char>>) -> Seq<InfoModel> {
    let s = other_senders(recent, but);
    Seq::new(
        s.len(),
        |i: int|
            InfoModel {
                instance: s[i],
                role: Seq::empty(),
                last_seen: last_sent(recent, s[i])->0,
                count: sent_by(recent, s[i]),
            },
    )
}

/// When the workers of a list were seen, as numbers.
pub open spec fn seen_times(v: Seq<InfoModel>) -> Seq<int> {
    Seq::new(v.len(), |i: int| v[i].last_seen.total())
}

/// A list with those seen last first.
pub open spec fn latest_first(v: Seq<InfoModel>) -> Seq<InfoModel> {
    sorting::arranged(v, seen_times(v), true)
}

/// The roster of a namespace: those present, then those who only wrote, each group with the ones
/// seen last first.
pub open spec fn roster(
    rows: Seq<PresenceModel>,
    messages: Seq<messages::RowModel>,
    space: Seq<char>,
    cutoff: Timestamp,
) -> Seq<InfoModel> {
    let recent = messages::selected(
        messages,
        messages::Query::Any,
        Seq::empty(),
        space,
        Some(cutoff),
    );
    let here = present(rows, space, cutoff, recent);
    latest_first(here) + latest_first(writers(recent, listed(here)))
}

fn count_sent(m: &Vec<Message>, who: &str) -> (n: usize)
    ensures
        n == sent_by(messages::message_models(m@), who@),
        n <= m@.len(),
{
    let ghost all = messages::message_models(m@);
    let mut n: usize = 0;
    let mut i: usize = 0;
    assert(all.take(0) =~= Seq::<MessageModel>::empty());
    while i < m.len()
        invariant
            i <= m@.len(),
            n <= i,
            all == messages::message_models(m@),
            n == sent_by(all.take(i as int), who@),
        decreases m@.len() - i,
    {
        assert(all.take(i + 1).drop_last() =~= all.take(i as int));
        if text::same(m[i].sender.as_str(), who) {
            n += 1;
        }
        i += 1;
    }
    assert(all.take(i as int) =~= all);
    n
}

fn time_last_sent(m: &Vec<Message>, who: &str) -> (r: Option<Timestamp>)
    ensures
        r == last_sent(messages::message_models(m@), who@),
{
    let ghost all = messages::message_models(m@);
    let mut best: Option<Timestamp> = None;
    let mut i: usize = 0;
    assert(all.take(0) =~= Seq::<MessageModel>::empty());
    while i < m.len()
        invariant
            i <= m@.len(),
            all == messages::message_models(m@),
            best == last_sent(all.take(i as int), who@),
        decreases m@.len() - i,
    {
        assert(all.take(i + 1).drop_last() =~= all.take(i as int));
        if text::same(m[i].sender.as_str(), who) {
            let t = m[i].timestamp;
            best = match best {
                Some(u) => if u.is_before(t) {
                    Some(t)
                } else {
                    Some(u)
                },
                None => Some(t),
            };
        }
        i += 1;
    }
    assert(all.take(i as int) =~= all);
    best
}

proof fn senders_have_sent(m: Seq<MessageModel>, but: Seq<Seq<char>>)
    ensures
        forall|i: int|
            0 <= i < other_senders(m, but).len() ==> last_sent(
                m,
                #[trigger] other_senders(m, but)[i],
            ) is Some,
    decreases m.len(),
{
    if m.len() > 0 {
        let init = m.drop_last();
        senders_have_sent(init, but);
        let r = other_senders(init, but);
        let all = other_senders(m, but);
        assert forall|i: int| 0 <= i < all.len() implies last_sent(m, #[trigger] all[i]) is Some by {
            if i < r.len() {
                assert(all[i] == r[i]);
            }
        }
    }
}

fn has_info(v: &Vec<WorkerInfo>, who: &str) -> (r: bool)
    ensures
        r == listed(info_models(v@)).contains(who@),
{
    let ghost names = listed(info_models(v@));
    let mut i: usize = 0;
    while i < v.len()
        invariant
            i <= v@.len(),
            names == listed(info_models(v@)),
            forall|k: int| 0 <= k < i ==> #[trigger] names[k] != who@,
        decreases v@.len() - i,
    {
        assert(names[i as int] == v@[i as int].instance_id@);
        if text::same(v[i].instance_id.as_str(), who) {
            return true;
        }
        i += 1;
    }
    false
}

fn arrange(v: &Vec<WorkerInfo>) -> (r: Vec<WorkerInfo>)
    ensures
        info_models(r@) == latest_first(info_models(v@)),
{
    let ghost ms = info_models(v@);
    let mut keys: Vec<i128> = Vec::new();
    let mut i: usize = 0;
    while i < v.len()
        invariant
            i <= v@.len(),
            keys@.len() == i,
            forall|k: int| 0 <= k < i ==> #[trigger] keys@[k] == v@[k].last_seen.total(),
        decreases v@.len() - i,
    {
        keys.push(v[i].last_seen.nanoseconds());
        i += 1;
    }
    assert(sorting::key_model(keys@) =~= seen_times(ms));
    let order = sorting::order_by(&keys, true);
    let ghost o = sorting::ordering(seen_times(ms), ms.len(), true);
    let mut r: Vec<WorkerInfo> = Vec::new();
    let mut j: usize = 0;
    while j < order.len()
        invariant
            j <= order@.len(),
            ms == info_models(v@),
            o == sorting::index_model(order@),
            forall|k: int| 0 <= k < order@.len() ==> #[trigger] order@[k] < v@.len(),
            r@.len() == j,
            forall|k: int| 0 <= k < j ==> (#[trigger] r@[k])@ == ms[o[k]],
        decreases order@.len() - j,
    {
        assert(o[j as int] == order@[j as int]);
        let w = &v[order[j]];
        let copy = WorkerInfo {
            instance_id: w.instance_id.clone(),
            role: w.role.clone(),
            last_seen: w.last_seen,
            message_count: w.message_count,
        };
        assert(copy@ =~= w@);
        r.push(copy);
        j += 1;
    }
    assert(info_models(r@) =~= latest_first(ms));
    r
}

/// The roster of a namespace.
pub fn get_roster(
    presence: &Presence,
    table: &Messages,
    team: &Option<String>,
    now: Timestamp,
) -> (r: Vec<WorkerInfo>)
    requires
        now.valid(),
    ensures
        info_models(r@) == roster(
            presence@,
            table@,
            server::space_of(text::opt_text(*team)),
            Timestamp { secs: (now.secs - server::RECENT_SECS) as i64, nanos: now.nanos },
        ),
{
    let cutoff = now.minus_seconds(server::RECENT_SECS);
    let recent = table.since(team, Some(cutoff));
    let ghost rm = messages::message_models(recent@);
    let ghost rows = presence@;
    let ghost space = server::space_of(text::opt_text(*team));
    let mut here: Vec<WorkerInfo> = Vec::new();
    let mut i: usize = 0;
    assert(info_models(here@) =~= present(rows.take(0), space, cutoff, rm));
    while i < presence.rows.len()
        invariant
            i <= presence.rows@.len(),
            rows == presence@,
            rm == messages::message_models(recent@),
            space == server::space_of(text::opt_text(*team)),
            info_models(here@) == present(rows.take(i as int), space, cutoff, rm),
        decreases presence.rows@.len() - i,
    {
        assert(rows.take(i + 1).drop_last() =~= rows.take(i as int));
        let x = &presence.rows[i];
        assert(rows.take(i + 1).last() == x@);
        if server::same_space(&x.team_id, team) && !x.last_seen.is_before(cutoff) {
            let w = WorkerInfo {
                instance_id: x.instance_id.clone(),
                role: x.role.clone(),
                last_seen: x.last_seen,
                message_count: count_sent(&recent, x.instance_id.as_str()),
            };
            let ghost before = here@;
            let ghost m = w@;
            here.push(w);
            assert(info_models(here@) =~= info_models(before).push(m));
        }
        i += 1;
    }
    assert(rows.take(i as int) =~= rows);
    let ghost names = listed(info_models(here@));
    let mut who: Vec<String> = Vec::new();
    let mut j: usize = 0;
    assert(text::texts(who@) =~= other_senders(rm.take(0), names));
    while j < recent.len()
        invariant
            j <= recent@.len(),
            rm == messages::message_models(recent@),
            names == listed(info_models(here@)),
            text::texts(who@) == other_senders(rm.take(j as int), names),
        decreases recent@.len() - j,
    {
        assert(rm.take(j + 1).drop_last() =~= rm.take(j as int));
        let s = recent[j].sender.as_str();
        assert(rm.take(j + 1).last().sender == s@);
        if !has_info(&here, s) && !text::list_has(&who, s) {
            let ghost before = who@;
            who.push(recent[j].sender.clone());
            assert(text::texts(who@) =~= text::texts(before).push(s@));
        }
        j += 1;
    }
    assert(rm.take(j as int) =~= rm);
    proof {
        senders_have_sent(rm, names);
    }
    let ghost want = writers(rm, names);
    let mut wrote: Vec<WorkerInfo> = Vec::new();
    let mut k: usize = 0;
    while k < who.len()
        invariant
            k <= who@.len(),
            rm == messages::message_models(recent@),
            text::texts(who@) == other_senders(rm, names),
            want == writers(rm, names),
            forall|i: int|
                0 <= i < other_senders(rm, names).len() ==> last_sent(
                    rm,
                    #[trigger] other_senders(rm, names)[i],
                ) is Some,
            info_models(wrote@) == want.take(k as int),
        decreases who@.len() - k,
    {
        assert(other_senders(rm, names)[k as int] == who@[k as int]@);
        let last_seen = match time_last_sent(&recent, who[k].as_str()) {
            Some(t) => t,
            None => cutoff,
        };
        let w = WorkerInfo {
            instance_id: who[k].clone(),
            role: String::new(),
            last_seen,
            message_count: count_sent(&recent, who[k].as_str()),
        };
        let ghost before = wrote@;
        let ghost m = w@;
        wrote.push(w);
        assert(m =~= want[k as int]);
        assert(info_models(wrote@) =~= info_models(before).push(m));
        assert(want.take(k + 1) =~= want.take(k as int).push(m));
        k += 1;
    }
    assert(want.take(k as int) =~= want);
    let mut r = arrange(&here);
    let mut rest = arrange(&wrote);
    let ghost a = r@;
    let ghost b = rest@;
    r.append(&mut rest);
    assert(info_models(r@) =~= info_models(a) + info_models(b));
    r
}

// ── Laws ────────────────────────────────────────────────────────────────────
/// No identity has two rows.
pub open spec fn one_row_each(rows: Seq<PresenceModel>) -> bool {
    forall|i: int, j: int|
        0 <= i < j < rows.len() ==> !is_of(
            #[trigger] rows[i],
            server::space_of((#[trigger] rows[j]).team),
            rows[j].instance,
        )
}

/// A sign of life never gives an identity a second row.
pub proof fn presence_stays_single(
    rows: Seq<PresenceModel>,
    team: Option<Seq<char>>,
    who: Seq<char>,
    role: Seq<char>,
    now: Timestamp,
)
    requires
        one_row_each(rows),
    ensures
        one_row_each(seen(rows, team, who, role, now)),
{
    let s = seen(rows, team, who, role, now);
    assert forall|i: int, j: int| 0 <= i < j < s.len() implies !is_of(
        #[trigger] s[i],
        server::space_of((#[trigger] s[j]).team),
        s[j].instance,
    ) by {
        if j < rows.len() {
            assert(!is_of(rows[i], server::space_of(rows[j].team), rows[j].instance));
        } else {
            assert(!is_of(rows[i], server::space_of(team), who));
        }
    }
}

/// Behind a sign of life the identity is present and was seen just now.
pub proof fn signs_of_life_count(
    rows: Seq<PresenceModel>,
    team: Option<Seq<char>>,
    who: Seq<char>,
    role: Seq<char>,
    now: Timestamp,
)
    ensures
        exists|i: int|
            0 <= i < seen(rows, team, who, role, now).len() && is_of(
                #[trigger] seen(rows, team, who, role, now)[i],
                server::space_of(team),
                who,
            ) && seen(rows, team, who, role, now)[i].last_seen == now,
{
    let s = seen(rows, team, who, role, now);
    let space = server::space_of(team);
    if is_present(rows, space, who) {
        let i = choose|i: int| 0 <= i < rows.len() && is_of(#[trigger] rows[i], space, who);
        assert(is_of(s[i], space, who) && s[i].last_seen == now);
    } else {
        assert(is_of(s[rows.len() as int], space, who));
    }
}

/// What one team does leaves the presence of every other namespace as it is.
pub proof fn presence_is_isolated(
    rows: Seq<PresenceModel>,
    team: Option<Seq<char>>,
    who: Seq<char>,
    role: Seq<char>,
    now: Timestamp,
    space: Seq<char>,
    cutoff: Timestamp,
    recent: Seq<MessageModel>,
)
    requires
        space != server::space_of(team),
    ensures
        present(seen(rows, team, who, role, now), space, cutoff, recent) == present(
            rows,
            space,
            cutoff,
            recent,
        ),
{
    let s = seen(rows, team, who, role, now);
    if is_present(rows, server::space_of(team), who) {
        assert forall|i: int| 0 <= i < rows.len() implies (#[trigger] rows[i] == s[i]
            || server::space_of(rows[i].team) != space && server::space_of(s[i].team) != space) by {}
        same_presence(rows, s, space, cutoff, recent);
    } else {
        assert(s.drop_last() =~= rows);
    }
}

proof fn same_presence(
    a: Seq<PresenceModel>,
    b: Seq<PresenceModel>,
    space: Seq<char>,
    cutoff: Timestamp,
    recent: Seq<MessageModel>,
)
    requires
        a.len() == b.len(),
        forall|i: int|
            0 <= i < a.len() ==> (#[trigger] a[i] == b[i] || server::space_of(a[i].team) != space
                && server::space_of(b[i].team) != space),
    ensures
        present(a, space, cutoff, recent) == present(b, space, cutoff, recent),
    decreases a.len(),
{
    if a.len() > 0 {
        assert forall|i: int| 0 <= i < a.drop_last().len() implies (#[trigger] a.drop_last()[i]
            == b.drop_last()[i] || server::space_of(a.drop_last()[i].team) != space
            && server::space_of(b.drop_last()[i].team) != space) by {
            assert(a[i] == b[i] || server::space_of(a[i].team) != space && server::space_of(
                b[i].team,
            ) != space);
        }
        same_presence(a.drop_last(), b.drop_last(), space, cutoff, recent);
        let n = a.len() - 1;
        assert(a[n] == b[n] || server::space_of(a[n].team) != space && server::space_of(b[n].team)
            != space);
    }
}

/// Nobody stands on the roster twice: those who only wrote are not among those present.
pub proof fn roster_groups_are_disjoint(recent: Seq<MessageModel>, but: Seq<Seq<char>>)
    ensures
        other_senders(recent, but).no_duplicates(),
        forall|i: int|
            0 <= i < other_senders(recent, but).len() ==> !but.contains(
                #[trigger] other_senders(recent, but)[i],
            ),
    decreases recent.len(),
{
    if recent.len() > 0 {
        let r = other_senders(recent.drop_last(), but);
        let all = other_senders(recent, but);
        roster_groups_are_disjoint(recent.drop_last(), but);
        assert forall|i: int| 0 <= i < all.len() implies !but.contains(#[trigger] all[i]) by {
            if i < r.len() {
                assert(all[i] == r[i]);
            }
        }
    }
}

/// Rows go one by one: those of an identity, or those last seen before a time, and always of one
/// namespace only. The others stay as they are and in order.
pub proof fn each_row_goes_alone(
    a: Seq<PresenceModel>,
    b: Seq<PresenceModel>,
    x: PresenceModel,
    space: Seq<char>,
    who: Seq<char>,
    g: Gone,
)
    ensures
        left(a + b, space, who, g) == left(a, space, who, g) + left(b, space, who, g),
        left(seq![x], space, who, g) == (if server::space_of(x.team) == space && (g == Gone::Identity && x.instance == who || (
        g matches Gone::Before(t) && (x.last_seen.secs < t.secs || (x.last_seen.secs == t.secs
            && x.last_seen.nanos < t.nanos)))) {
            Seq::empty()
        } else {
            seq![x]
        }),
    decreases b.len(),
{
    let one = seq![x];
    assert(one.drop_last() =~= Seq::<PresenceModel>::empty());
    assert(left(one.drop_last(), space, who, g).len() == 0);
    assert(left(one, space, who, g) =~= (if server::space_of(x.team) == space && (g == Gone::Identity && x.instance == who || (
        g matches Gone::Before(t) && (x.last_seen.secs < t.secs || (x.last_seen.secs == t.secs
            && x.last_seen.nanos < t.nanos)))) {
            Seq::empty()
        } else {
            seq![x]
        }));
    if b.len() == 0 {
        assert(a + b =~= a);
        assert(left(a, space, who, g) + left(b, space, who, g) =~= left(a, space, who, g));
    } else {
        each_row_goes_alone(a, b.drop_last(), x, space, who, g);
        assert((a + b).drop_last() =~= a + b.drop_last());
        assert((a + b).last() == b.last());
        assert(left(a + b, space, who, g) =~= left(a, space, who, g) + left(b, space, who, g));
    }
}

/// The messages of a sender are counted one by one.
pub proof fn each_message_counts_once(
    a: Seq<MessageModel>,
    b: Seq<MessageModel>,
    x: MessageModel,
    who: Seq<char>,
)
    ensures
        sent_by(a + b, who) == sent_by(a, who) + sent_by(b, who),
        sent_by(seq![x], who) == (if x.sender == who {
            1nat
        } else {
            0nat
        }),
    decreases b.len(),
{
    let one = seq![x];
    assert(one.drop_last() =~= Seq::<MessageModel>::empty());
    assert(sent_by(one.drop_last(), who) == 0);
    if b.len() == 0 {
        assert(a + b =~= a);
    } else {
        each_message_counts_once(a, b.drop_last(), x, who);
        assert((a + b).drop_last() =~= a + b.drop_last());
        assert((a + b).last() == b.last());
    }
}

/// Every row of the namespace that was seen since the cutoff is shown with its role, when it was seen
/// and how much it wrote; no other is.
pub proof fn each_worker_is_shown_alone(
    a: Seq<PresenceModel>,
    b: Seq<PresenceModel>,
    x: PresenceModel,
    space: Seq<char>,
    cutoff: Timestamp,
    recent: Seq<MessageModel>,
)
    ensures
        present(a + b, space, cutoff, recent) == present(a, space, cutoff, recent) + present(b, space, cutoff, recent),
        present(seq![x], space, cutoff, recent) == (if server::space_of(x.team) == space && (x.last_seen.secs > cutoff.secs || (
        x.last_seen.secs == cutoff.secs && x.last_seen.nanos >= cutoff.nanos)) {
            seq![
                InfoModel {
                    instance: x.instance,
                    role: x.role,
                    last_seen: x.last_seen,
                    count: sent_by(recent, x.instance),
                },
            ]
        } else {
            Seq::empty()
        }),
    decreases b.len(),
{
    let one = seq![x];
    assert(one.drop_last() =~= Seq::<PresenceModel>::empty());
    assert(present(one.drop_last(), space, cutoff, recent).len() == 0);
    assert(present(one, space, cutoff, recent) =~= (if server::space_of(x.team) == space && (x.last_seen.secs > cutoff.secs || (
        x.last_seen.secs == cutoff.secs && x.last_seen.nanos >= cutoff.nanos)) {
            seq![
                InfoModel {
                    instance: x.instance,
                    role: x.role,
                    last_seen: x.last_seen,
                    count: sent_by(recent, x.instance),
                },
            ]
        } else {
            Seq::empty()
        }));
    if b.len() == 0 {
        assert(a + b =~= a);
        assert(present(a, space, cutoff, recent) + present(b, space, cutoff, recent) =~= present(a, space, cutoff, recent));
    } else {
        each_worker_is_shown_alone(a, b.drop_last(), x, space, cutoff, recent);
        assert((a + b).drop_last() =~= a + b.drop_last());
        assert((a + b).last() == b.last());
        assert(present(a + b, space, cutoff, recent) =~= present(a, space, cutoff, recent) + present(b, space, cutoff, recent));
    }
}

/// Whoever wrote and is not shown already is shown once.
pub proof fn every_other_writer_is_shown(
    a: Seq<MessageModel>,
    y: Seq<char>,
    but: Seq<Seq<char>>,
)
    ensures
        other_senders(a, but).contains(y) <==> (exists|i: int| 0 <= i < a.len() && !but.contains((#[trigger] a[i]).sender) && a[i].sender == y),
        other_senders(a, but).no_duplicates(),
    decreases a.len(),
{
    let all = other_senders(a, but);
    if a.len() > 0 {
        let init = a.drop_last();
        let r = other_senders(init, but);
        every_other_writer_is_shown(init, y, but);
        assert(a[a.len() - 1] == a.last());
        assert forall|i: int| 0 <= i < init.len() implies #[trigger] init[i] == a[i] by {}
        if all.contains(y) {
            let k = choose|k: int| 0 <= k < all.len() && all[k] == y;
            if k < r.len() {
                assert(r[k] == y);
                let i = choose|i: int| 0 <= i < init.len() && !but.contains((#[trigger] init[i]).sender) && init[i].sender == y;
                assert(a[i] == init[i]);
            } else {
                assert(!but.contains(a[a.len() - 1].sender) && a[a.len() - 1].sender == y);
            }
        }
        if exists|i: int| 0 <= i < a.len() && !but.contains((#[trigger] a[i]).sender) && a[i].sender == y {
            let i = choose|i: int| 0 <= i < a.len() && !but.contains((#[trigger] a[i]).sender) && a[i].sender == y;
            if i < init.len() {
                assert(init[i] == a[i]);
            }
            if r.contains(y) {
                let k = choose|k: int| 0 <= k < r.len() && r[k] == y;
                assert(all[k] == y);
            } else {
                assert(all[all.len() - 1] == y);
            }
        }
    }
}

/// What comes later is put behind what came before.
pub proof fn earlier_writers_come_first(
    a: Seq<MessageModel>,
    b: Seq<MessageModel>,
    but: Seq<Seq<char>>,
)
    ensures
        other_senders(a, but).is_prefix_of(other_senders(a + b, but)),
    decreases b.len(),
{
    let x = other_senders(a, but);
    if b.len() == 0 {
        assert(a + b =~= a);
        assert(x =~= x.subrange(0, x.len() as int));
    } else {
        earlier_writers_come_first(a, b.drop_last(), but);
        assert((a + b).drop_last() =~= a + b.drop_last());
        let c = other_senders(a + b, but);
        assert(x =~= c.subrange(0, x.len() as int));
    }
}

/// When somebody wrote last is the time of one of their messages, and none of them is later.
pub proof fn the_last_message_is_the_latest(m: Seq<MessageModel>, who: Seq<char>, i: int)
    ensures
        last_sent(m, who) is None <==> forall|k: int|
            0 <= k < m.len() ==> (#[trigger] m[k]).sender != who,
        last_sent(m, who) matches Some(t) ==> exists|k: int|
            0 <= k < m.len() && (#[trigger] m[k]).sender == who && m[k].timestamp == t,
        0 <= i < m.len() && m[i].sender == who ==> last_sent(m, who) is Some && !(last_sent(
            m,
            who,
        )->0).earlier(m[i].timestamp),
    decreases m.len(),
{
    if m.len() > 0 {
        let init = m.drop_last();
        let n = m.len() - 1;
        the_last_message_is_the_latest(init, who, i);
        assert(m[n] == m.last());
        assert forall|k: int| 0 <= k < n implies #[trigger] init[k] == m[k] by {}
        if last_sent(init, who) is Some {
            let k = choose|k: int|
                0 <= k < init.len() && (#[trigger] init[k]).sender == who && init[k].timestamp
                    == last_sent(init, who)->0;
            assert(m[k] == init[k]);
        } else {
            if m.last().sender != who {
                assert forall|k: int| 0 <= k < m.len() implies (#[trigger] m[k]).sender != who by {
                    if k < n {
                        assert(init[k].sender != who);
                    }
                }
            }
        }
    }
}

/// A sign of life is noted in the row of the one who gives it, or in a new row behind the others;
/// a role that is not said is kept. No other row changes.
pub proof fn signs_of_life_are_exact(
    rows: Seq<PresenceModel>,
    team: Option<Seq<char>>,
    who: Seq<char>,
    role: Seq<char>,
    now: Timestamp,
    i: int,
)
    requires
        0 <= i < rows.len(),
    ensures
        ({
            let s = seen(rows, team, who, role, now);
            let mine = |r: PresenceModel|
                r.instance == who && server::space_of(r.team) == server::space_of(team);
            &&& mine(rows[i]) ==> {
                &&& s.len() == rows.len()
                &&& s[i].last_seen == now
                &&& s[i].role == (if role.len() > 0 {
                    role
                } else {
                    rows[i].role
                })
                &&& s[i].instance == who && s[i].team == rows[i].team
            }
            &&& !mine(rows[i]) ==> s[i] == rows[i]
            &&& (forall|k: int| 0 <= k < rows.len() ==> !mine(#[trigger] rows[k])) ==> {
                &&& s.len() == rows.len() + 1
                &&& s.last().instance == who && s.last().role == role && s.last().last_seen == now
                    && s.last().team == team
            }
        }),
{
    let space = server::space_of(team);
    if is_of(rows[i], space, who) {
        assert(is_present(rows, space, who));
    }
}

/// A roster shows those seen last first.
pub proof fn rosters_are_sorted(v: Seq<InfoModel>, i: int, j: int, x: InfoModel)
    ensures
        latest_first(v).len() == v.len(),
        latest_first(v).contains(x) <==> v.contains(x),
        0 <= i < j < v.len() ==> latest_first(v)[i].last_seen.total() >= latest_first(
            v,
        )[j].last_seen.total(),
{
    sorting::arranged_keeps(v, seen_times(v), true, x);
    if 0 <= i < j < v.len() {
        sorting::arranged_is_sorted(v, seen_times(v), true, i, j);
    }
}

proof fn shown_workers(
    rows: Seq<PresenceModel>,
    space: Seq<char>,
    cutoff: Timestamp,
    recent: Seq<MessageModel>,
    who: Seq<char>,
)
    ensures
        listed(present(rows, space, cutoff, recent)).contains(who) <==> exists|i: int|
            0 <= i < rows.len() && (#[trigger] rows[i]).instance == who && server::space_of(
                rows[i].team,
            ) == space && !rows[i].last_seen.earlier(cutoff),
    decreases rows.len(),
{
    if rows.len() > 0 {
        let init = rows.drop_last();
        let n = rows.len() - 1;
        let a = present(init, space, cutoff, recent);
        let all = present(rows, space, cutoff, recent);
        shown_workers(init, space, cutoff, recent, who);
        assert(rows[n] == rows.last());
        if listed(all).contains(who) {
            let k = choose|k: int| 0 <= k < all.len() && listed(all)[k] == who;
            if k < a.len() {
                assert(listed(a)[k] == who);
                let i = choose|i: int|
                    0 <= i < init.len() && (#[trigger] init[i]).instance == who && server::space_of(
                        init[i].team,
                    ) == space && !init[i].last_seen.earlier(cutoff);
                assert(rows[i] == init[i]);
            }
        }
        if exists|i: int|
            0 <= i < rows.len() && (#[trigger] rows[i]).instance == who && server::space_of(
                rows[i].team,
            ) == space && !rows[i].last_seen.earlier(cutoff) {
            let i = choose|i: int|
                0 <= i < rows.len() && (#[trigger] rows[i]).instance == who && server::space_of(
                    rows[i].team,
                ) == space && !rows[i].last_seen.earlier(cutoff);
            if i < n {
                assert(init[i] == rows[i]);
                let k = choose|k: int| 0 <= k < a.len() && listed(a)[k] == who;
                assert(listed(all)[k] == who);
            } else {
                assert(listed(all)[a.len() as int] == who);
            }
        }
    }
}

proof fn sorted_names(v: Seq<InfoModel>, who: Seq<char>)
    ensures
        listed(latest_first(v)).contains(who) <==> listed(v).contains(who),
{
    let s = latest_first(v);
    if listed(s).contains(who) {
        let k = choose|k: int| 0 <= k < s.len() && listed(s)[k] == who;
        sorting::arranged_keeps(v, seen_times(v), true, s[k]);
        assert(s.contains(s[k]));
        let i = choose|i: int| 0 <= i < v.len() && v[i] == s[k];
        assert(listed(v)[i] == who);
    }
    if listed(v).contains(who) {
        let k = choose|k: int| 0 <= k < v.len() && listed(v)[k] == who;
        sorting::arranged_keeps(v, seen_times(v), true, v[k]);
        assert(v.contains(v[k]));
        let i = choose|i: int| 0 <= i < s.len() && s[i] == v[k];
        assert(listed(s)[i] == who);
    }
}

/// A roster names exactly those of the namespace who gave a sign of life or sent a message since the
/// cutoff.
pub proof fn rosters_are_complete(
    rows: Seq<PresenceModel>,
    table: Seq<messages::RowModel>,
    space: Seq<char>,
    cutoff: Timestamp,
    who: Seq<char>,
)
    ensures
        listed(roster(rows, table, space, cutoff)).contains(who) <==> {
            ||| exists|i: int|
                0 <= i < rows.len() && (#[trigger] rows[i]).instance == who && server::space_of(
                    rows[i].team,
                ) == space && !rows[i].last_seen.earlier(cutoff)
            ||| exists|i: int|
                0 <= i < table.len() && (#[trigger] table[i]).sender == who && server::space_of(
                    table[i].team,
                ) == space && !table[i].timestamp.earlier(cutoff)
        },
{
    let none = Seq::<char>::empty();
    let any = messages::Query::Any;
    let recent = messages::selected(table, any, none, space, Some(cutoff));
    let here = present(rows, space, cutoff, recent);
    let but = listed(here);
    let others = other_senders(recent, but);
    let w = writers(recent, but);
    let a = latest_first(here);
    let b = latest_first(w);
    let all = roster(rows, table, space, cutoff);
    shown_workers(rows, space, cutoff, recent, who);
    sorted_names(here, who);
    sorted_names(w, who);
    assert(listed(w) =~= others);
    assert(listed(all) =~= listed(a) + listed(b));
    every_other_writer_is_shown(recent, who, but);
    if listed(all).contains(who) {
        let k = choose|k: int| 0 <= k < listed(all).len() && listed(all)[k] == who;
        if k < listed(a).len() {
            assert(listed(a)[k] == who);
        } else {
            assert(listed(b)[k - listed(a).len()] == who);
            assert(others.contains(who));
            let i = choose|i: int|
                0 <= i < recent.len() && !but.contains((#[trigger] recent[i]).sender)
                    && recent[i].sender == who;
            assert(recent.contains(recent[i]));
            messages::selected_meaning(table, any, none, space, Some(cutoff), recent[i]);
            let j = choose|j: int|
                0 <= j < table.len() && messages::hit(
                    #[trigger] table[j],
                    any,
                    none,
                    space,
                    Some(cutoff),
                ) && messages::message_of(table[j]) == recent[i];
            assert(table[j].sender == who);
        }
    }
    if but.contains(who) {
        let k = choose|k: int| 0 <= k < listed(a).len() && listed(a)[k] == who;
        assert(listed(all)[k] == who);
    } else if exists|i: int|
        0 <= i < table.len() && (#[trigger] table[i]).sender == who && server::space_of(
            table[i].team,
        ) == space && !table[i].timestamp.earlier(cutoff) {
        let j = choose|i: int|
            0 <= i < table.len() && (#[trigger] table[i]).sender == who && server::space_of(
                table[i].team,
            ) == space && !table[i].timestamp.earlier(cutoff);
        let m = messages::message_of(table[j]);
        messages::selected_meaning(table, any, none, space, Some(cutoff), m);
        assert(messages::hit(table[j], any, none, space, Some(cutoff)));
        let i = choose|i: int| 0 <= i < recent.len() && recent[i] == m;
        assert(!but.contains(recent[i].sender));
        assert(others.contains(who));
        let k = choose|k: int| 0 <= k < listed(b).len() && listed(b)[k] == who;
        assert(listed(all)[listed(a).len() + k] == who);
    }
}

/// Whoever only wrote is shown without a role, with when they wrote last and how much.
pub proof fn writers_are_shown_by_their_messages(
    recent: Seq<MessageModel>,
    but: Seq<Seq<char>>,
    i: int,
)
    requires
        0 <= i < other_senders(recent, but).len(),
    ensures
        ({
            let w = writers(recent, but)[i];
            &&& writers(recent, but).len() == other_senders(recent, but).len()
            &&& w.instance == other_senders(recent, but)[i]
            &&& w.role.len() == 0
            &&& last_sent(recent, w.instance) == Some(w.last_seen)
            &&& w.count == sent_by(recent, w.instance)
        }),
{
    senders_have_sent(recent, but);
}

/// A role that is not said is the empty one.
pub proof fn silence_is_no_role(u: PresenceUpdate)
    ensures
        u.role matches Some(r) ==> announced(u) == r@,
        u.role is None ==> announced(u).len() == 0,
        server::MAX_ROLE_LEN == 256,
{
}

} // verus!
