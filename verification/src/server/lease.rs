//! Leases: at most one process at a time may act as one identity of one team.
use crate::clock;
use crate::clock::Timestamp;
use crate::server;
use crate::server::Refusal;
use crate::text;
use vstd::prelude::*;

verus! {

/// How long a lease lasts without a sign of life, in seconds.
pub const LEASE_TTL_SECS: i64 = 30;

/// A process asks to act as an identity.
pub struct LeaseRequest {
    pub instance_id: String,
    pub pid: i64,
    pub host: String,
}

/// A lease as it is handed out.
pub struct LeaseState {
    pub team_id: Option<String>,
    pub instance_id: String,
    pub pid: i64,
    pub host: String,
    pub acquired_at: Timestamp,
    pub last_heartbeat: Timestamp,
    /// It was taken from a process that had gone silent.
    pub taken_over: bool,
}

/// Who holds a lease that was asked for.
pub struct LeaseConflict {
    pub team_id: Option<String>,
    pub instance_id: String,
    pub pid: i64,
    pub host: String,
    pub last_heartbeat: Timestamp,
    pub seconds_since_heartbeat: i64,
}

/// A time in a row. A text as it is written here sorts as its time does, so it is kept as the time;
/// any other text is kept as it is.
pub enum Mark {
    At(Timestamp),
    Text(String),
}

/// The model of a [`Mark`].
#[verifier::ext_equal]
pub enum MarkModel {
    At(Timestamp),
    Text(Seq<char>),
}

impl View for Mark {
    type V = MarkModel;

    open spec fn view(&self) -> MarkModel {
        match self {
            Mark::At(t) => MarkModel::At(*t),
            Mark::Text(s) => MarkModel::Text(s@),
        }
    }
}

/// The time of a text; `now` where it cannot be read.
pub open spec fn time_or(s: Seq<char>, now: Timestamp) -> Timestamp {
    match clock::time_of(s) {
        Some(t) => t,
        None => now,
    }
}

impl MarkModel {
    /// A time that is kept as one was read off a clock.
    pub open spec fn orderly(self) -> bool {
        self matches MarkModel::At(t) ==> t.valid()
    }

    /// The time that is shown; `now` for a text that cannot be read.
    pub open spec fn time(self, now: Timestamp) -> Timestamp {
        match self {
            MarkModel::At(t) => t,
            MarkModel::Text(s) => time_or(s, now),
        }
    }

    /// The text under which the time is stored.
    pub open spec fn stored(self) -> Seq<char> {
        match self {
            MarkModel::At(t) => t.text(),
            MarkModel::Text(s) => s,
        }
    }
}

/// What a stored text is kept as.
pub open spec fn mark_of(s: Seq<char>) -> MarkModel {
    match clock::time_of(s) {
        Some(t) => if t.valid() && t.text() == s {
            MarkModel::At(t)
        } else {
            MarkModel::Text(s)
        },
        None => MarkModel::Text(s),
    }
}

impl Mark {
    /// Whether a time that is kept as one was read off a clock.
    pub fn is_orderly(&self) -> (r: bool)
        ensures
            r == self@.orderly(),
    {
        match self {
            Mark::At(t) => t.is_valid(),
            Mark::Text(_) => true,
        }
    }

    /// The time that is shown.
    pub fn shown(&self, now: Timestamp) -> (t: Timestamp)
        ensures
            t == self@.time(now),
    {
        match self {
            Mark::At(t) => *t,
            Mark::Text(s) => match clock::parse_time(s.as_str()) {
                Some(t) => t,
                None => now,
            },
        }
    }

    /// The text under which the time is stored.
    pub fn to_stored(&self) -> (r: String)
        requires
            self@.orderly(),
        ensures
            r@ == self@.stored(),
    {
        match self {
            Mark::At(t) => t.to_rfc3339(),
            Mark::Text(s) => s.clone(),
        }
    }

    /// What a stored text is kept as.
    pub fn from_stored(s: &str) -> (m: Mark)
        ensures
            m@ == mark_of(s@),
    {
        if let Some(t) = clock::parse_time(s) {
            if t.is_valid() && text::same(t.to_rfc3339().as_str(), s) {
                return Mark::At(t);
            }
        }
        Mark::Text(s.to_owned())
    }
}

/// A row of the table.
pub struct LeaseRow {
    pub team_id: Option<String>,
    pub instance_id: String,
    pub pid: i64,
    pub host: String,
    pub acquired_at: Mark,
    pub last_heartbeat: Mark,
}

/// The model of a [`LeaseRow`].
#[verifier::ext_equal]
pub struct LeaseModel {
    pub team: Option<Seq<char>>,
    pub instance: Seq<char>,
    pub pid: i64,
    pub host: Seq<char>,
    pub acquired_at: MarkModel,
    pub last_heartbeat: MarkModel,
}

impl View for LeaseRow {
    type V = LeaseModel;

    open spec fn view(&self) -> LeaseModel {
        LeaseModel {
            team: text::opt_text(self.team_id),
            instance: self.instance_id@,
            pid: self.pid,
            host: self.host@,
            acquired_at: self.acquired_at@,
            last_heartbeat: self.last_heartbeat@,
        }
    }
}

/// The models of the rows.
pub open spec fn lease_models(v: Seq<LeaseRow>) -> Seq<LeaseModel> {
    Seq::new(v.len(), |i: int| v[i]@)
}

/// The answer shows a lease, at the time `now`, and whether it was taken over.
pub open spec fn shows(s: LeaseState, m: LeaseModel, taken_over: bool, now: Timestamp) -> bool {
    &&& text::opt_text(s.team_id) == m.team
    &&& s.instance_id@ == m.instance
    &&& s.pid == m.pid
    &&& s.host@ == m.host
    &&& s.acquired_at == m.acquired_at.time(now)
    &&& s.last_heartbeat == m.last_heartbeat.time(now)
    &&& s.taken_over == taken_over
}

/// The answer says who holds a lease that was asked for at the time `now`.
pub open spec fn names(c: LeaseConflict, m: LeaseModel, now: Timestamp) -> bool {
    &&& text::opt_text(c.team_id) == m.team
    &&& c.instance_id@ == m.instance
    &&& c.pid == m.pid
    &&& c.host@ == m.host
    &&& c.last_heartbeat == m.last_heartbeat.time(now)
    &&& c.seconds_since_heartbeat == clock::counted(
        now.seconds_after(m.last_heartbeat.time(now)),
    )
}

/// The row is the lease of an identity.
pub open spec fn is_for(r: LeaseModel, space: Seq<char>, who: Seq<char>) -> bool {
    server::space_of(r.team) == space && r.instance == who
}

/// No identity has two leases.
pub open spec fn single(rows: Seq<LeaseModel>) -> bool {
    forall|i: int, j: int|
        0 <= i < j < rows.len() ==> !is_for(
            #[trigger] rows[i],
            server::space_of((#[trigger] rows[j]).team),
            rows[j].instance,
        )
}

/// Every time that is kept as one was read off a clock.
pub open spec fn timed(rows: Seq<LeaseModel>) -> bool {
    forall|i: int|
        0 <= i < rows.len() ==> (#[trigger] rows[i]).last_heartbeat.orderly()
            && rows[i].acquired_at.orderly()
}

/// Where the lease of an identity stands.
pub open spec fn lease_at(rows: Seq<LeaseModel>, space: Seq<char>, who: Seq<char>) -> Option<int>
    decreases rows.len(),
{
    if rows.len() == 0 {
        None
    } else if is_for(rows.last(), space, who) {
        Some(rows.len() - 1)
    } else {
        lease_at(rows.drop_last(), space, who)
    }
}

/// What `lease_at` gives.
pub proof fn lease_at_meaning(rows: Seq<LeaseModel>, space: Seq<char>, who: Seq<char>)
    ensures
        match lease_at(rows, space, who) {
            Some(i) => 0 <= i < rows.len() && is_for(rows[i], space, who),
            None => forall|i: int| 0 <= i < rows.len() ==> !is_for(#[trigger] rows[i], space, who),
        },
    decreases rows.len(),
{
    if rows.len() > 0 && !is_for(rows.last(), space, who) {
        let init = rows.drop_last();
        lease_at_meaning(init, space, who);
        assert forall|i: int|
            lease_at(rows, space, who) is None && 0 <= i < rows.len() implies !is_for(
            #[trigger] rows[i],
            space,
            who,
        ) by {
            if i < init.len() {
                assert(init[i] == rows[i]);
            }
        }
    }
}

/// The rows that keep a table in order: of two leases for one identity the first one counts, and
/// a row whose times no clock shows does not.
pub open spec fn orderly(rows: Seq<LeaseModel>) -> Seq<LeaseModel>
    decreases rows.len(),
{
    if rows.len() == 0 {
        Seq::empty()
    } else {
        let r = orderly(rows.drop_last());
        let m = rows.last();
        if lease_at(r, server::space_of(m.team), m.instance) is None && m.last_heartbeat.orderly()
            && m.acquired_at.orderly() {
            r.push(m)
        } else {
            r
        }
    }
}

/// A table that is in order is kept whole.
pub proof fn orderly_rows_are_kept(rows: Seq<LeaseModel>)
    requires
        single(rows),
        timed(rows),
    ensures
        orderly(rows) == rows,
    decreases rows.len(),
{
    if rows.len() == 0 {
        assert(orderly(rows) =~= rows);
    } else {
        let init = rows.drop_last();
        let m = rows.last();
        assert forall|i: int, j: int| 0 <= i < j < init.len() implies !is_for(
            #[trigger] init[i],
            server::space_of((#[trigger] init[j]).team),
            init[j].instance,
        ) by {
            assert(!is_for(rows[i], server::space_of(rows[j].team), rows[j].instance));
        }
        assert forall|i: int| 0 <= i < init.len() implies (
        #[trigger] init[i]).last_heartbeat.orderly() && init[i].acquired_at.orderly() by {
            assert(rows[i].last_heartbeat.orderly());
        }
        orderly_rows_are_kept(init);
        lease_at_meaning(init, server::space_of(m.team), m.instance);
        if lease_at(init, server::space_of(m.team), m.instance) is Some {
            let i = lease_at(init, server::space_of(m.team), m.instance)->0;
            assert(!is_for(
                rows[i],
                server::space_of(rows[rows.len() - 1].team),
                rows[rows.len() - 1].instance,
            ));
        }
        assert(rows[rows.len() - 1].last_heartbeat.orderly());
        assert(init.push(m) =~= rows);
    }
}

/// The last moment from which a sign of life is too old at the time `now`, not counting itself.
pub open spec fn cutoff(now: Timestamp) -> Timestamp {
    Timestamp { secs: (now.secs - LEASE_TTL_SECS) as i64, nanos: now.nanos }
}

/// A lease whose holder has been silent too long: the heartbeat is before the cutoff, as a time or,
/// where it is kept as a text, as a text, or it is more whole seconds ago than a lease lasts.
pub open spec fn stale(heartbeat: MarkModel, now: Timestamp) -> bool {
    ||| match heartbeat {
        MarkModel::At(t) => t.earlier(cutoff(now)),
        MarkModel::Text(s) => text::before(s, cutoff(now).text()),
    }
    ||| now.seconds_after(heartbeat.time(now)) > LEASE_TTL_SECS
}

/// Of a time, stale means: silent for more than the time to live, to the nanosecond.
pub proof fn stale_meaning(heartbeat: Timestamp, now: Timestamp)
    requires
        heartbeat.valid(),
        now.valid(),
    ensures
        stale(MarkModel::At(heartbeat), now) <==> now.total() - heartbeat.total() > LEASE_TTL_SECS
            * 1_000_000_000,
{
}

fn is_stale(heartbeat: &Mark, now: Timestamp) -> (r: bool)
    requires
        now.valid(),
        heartbeat@.orderly(),
    ensures
        r == stale(heartbeat@, now),
{
    let limit = now.minus_seconds(LEASE_TTL_SECS);
    let old = match heartbeat {
        Mark::At(t) => t.is_before(limit),
        Mark::Text(s) => text::less(s.as_str(), limit.to_rfc3339().as_str()),
    };
    old || now.seconds_since(heartbeat.shown(now)) > LEASE_TTL_SECS
}

/// A request that names a valid identity, a process and a host.
pub open spec fn proper(r: LeaseRequest) -> bool {
    &&& server::instance_name(r.instance_id@)
    &&& text::byte_len(r.host@) <= server::MAX_HOST_LEN
    &&& r.pid > 0
}

/// The lease that a request leads to.
pub open spec fn new_lease(team: Option<Seq<char>>, r: LeaseRequest, now: Timestamp) -> LeaseModel {
    LeaseModel {
        team,
        instance: r.instance_id@,
        pid: r.pid,
        host: r.host@,
        acquired_at: MarkModel::At(now),
        last_heartbeat: MarkModel::At(now),
    }
}

/// The answer to a request for a lease.
pub enum Acquired {
    /// The lease is the caller's.
    Held(LeaseState),
    /// Another process holds it.
    Taken(LeaseConflict),
}

/// The table of leases.
pub struct Leases {
    pub rows: Vec<LeaseRow>,
}

impl View for Leases {
    type V = Seq<LeaseModel>;

    open spec fn view(&self) -> Seq<LeaseModel> {
        lease_models(self.rows@)
    }
}

impl Leases {
    /// No identity has two leases, and every time that is kept as one is one of a clock.
    pub open spec fn wf(&self) -> bool {
        single(self@) && timed(self@)
    }

    /// A table without rows.
    pub fn new() -> (l: Leases)
        ensures
            l@ == Seq::<LeaseModel>::empty(),
            l.wf(),
    {
        let l = Leases { rows: Vec::new() };
        assert(l@ =~= Seq::<LeaseModel>::empty());
        l
    }

    /// The table that holds the orderly ones among the rows.
    pub fn from_rows(rows: Vec<LeaseRow>) -> (l: Leases)
        ensures
            l.wf(),
            l@ == orderly(lease_models(rows@)),
    {
        let ghost all = rows@;
        let ghost models = lease_models(all);
        let mut rest = rows;
        let mut l = Leases::new();
        let ghost mut n: int = 0;
        assert(all.skip(0) =~= all);
        assert(models.take(0) =~= Seq::<LeaseModel>::empty());
        while rest.len() > 0
            invariant
                0 <= n <= all.len(),
                rest@ == all.skip(n),
                models == lease_models(all),
                l.wf(),
                l@ == orderly(models.take(n)),
            decreases rest@.len(),
        {
            let row = rest.remove(0);
            let ghost old_l = l@;
            let ghost m = row@;
            proof {
                assert(row == all[n]);
                assert(all.skip(n).remove(0) =~= all.skip(n + 1));
                assert(models.take(n + 1).drop_last() =~= models.take(n));
                assert(models.take(n + 1).last() == m);
                n = n + 1;
                lease_at_meaning(old_l, server::space_of(m.team), m.instance);
            }
            if l.find(&row.team_id, row.instance_id.as_str()).is_none()
                && row.last_heartbeat.is_orderly() && row.acquired_at.is_orderly() {
                l.rows.push(row);
                assert(l@ =~= old_l.push(m));
            }
        }
        assert(models.take(n) =~= models);
        l
    }

    fn find(&self, team: &Option<String>, who: &str) -> (r: Option<usize>)
        ensures
            match r {
                Some(i) => i < self.rows@.len() && lease_at(
                    self@,
                    server::space_of(text::opt_text(*team)),
                    who@,
                ) == Some(i as int),
                None => lease_at(self@, server::space_of(text::opt_text(*team)), who@) is None,
            },
    {
        let ghost rows = self@;
        let ghost space = server::space_of(text::opt_text(*team));
        let mut i: usize = self.rows.len();
        assert(rows.take(i as int) =~= rows);
        while i > 0
            invariant
                i <= self.rows@.len(),
                rows == self@,
                space == server::space_of(text::opt_text(*team)),
                lease_at(rows, space, who@) == lease_at(rows.take(i as int), space, who@),
            decreases i,
        {
            assert(rows.take(i as int).drop_last() =~= rows.take(i - 1));
            assert(rows.take(i as int).last() == self.rows@[i - 1]@);
            if server::same_space(&self.rows[i - 1].team_id, team) && text::same(
                self.rows[i - 1].instance_id.as_str(),
                who,
            ) {
                return Some(i - 1);
            }
            i -= 1;
        }
        None
    }

    /// Acquires, extends or takes over the lease of an identity:
    /// - the process that holds it extends it;
    /// - a process that asks while another holds it and is alive is told who that is;
    /// - a lease whose holder has gone silent changes hands;
    /// - a lease that nobody holds is granted.
    pub fn acquire_lease(&mut self, team: &Option<String>, payload: &LeaseRequest, now: Timestamp) -> (r:
        Result<Acquired, Refusal>)
        requires
            old(self).wf(),
            now.valid(),
        ensures
            final(self).wf(),
            r is Err == !proper(*payload),
            r matches Err(e) ==> e == Refusal::BadRequest && final(self)@ == old(self)@,
            proper(*payload) ==> {
                let owner = text::opt_text(*team);
                let space = server::space_of(owner);
                let fresh = new_lease(owner, *payload, now);
                match lease_at(old(self)@, space, payload.instance_id@) {
                    Some(i) => {
                        let held = old(self)@[i];
                        if held.pid == payload.pid {
                            let kept = LeaseModel {
                                host: payload.host@,
                                last_heartbeat: MarkModel::At(now),
                                ..held
                            };
                            &&& final(self)@ == old(self)@.update(i, kept)
                            &&& r matches Ok(Acquired::Held(s)) && shows(s, kept, false, now)
                        } else if !stale(held.last_heartbeat, now) {
                            &&& final(self)@ == old(self)@
                            &&& r matches Ok(Acquired::Taken(c)) && names(c, held, now)
                        } else {
                            &&& final(self)@ == old(self)@.remove(i).push(fresh)
                            &&& r matches Ok(Acquired::Held(s)) && shows(s, fresh, true, now)
                        }
                    },
                    None => {
                        &&& final(self)@ == old(self)@.push(fresh)
                        &&& r matches Ok(Acquired::Held(s)) && shows(s, fresh, false, now)
                    },
                }
            },
    {
        if !server::is_instance_name(payload.instance_id.as_str()) || text::bytes_in(
            payload.host.as_str(),
        ) > server::MAX_HOST_LEN || payload.pid <= 0 {
            return Err(Refusal::BadRequest);
        }
        let ghost space = server::space_of(text::opt_text(*team));
        let ghost who = payload.instance_id@;
        let ghost before = self@;
        proof {
            lease_at_meaning(before, space, who);
        }
        let mut taken_over = false;
        if let Some(i) = self.find(team, payload.instance_id.as_str()) {
            assert(self.rows@[i as int]@ == before[i as int]);
            if self.rows[i].pid == payload.pid {
                let ghost was = self.rows@;
                self.rows[i].last_heartbeat = Mark::At(now);
                self.rows[i].host = payload.host.clone();
                let row = &self.rows[i];
                let s = LeaseState {
                    team_id: text::copy_opt(&row.team_id),
                    instance_id: row.instance_id.clone(),
                    pid: row.pid,
                    host: row.host.clone(),
                    acquired_at: row.acquired_at.shown(now),
                    last_heartbeat: row.last_heartbeat.shown(now),
                    taken_over: false,
                };
                proof {
                    let kept = LeaseModel {
                        host: payload.host@,
                        last_heartbeat: MarkModel::At(now),
                        ..before[i as int]
                    };
                    assert(self.rows@[i as int]@ =~= kept);
                    assert(self@ =~= before.update(i as int, kept));
                    update_keeps_order(before, i as int, kept);
                }
                return Ok(Acquired::Held(s));
            }
            assert(before[i as int].last_heartbeat.orderly());
            if !is_stale(&self.rows[i].last_heartbeat, now) {
                let row = &self.rows[i];
                let held = row.last_heartbeat.shown(now);
                return Ok(
                    Acquired::Taken(
                        LeaseConflict {
                            team_id: text::copy_opt(&row.team_id),
                            instance_id: payload.instance_id.clone(),
                            pid: row.pid,
                            host: row.host.clone(),
                            last_heartbeat: held,
                            seconds_since_heartbeat: now.seconds_since(held),
                        },
                    ),
                );
            }
            let _evicted = self.rows.remove(i);
            taken_over = true;
            assert(self@ =~= before.remove(i as int));
            proof {
                remove_keeps_order(before, i as int, space, who);
            }
        }
        let ghost mid = self@;
        self.rows.push(
            LeaseRow {
                team_id: text::copy_opt(team),
                instance_id: payload.instance_id.clone(),
                pid: payload.pid,
                host: payload.host.clone(),
                acquired_at: Mark::At(now),
                last_heartbeat: Mark::At(now),
            },
        );
        proof {
            let fresh = new_lease(text::opt_text(*team), *payload, now);
            assert(self.rows@.last()@ =~= fresh);
            assert(self@ =~= mid.push(fresh));
            assert(single(mid));
        }
        let s = LeaseState {
            team_id: text::copy_opt(team),
            instance_id: payload.instance_id.clone(),
            pid: payload.pid,
            host: payload.host.clone(),
            acquired_at: now,
            last_heartbeat: now,
            taken_over,
        };
        Ok(Acquired::Held(s))
    }

    /// Gives a lease back. Only the process that holds it can; for anybody else nothing happens,
    /// and the answer does not tell the difference.
    pub fn release_lease(&mut self, team: &Option<String>, who: &str, payload: &LeaseRequest) -> (r:
        Result<(), Refusal>)
        requires
            old(self).wf(),
        ensures
            final(self).wf(),
            r == (if server::instance_name(who@) && payload.instance_id@ == who@ {
                Ok::<(), Refusal>(())
            } else {
                Err(Refusal::BadRequest)
            }),
            r is Err ==> final(self)@ == old(self)@,
            r is Ok ==> {
                let space = server::space_of(text::opt_text(*team));
                match lease_at(old(self)@, space, who@) {
                    Some(i) => final(self)@ == (if old(self)@[i].pid == payload.pid {
                        old(self)@.remove(i)
                    } else {
                        old(self)@
                    }),
                    None => final(self)@ == old(self)@,
                }
            },
    {
        if !server::is_instance_name(who) || !text::same(payload.instance_id.as_str(), who) {
            return Err(Refusal::BadRequest);
        }
        let ghost space = server::space_of(text::opt_text(*team));
        let ghost before = self@;
        proof {
            lease_at_meaning(before, space, who@);
        }
        if let Some(i) = self.find(team, who) {
            assert(self.rows@[i as int]@ == before[i as int]);
            if self.rows[i].pid == payload.pid {
                let _released = self.rows.remove(i);
                assert(self@ =~= before.remove(i as int));
                proof {
                    remove_keeps_order(before, i as int, space, who@);
                }
            }
        }
        Ok(())
    }
}

proof fn update_keeps_order(rows: Seq<LeaseModel>, i: int, kept: LeaseModel)
    requires
        single(rows),
        timed(rows),
        0 <= i < rows.len(),
        kept.team == rows[i].team,
        kept.instance == rows[i].instance,
        kept.last_heartbeat.orderly(),
        kept.acquired_at == rows[i].acquired_at,
    ensures
        single(rows.update(i, kept)),
        timed(rows.update(i, kept)),
{
    let u = rows.update(i, kept);
    assert forall|a: int, b: int| 0 <= a < b < u.len() implies !is_for(
        #[trigger] u[a],
        server::space_of((#[trigger] u[b]).team),
        u[b].instance,
    ) by {
        assert(!is_for(rows[a], server::space_of(rows[b].team), rows[b].instance));
    }
    assert forall|a: int| 0 <= a < u.len() implies (#[trigger] u[a]).last_heartbeat.orderly()
        && u[a].acquired_at.orderly() by {
        assert(rows[a].last_heartbeat.orderly());
    }
}

proof fn remove_keeps_order(rows: Seq<LeaseModel>, i: int, space: Seq<char>, who: Seq<char>)
    requires
        single(rows),
        timed(rows),
        0 <= i < rows.len(),
        is_for(rows[i], space, who),
    ensures
        single(rows.remove(i)),
        timed(rows.remove(i)),
        forall|k: int|
            0 <= k < rows.remove(i).len() ==> !is_for(#[trigger] rows.remove(i)[k], space, who),
        lease_at(rows.remove(i), space, who) is None,
{
    let u = rows.remove(i);
    assert forall|a: int, b: int| 0 <= a < b < u.len() implies !is_for(
        #[trigger] u[a],
        server::space_of((#[trigger] u[b]).team),
        u[b].instance,
    ) by {
        let x = if a < i {
            a
        } else {
            a + 1
        };
        let y = if b < i {
            b
        } else {
            b + 1
        };
        assert(u[a] == rows[x] && u[b] == rows[y]);
        assert(!is_for(rows[x], server::space_of(rows[y].team), rows[y].instance));
    }
    assert forall|a: int| 0 <= a < u.len() implies (#[trigger] u[a]).last_heartbeat.orderly()
        && u[a].acquired_at.orderly() by {
        let x = if a < i {
            a
        } else {
            a + 1
        };
        assert(u[a] == rows[x]);
        assert(rows[x].last_heartbeat.orderly());
    }
    assert forall|k: int| 0 <= k < u.len() implies !is_for(#[trigger] u[k], space, who) by {
        if k < i {
            assert(u[k] == rows[k]);
            assert(!is_for(rows[k], server::space_of(rows[i].team), rows[i].instance));
        } else {
            assert(u[k] == rows[k + 1]);
            assert(!is_for(rows[i], server::space_of(rows[k + 1].team), rows[k + 1].instance));
        }
    }
    lease_at_meaning(u, space, who);
}

// ── Stored rows ─────────────────────────────────────────────────────────────
/// A row as it is stored: times are texts.
pub struct StoredLease {
    pub team_id: Option<String>,
    pub instance_id: String,
    pub pid: i64,
    pub host: String,
    pub acquired_at: String,
    pub last_heartbeat: String,
}

/// Reads a stored row.
pub fn lease_from_stored(s: &StoredLease) -> (r: LeaseRow)
    ensures
        r@ == (LeaseModel {
            team: text::opt_text(s.team_id),
            instance: s.instance_id@,
            pid: s.pid,
            host: s.host@,
            acquired_at: mark_of(s.acquired_at@),
            last_heartbeat: mark_of(s.last_heartbeat@),
        }),
{
    LeaseRow {
        team_id: text::copy_opt(&s.team_id),
        instance_id: s.instance_id.clone(),
        pid: s.pid,
        host: s.host.clone(),
        acquired_at: Mark::from_stored(s.acquired_at.as_str()),
        last_heartbeat: Mark::from_stored(s.last_heartbeat.as_str()),
    }
}

// ── Laws ────────────────────────────────────────────────────────────────────
/// What becomes of the lease of an identity in one namespace when something is done to that of
/// another: nothing.
pub proof fn leases_are_independent(
    rows: Seq<LeaseModel>,
    added: LeaseModel,
    space: Seq<char>,
    who: Seq<char>,
)
    requires
        !is_for(added, space, who),
    ensures
        lease_at(rows.push(added), space, who) == lease_at(rows, space, who),
{
    assert(rows.push(added).drop_last() =~= rows);
}

/// A lease that was just granted is found.
pub proof fn granted_leases_are_held(rows: Seq<LeaseModel>, added: LeaseModel)
    ensures
        lease_at(rows.push(added), server::space_of(added.team), added.instance) == Some(
            rows.len() as int,
        ),
{
}

/// A lease that was just granted or extended protects its holder for the whole time to live.
pub proof fn fresh_leases_protect(granted: Timestamp, now: Timestamp)
    requires
        granted.valid(),
        now.valid(),
        now.total() - granted.total() <= LEASE_TTL_SECS * 1_000_000_000,
    ensures
        !stale(MarkModel::At(granted), now),
{
    stale_meaning(granted, now);
}

/// A holder that has been silent for longer loses the lease to whoever asks.
pub proof fn silent_holders_lose(granted: Timestamp, now: Timestamp)
    requires
        granted.valid(),
        now.valid(),
        now.total() - granted.total() > LEASE_TTL_SECS * 1_000_000_000,
    ensures
        stale(MarkModel::At(granted), now),
{
    stale_meaning(granted, now);
}

/// A stored text comes back as it was, whatever it holds, and is orderly.
pub proof fn stored_marks_come_back(s: Seq<char>)
    ensures
        mark_of(s).stored() == s,
        mark_of(s).orderly(),
{
}

/// A heartbeat that cannot be read as a time protects its holder exactly as long as its text does
/// not sort before the cutoff.
pub proof fn unreadable_heartbeats_go_by_their_text(s: Seq<char>, now: Timestamp)
    requires
        clock::time_of(s) is None,
    ensures
        stale(mark_of(s), now) <==> text::before(s, cutoff(now).text()),
{
}

/// Giving a lease back twice is giving it back once: behind the first time there is none.
pub proof fn release_is_idempotent(rows: Seq<LeaseModel>, space: Seq<char>, who: Seq<char>)
    requires
        single(rows),
        timed(rows),
    ensures
        lease_at(rows, space, who) matches Some(i) ==> lease_at(rows.remove(i), space, who) is None,
{
    lease_at_meaning(rows, space, who);
    if lease_at(rows, space, who) is Some {
        remove_keeps_order(rows, lease_at(rows, space, who)->0, space, who);
    }
}

/// A request for a lease is proper exactly where it names an identity, a host of at most 256 bytes
/// and a process.
pub proof fn requests_are_exact(r: LeaseRequest)
    ensures
        proper(r) <==> 1 <= r.instance_id@.len() <= 64 && server::name_chars(r.instance_id@)
            && text::byte_len(r.host@) <= 256 && r.pid >= 1,
{
}

/// The lease of an identity is the one row of its namespace with its name.
pub proof fn leases_are_found(rows: Seq<LeaseModel>, space: Seq<char>, who: Seq<char>, i: int)
    requires
        single(rows),
        0 <= i < rows.len(),
    ensures
        lease_at(rows, space, who) == Some(i) <==> rows[i].instance == who && server::space_of(
            rows[i].team,
        ) == space,
{
    lease_at_meaning(rows, space, who);
    if let Some(k) = lease_at(rows, space, who) {
        if is_for(rows[i], space, who) && i != k {
            if i < k {
                assert(is_for(rows[i], server::space_of(rows[k].team), rows[k].instance));
            } else {
                assert(is_for(rows[k], server::space_of(rows[i].team), rows[i].instance));
            }
        }
    }
}

/// A lease lasts for thirty seconds after its last heartbeat.
pub proof fn leases_last_thirty_seconds(heartbeat: Timestamp, now: Timestamp)
    requires
        heartbeat.valid(),
        now.valid(),
    ensures
        stale(MarkModel::At(heartbeat), now) <==> now.total() > heartbeat.total()
            + 30 * 1_000_000_000,
{
    stale_meaning(heartbeat, now);
}

/// A new lease is that of the request, taken at the time of the request.
pub proof fn new_leases_are_exact(team: Option<Seq<char>>, r: LeaseRequest, now: Timestamp)
    ensures
        ({
            let l = new_lease(team, r, now);
            &&& l.team == team && l.instance == r.instance_id@ && l.pid == r.pid && l.host == r.host@
            &&& l.acquired_at == MarkModel::At(now) && l.last_heartbeat == MarkModel::At(now)
        }),
{
}

/// What is shown of a lease is all of it; of one that is in the way, whose it is and how long its
/// holder has been silent.
pub proof fn leases_are_shown_whole(
    s: LeaseState,
    c: LeaseConflict,
    m: LeaseModel,
    taken_over: bool,
    now: Timestamp,
)
    ensures
        shows(s, m, taken_over, now) ==> s.instance_id@ == m.instance && s.pid == m.pid && s.host@
            == m.host && s.taken_over == taken_over && text::opt_text(s.team_id) == m.team,
        shows(s, m, taken_over, now) && m.acquired_at is At && m.last_heartbeat is At
            ==> s.acquired_at == m.acquired_at->At_0 && s.last_heartbeat == m.last_heartbeat->At_0,
        names(c, m, now) ==> c.instance_id@ == m.instance && c.pid == m.pid && c.host@ == m.host
            && text::opt_text(c.team_id) == m.team,
        names(c, m, now) && m.last_heartbeat is At && now.valid() && m.last_heartbeat->At_0.valid()
            && m.last_heartbeat->At_0.total() <= now.total() ==> {
            let d = now.total() - m.last_heartbeat->At_0.total();
            &&& c.last_heartbeat == m.last_heartbeat->At_0
            &&& c.seconds_since_heartbeat * 1_000_000_000 <= d < (c.seconds_since_heartbeat + 1)
                * 1_000_000_000
        },
{
}

/// A stored time counts as it reads; one that cannot be read counts as now.
pub proof fn unreadable_times_are_now(s: Seq<char>, t: Timestamp, now: Timestamp)
    ensures
        MarkModel::At(t).time(now) == t,
        clock::time_of(s) == Some(t) ==> MarkModel::Text(s).time(now) == t,
        clock::time_of(s) is None ==> MarkModel::Text(s).time(now) == now,
{
}

/// Of rows for one identity the first that is in order is kept, and no identity with such a row is
/// lost.
pub proof fn nobody_loses_a_lease(rows: Seq<LeaseModel>, i: int)
    ensures
        forall|k: int|
            0 <= k < orderly(rows).len() ==> rows.contains(#[trigger] orderly(rows)[k]),
        0 <= i < rows.len() && rows[i].last_heartbeat.orderly() && rows[i].acquired_at.orderly()
            ==> lease_at(orderly(rows), server::space_of(rows[i].team), rows[i].instance) is Some,
    decreases rows.len(),
{
    if rows.len() > 0 {
        let init = rows.drop_last();
        let n = rows.len() - 1;
        let r = orderly(init);
        let all = orderly(rows);
        nobody_loses_a_lease(init, i);
        assert(rows[n] == rows.last());
        assert forall|k: int| 0 <= k < all.len() implies rows.contains(#[trigger] all[k]) by {
            if k < r.len() {
                assert(all[k] == r[k]);
                assert(init.contains(r[k]));
                let j = choose|j: int| 0 <= j < init.len() && init[j] == r[k];
                assert(rows[j] == all[k]);
            } else {
                assert(all[k] == rows[n]);
            }
        }
        if 0 <= i < n && rows[i].last_heartbeat.orderly() && rows[i].acquired_at.orderly() {
            assert(init[i] == rows[i]);
            let space = server::space_of(rows[i].team);
            let who = rows[i].instance;
            if all != r {
                assert(all.drop_last() =~= r);
            }
        }
    }
}

/// What is kept of stored rows is in order: one row for an identity, with times that can be shown.
pub proof fn kept_rows_are_in_order(rows: Seq<LeaseModel>)
    ensures
        single(orderly(rows)),
        timed(orderly(rows)),
    decreases rows.len(),
{
    if rows.len() > 0 {
        let r = orderly(rows.drop_last());
        let m = rows.last();
        let all = orderly(rows);
        kept_rows_are_in_order(rows.drop_last());
        lease_at_meaning(r, server::space_of(m.team), m.instance);
        assert forall|i: int, j: int| 0 <= i < j < all.len() implies !is_for(
            #[trigger] all[i],
            server::space_of((#[trigger] all[j]).team),
            all[j].instance,
        ) by {
            assert(all[i] == r[i]);
            if j < r.len() {
                assert(all[j] == r[j]);
            }
        }
        assert forall|i: int| 0 <= i < all.len() implies (
        #[trigger] all[i]).last_heartbeat.orderly() && all[i].acquired_at.orderly() by {
            if i < r.len() {
                assert(all[i] == r[i]);
            }
        }
    }
}

} // verus!
