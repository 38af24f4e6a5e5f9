//! What the workers' calls have used, summed up for each team and worker.
use crate::clock::Timestamp;
use crate::server;
use crate::server::Refusal;
use crate::sorting;
use crate::text;
use vstd::prelude::*;

verus! {

/// What one call used.
pub struct UsageReport {
    pub worker: String,
    pub duration_secs: u64,
    pub input_tokens: u64,
    pub cache_creation_tokens: u64,
    pub cache_read_tokens: u64,
    pub output_tokens: u64,
    pub tier: String,
    pub cli: Option<String>,
}

/// What a worker's calls used.
pub struct UsageRow {
    pub worker: String,
    pub input_tokens: u64,
    pub cache_creation_tokens: u64,
    pub cache_read_tokens: u64,
    pub output_tokens: u64,
    pub duration_secs: u64,
    pub calls: u64,
    pub light_calls: u64,
    pub full_calls: u64,
    pub cli: String,
    pub updated_at: Timestamp,
}

/// What the workers of a team used, and the sums.
pub struct UsageResponse {
    pub workers: Vec<UsageRow>,
    pub total_input_tokens: u64,
    pub total_cache_creation_tokens: u64,
    pub total_cache_read_tokens: u64,
    pub total_output_tokens: u64,
    pub total_duration_secs: u64,
    pub total_calls: u64,
    pub total_light_calls: u64,
    pub total_full_calls: u64,
}

/// A row of the table: the namespace and what one of its workers used.
pub struct UsageEntry {
    pub space: String,
    pub row: UsageRow,
}

/// Numbers that are counted.
pub struct Counts {
    pub input: nat,
    pub cache_creation: nat,
    pub cache_read: nat,
    pub output: nat,
    pub duration: nat,
    pub calls: nat,
    pub light: nat,
    pub full: nat,
}

impl Counts {
    /// Nothing.
    pub open spec fn zero() -> Counts {
        Counts {
            input: 0,
            cache_creation: 0,
            cache_read: 0,
            output: 0,
            duration: 0,
            calls: 0,
            light: 0,
            full: 0,
        }
    }

    /// The sums.
    pub open spec fn plus(self, o: Counts) -> Counts {
        Counts {
            input: self.input + o.input,
            cache_creation: self.cache_creation + o.cache_creation,
            cache_read: self.cache_read + o.cache_read,
            output: self.output + o.output,
            duration: self.duration + o.duration,
            calls: self.calls + o.calls,
            light: self.light + o.light,
            full: self.full + o.full,
        }
    }

    /// No number is above the bound.
    pub open spec fn within(self, bound: int) -> bool {
        &&& self.input <= bound
        &&& self.cache_creation <= bound
        &&& self.cache_read <= bound
        &&& self.output <= bound
        &&& self.duration <= bound
        &&& self.calls <= bound
        &&& self.light <= bound
        &&& self.full <= bound
    }

    /// All the tokens.
    pub open spec fn tokens(self) -> int {
        (self.input + self.cache_creation + self.cache_read + self.output) as int
    }
}

/// The model of a row.
#[verifier::ext_equal]
pub struct UsageModel {
    pub worker: Seq<char>,
    pub counts: Counts,
    pub cli: Seq<char>,
    pub updated_at: Timestamp,
}

/// The model of a row with its namespace.
#[verifier::ext_equal]
pub struct EntryModel {
    pub space: Seq<char>,
    pub row: UsageModel,
}

impl View for UsageRow {
    type V = UsageModel;

    open spec fn view(&self) -> UsageModel {
        UsageModel {
            worker: self.worker@,
            counts: Counts {
                input: self.input_tokens as nat,
                cache_creation: self.cache_creation_tokens as nat,
                cache_read: self.cache_read_tokens as nat,
                output: self.output_tokens as nat,
                duration: self.duration_secs as nat,
                calls: self.calls as nat,
                light: self.light_calls as nat,
                full: self.full_calls as nat,
            },
            cli: self.cli@,
            updated_at: self.updated_at,
        }
    }
}

impl View for UsageEntry {
    type V = EntryModel;

    open spec fn view(&self) -> EntryModel {
        EntryModel { space: self.space@, row: self.row@ }
    }
}

/// The models of the rows.
pub open spec fn usage_models(v: Seq<UsageRow>) -> Seq<UsageModel> {
    Seq::new(v.len(), |i: int| v[i]@)
}

/// The models of the rows with their namespaces.
pub open spec fn entry_models(v: Seq<UsageEntry>) -> Seq<EntryModel> {
    Seq::new(v.len(), |i: int| v[i]@)
}

/// The most that a stored number can be.
pub const MAX_COUNT: u64 = 9_223_372_036_854_775_807;

/// A report that the server accepts.
pub open spec fn acceptable(r: UsageReport) -> bool {
    server::instance_name(r.worker@) && (r.tier@ == "light"@ || r.tier@ == "full"@)
}

/// What a report adds.
pub open spec fn counted(r: UsageReport) -> Counts {
    Counts {
        input: r.input_tokens as nat,
        cache_creation: r.cache_creation_tokens as nat,
        cache_read: r.cache_read_tokens as nat,
        output: r.output_tokens as nat,
        duration: r.duration_secs as nat,
        calls: 1,
        light: if r.tier@ == "light"@ {
            1
        } else {
            0
        },
        full: if r.tier@ == "light"@ {
            0
        } else {
            1
        },
    }
}

/// The tool that a report names.
pub open spec fn tool(r: UsageReport) -> Seq<char> {
    match text::opt_text(r.cli) {
        Some(c) => c,
        None => Seq::empty(),
    }
}

/// The entry is that of a worker.
pub open spec fn is_of(e: EntryModel, space: Seq<char>, worker: Seq<char>) -> bool {
    e.space == space && e.row.worker == worker
}

/// The worker has an entry.
pub open spec fn is_known(rows: Seq<EntryModel>, space: Seq<char>, worker: Seq<char>) -> bool {
    exists|i: int| 0 <= i < rows.len() && is_of(#[trigger] rows[i], space, worker)
}

/// An entry with a report added.
pub open spec fn added(e: EntryModel, r: UsageReport, now: Timestamp) -> EntryModel {
    EntryModel {
        row: UsageModel {
            counts: e.row.counts.plus(counted(r)),
            cli: if tool(r).len() > 0 {
                tool(r)
            } else {
                e.row.cli
            },
            updated_at: now,
            ..e.row
        },
        ..e
    }
}

/// The table with a report added.
pub open spec fn reported(
    rows: Seq<EntryModel>,
    space: Seq<char>,
    r: UsageReport,
    now: Timestamp,
) -> Seq<
    EntryModel,
> {
    if is_known(rows, space, r.worker@) {
        Seq::new(
            rows.len(),
            |i: int|
                if is_of(rows[i], space, r.worker@) {
                    added(rows[i], r, now)
                } else {
                    rows[i]
                },
        )
    } else {
        rows.push(
            EntryModel {
                space,
                row: UsageModel {
                    worker: r.worker@,
                    counts: counted(r),
                    cli: tool(r),
                    updated_at: now,
                },
            },
        )
    }
}

/// Every number can be stored once the report has been added.
pub open spec fn fits(rows: Seq<EntryModel>, space: Seq<char>, r: UsageReport) -> bool {
    &&& counted(r).within(MAX_COUNT as int)
    &&& forall|i: int|
        0 <= i < rows.len() && is_of(#[trigger] rows[i], space, r.worker@)
            ==> rows[i].row.counts.plus(counted(r)).within(MAX_COUNT as int)
}

/// The rows of a namespace, in the order of the table.
pub open spec fn rows_of(rows: Seq<EntryModel>, space: Seq<char>) -> Seq<UsageModel>
    decreases rows.len(),
{
    if rows.len() == 0 {
        Seq::empty()
    } else if rows.last().space == space {
        rows_of(rows.drop_last(), space).push(rows.last().row)
    } else {
        rows_of(rows.drop_last(), space)
    }
}

/// The sums of a namespace.
pub open spec fn totals(rows: Seq<EntryModel>, space: Seq<char>) -> Counts
    decreases rows.len(),
{
    if rows.len() == 0 {
        Counts::zero()
    } else if rows.last().space == space {
        totals(rows.drop_last(), space).plus(rows.last().row.counts)
    } else {
        totals(rows.drop_last(), space)
    }
}

/// How many tokens each row counts.
pub open spec fn weights(v: Seq<UsageModel>) -> Seq<int> {
    Seq::new(v.len(), |i: int| v[i].counts.tokens())
}

/// The rows with those that used the most tokens first.
pub open spec fn heaviest_first(v: Seq<UsageModel>) -> Seq<UsageModel> {
    sorting::arranged(v, weights(v), true)
}

impl UsageResponse {
    /// The sums that the response shows.
    pub open spec fn shown(self) -> Counts {
        Counts {
            input: self.total_input_tokens as nat,
            cache_creation: self.total_cache_creation_tokens as nat,
            cache_read: self.total_cache_read_tokens as nat,
            output: self.total_output_tokens as nat,
            duration: self.total_duration_secs as nat,
            calls: self.total_calls as nat,
            light: self.total_light_calls as nat,
            full: self.total_full_calls as nat,
        }
    }
}

fn copy_row(u: &UsageRow) -> (r: UsageRow)
    ensures
        r@ == u@,
{
    UsageRow {
        worker: u.worker.clone(),
        input_tokens: u.input_tokens,
        cache_creation_tokens: u.cache_creation_tokens,
        cache_read_tokens: u.cache_read_tokens,
        output_tokens: u.output_tokens,
        duration_secs: u.duration_secs,
        calls: u.calls,
        light_calls: u.light_calls,
        full_calls: u.full_calls,
        cli: u.cli.clone(),
        updated_at: u.updated_at,
    }
}

fn has_space(space: &str, team: &Option<String>) -> (r: bool)
    ensures
        r == (space@ == server::space_of(text::opt_text(*team))),
{
    match team {
        Some(t) => text::same(space, t.as_str()),
        None => {
            assert(space@.len() == 0 ==> space@ =~= Seq::<char>::empty());
            space.is_empty()
        },
    }
}

fn small(a: u64, b: u64) -> (r: bool)
    ensures
        r == (a + b <= MAX_COUNT),
{
    a <= MAX_COUNT && b <= MAX_COUNT - a
}

/// The table of what was used.
pub struct Usage {
    pub rows: Vec<UsageEntry>,
}

impl View for Usage {
    type V = Seq<EntryModel>;

    open spec fn view(&self) -> Seq<EntryModel> {
        entry_models(self.rows@)
    }
}

impl Usage {
    /// A table without rows.
    pub fn new() -> (u: Usage)
        ensures
            u@ == Seq::<EntryModel>::empty(),
    {
        let u = Usage { rows: Vec::new() };
        assert(u@ =~= Seq::<EntryModel>::empty());
        u
    }

    /// Whether every number can be stored once the report has been added.
    pub fn has_room(&self, team: &Option<String>, r: &UsageReport) -> (ok: bool)
        ensures
            ok == fits(self@, server::space_of(text::opt_text(*team)), *r),
    {
        let ghost space = server::space_of(text::opt_text(*team));
        let ghost rows = self@;
        let light: u64 = if text::same(r.tier.as_str(), "light") {
            1
        } else {
            0
        };
        let full: u64 = 1 - light;
        if r.input_tokens > MAX_COUNT || r.cache_creation_tokens > MAX_COUNT || r.cache_read_tokens
            > MAX_COUNT || r.output_tokens > MAX_COUNT || r.duration_secs > MAX_COUNT {
            return false;
        }
        let mut i: usize = 0;
        while i < self.rows.len()
            invariant
                i <= self.rows@.len(),
                rows == self@,
                space == server::space_of(text::opt_text(*team)),
                light == counted(*r).light,
                full == counted(*r).full,
                counted(*r).within(MAX_COUNT as int),
                forall|k: int|
                    0 <= k < i && is_of(#[trigger] rows[k], space, r.worker@)
                        ==> rows[k].row.counts.plus(counted(*r)).within(MAX_COUNT as int),
            decreases self.rows@.len() - i,
        {
            let e = &self.rows[i];
            assert(rows[i as int] == e@);
            if has_space(e.space.as_str(), team) && text::same(
                e.row.worker.as_str(),
                r.worker.as_str(),
            ) {
                assert(is_of(rows[i as int], space, r.worker@));
                if !(small(e.row.input_tokens, r.input_tokens) && small(
                    e.row.cache_creation_tokens,
                    r.cache_creation_tokens,
                ) && small(e.row.cache_read_tokens, r.cache_read_tokens) && small(
                    e.row.output_tokens,
                    r.output_tokens,
                ) && small(e.row.duration_secs, r.duration_secs) && small(e.row.calls, 1) && small(
                    e.row.light_calls,
                    light,
                ) && small(e.row.full_calls, full)) {
                    return false;
                }
            }
            i += 1;
        }
        true
    }

    /// Adds what one call used.
    pub fn report_usage(&mut self, team: &Option<String>, payload: UsageReport, now: Timestamp) -> (r:
        Result<(), Refusal>)
        requires
            fits(old(self)@, server::space_of(text::opt_text(*team)), payload),
        ensures
            r == (if acceptable(payload) {
                Ok::<(), Refusal>(())
            } else {
                Err(Refusal::BadRequest)
            }),
            final(self)@ == (if r is Ok {
                reported(
                    old(self)@,
                    server::space_of(text::opt_text(*team)),
                    payload,
                    now,
                )
            } else {
                old(self)@
            }),
    {
        if !server::is_instance_name(payload.worker.as_str()) {
            return Err(Refusal::BadRequest);
        }
        let is_light = text::same(payload.tier.as_str(), "light");
        if !is_light && !text::same(payload.tier.as_str(), "full") {
            return Err(Refusal::BadRequest);
        }
        let light: u64 = if is_light {
            1
        } else {
            0
        };
        let full: u64 = 1 - light;
        let cli = match &payload.cli {
            Some(c) => c.clone(),
            None => String::new(),
        };
        let ghost before = self.rows@;
        let ghost rows = self@;
        let ghost space = server::space_of(text::opt_text(*team));
        let mut found = false;
        let mut i: usize = 0;
        while i < self.rows.len()
            invariant
                i <= self.rows@.len(),
                self.rows@.len() == before.len(),
                rows == entry_models(before),
                space == server::space_of(text::opt_text(*team)),
                light == counted(payload).light,
                full == counted(payload).full,
                cli@ == tool(payload),
                fits(rows, space, payload),
                found ==> is_known(rows, space, payload.worker@),
                !found ==> forall|k: int|
                    0 <= k < i ==> !is_of(#[trigger] rows[k], space, payload.worker@),
                forall|k: int|
                    0 <= k < i ==> (#[trigger] self.rows@[k])@ == (if is_of(
                        rows[k],
                        space,
                        payload.worker@,
                    ) {
                        added(rows[k], payload, now)
                    } else {
                        rows[k]
                    }),
                forall|k: int| i <= k < before.len() ==> #[trigger] self.rows@[k] == before[k],
            decreases self.rows@.len() - i,
        {
            assert(self.rows@[i as int] == before[i as int]);
            assert(rows[i as int] == before[i as int]@);
            if has_space(self.rows[i].space.as_str(), team) && text::same(
                self.rows[i].row.worker.as_str(),
                payload.worker.as_str(),
            ) {
                assert(is_of(rows[i as int], space, payload.worker@));
                assert(rows[i as int].row.counts.plus(counted(payload)).within(MAX_COUNT as int));
                found = true;
                let u = &self.rows[i].row;
                let sum = UsageRow {
                    worker: u.worker.clone(),
                    input_tokens: u.input_tokens + payload.input_tokens,
                    cache_creation_tokens: u.cache_creation_tokens + payload.cache_creation_tokens,
                    cache_read_tokens: u.cache_read_tokens + payload.cache_read_tokens,
                    output_tokens: u.output_tokens + payload.output_tokens,
                    duration_secs: u.duration_secs + payload.duration_secs,
                    calls: u.calls + 1,
                    light_calls: u.light_calls + light,
                    full_calls: u.full_calls + full,
                    cli: if cli.as_str().is_empty() {
                        u.cli.clone()
                    } else {
                        cli.clone()
                    },
                    updated_at: now,
                };
                self.rows[i].row = sum;
                assert(self.rows@[i as int]@ =~= added(rows[i as int], payload, now));
            }
            i += 1;
        }
        if !found {
            assert(!is_known(rows, space, payload.worker@));
            assert(self@ =~= rows);
            let key = match team {
                Some(t) => t.clone(),
                None => String::new(),
            };
            let e = UsageEntry {
                space: key,
                row: UsageRow {
                    worker: payload.worker.clone(),
                    input_tokens: payload.input_tokens,
                    cache_creation_tokens: payload.cache_creation_tokens,
                    cache_read_tokens: payload.cache_read_tokens,
                    output_tokens: payload.output_tokens,
                    duration_secs: payload.duration_secs,
                    calls: 1,
                    light_calls: light,
                    full_calls: full,
                    cli,
                    updated_at: now,
                },
            };
            let ghost m = e@;
            assert(m.space =~= space);
            self.rows.push(e);
            assert(self@ =~= rows.push(m));
        }
        assert(self@ =~= reported(rows, space, payload, now));
        Ok(())
    }

    /// Whether the sums of a namespace can be shown.
    pub fn can_total(&self, team: &Option<String>) -> (ok: bool)
        ensures
            ok == totals(self@, server::space_of(text::opt_text(*team))).within(u64::MAX as int),
    {
        let ghost rows = self@;
        let ghost space = server::space_of(text::opt_text(*team));
        let mut a: u128 = 0;
        let mut b: u128 = 0;
        let mut c: u128 = 0;
        let mut d: u128 = 0;
        let mut e: u128 = 0;
        let mut f: u128 = 0;
        let mut g: u128 = 0;
        let mut h: u128 = 0;
        let mut i: usize = 0;
        assert(rows.take(0) =~= Seq::<EntryModel>::empty());
        while i < self.rows.len()
            invariant
                i <= self.rows.len(),
                rows == self@,
                space == server::space_of(text::opt_text(*team)),
                totals(rows.take(i as int), space) == (Counts {
                    input: a as nat,
                    cache_creation: b as nat,
                    cache_read: c as nat,
                    output: d as nat,
                    duration: e as nat,
                    calls: f as nat,
                    light: g as nat,
                    full: h as nat,
                }),
                a <= i * 0xffff_ffff_ffff_ffff,
                b <= i * 0xffff_ffff_ffff_ffff,
                c <= i * 0xffff_ffff_ffff_ffff,
                d <= i * 0xffff_ffff_ffff_ffff,
                e <= i * 0xffff_ffff_ffff_ffff,
                f <= i * 0xffff_ffff_ffff_ffff,
                g <= i * 0xffff_ffff_ffff_ffff,
                h <= i * 0xffff_ffff_ffff_ffff,
            decreases self.rows@.len() - i,
        {
            assert(rows.take(i + 1).drop_last() =~= rows.take(i as int));
            assert(rows.take(i + 1).last() == self.rows@[i as int]@);
            let x = &self.rows[i];
            if has_space(x.space.as_str(), team) {
                a = a + x.row.input_tokens as u128;
                b = b + x.row.cache_creation_tokens as u128;
                c = c + x.row.cache_read_tokens as u128;
                d = d + x.row.output_tokens as u128;
                e = e + x.row.duration_secs as u128;
                f = f + x.row.calls as u128;
                g = g + x.row.light_calls as u128;
                h = h + x.row.full_calls as u128;
            }
            i += 1;
        }
        assert(rows.take(i as int) =~= rows);
        let most: u128 = 0xffff_ffff_ffff_ffff;
        a <= most && b <= most && c <= most && d <= most && e <= most && f <= most && g <= most && h
            <= most
    }

    /// What the workers of a namespace used, those that used the most tokens first, and the sums.
    pub fn get_usage(&self, team: &Option<String>) -> (r: UsageResponse)
        requires
            totals(self@, server::space_of(text::opt_text(*team))).within(u64::MAX as int),
        ensures
            usage_models(r.workers@) == heaviest_first(
                rows_of(self@, server::space_of(text::opt_text(*team))),
            ),
            r.shown() == totals(self@, server::space_of(text::opt_text(*team))),
    {
        let ghost rows = self@;
        let ghost space = server::space_of(text::opt_text(*team));
        let mut r = UsageResponse {
            workers: Vec::new(),
            total_input_tokens: 0,
            total_cache_creation_tokens: 0,
            total_cache_read_tokens: 0,
            total_output_tokens: 0,
            total_duration_secs: 0,
            total_calls: 0,
            total_light_calls: 0,
            total_full_calls: 0,
        };
        let mut found: Vec<UsageRow> = Vec::new();
        let mut keys: Vec<i128> = Vec::new();
        let mut i: usize = 0;
        assert(rows.take(0) =~= Seq::<EntryModel>::empty());
        assert(usage_models(found@) =~= rows_of(rows.take(0), space));
        while i < self.rows.len()
            invariant
                i <= self.rows@.len(),
                rows == self@,
                space == server::space_of(text::opt_text(*team)),
                totals(rows, space).within(u64::MAX as int),
                r.shown() == totals(rows.take(i as int), space),
                r.workers@.len() == 0,
                usage_models(found@) == rows_of(rows.take(i as int), space),
                keys@.len() == found@.len(),
                forall|k: int|
                    0 <= k < keys@.len() ==> #[trigger] keys@[k] == found@[k]@.counts.tokens(),
            decreases self.rows@.len() - i,
        {
            assert(rows.take(i + 1).drop_last() =~= rows.take(i as int));
            assert(rows.take(i + 1).last() == self.rows@[i as int]@);
            proof {
                totals_grow(rows, space, i + 1);
            }
            let x = &self.rows[i];
            if has_space(x.space.as_str(), team) {
                let u = &x.row;
                r.total_input_tokens = r.total_input_tokens + u.input_tokens;
                r.total_cache_creation_tokens =
                r.total_cache_creation_tokens + u.cache_creation_tokens;
                r.total_cache_read_tokens = r.total_cache_read_tokens + u.cache_read_tokens;
                r.total_output_tokens = r.total_output_tokens + u.output_tokens;
                r.total_duration_secs = r.total_duration_secs + u.duration_secs;
                r.total_calls = r.total_calls + u.calls;
                r.total_light_calls = r.total_light_calls + u.light_calls;
                r.total_full_calls = r.total_full_calls + u.full_calls;
                keys.push(
                    u.input_tokens as i128 + u.cache_creation_tokens as i128
                        + u.cache_read_tokens as i128 + u.output_tokens as i128,
                );
                let ghost before = found@;
                found.push(copy_row(u));
                assert(usage_models(found@) =~= usage_models(before).push(u@));
            }
            i += 1;
        }
        assert(rows.take(i as int) =~= rows);
        let ghost ms = usage_models(found@);
        assert(sorting::key_model(keys@) =~= weights(ms));
        let order = sorting::order_by(&keys, true);
        let ghost o = sorting::ordering(weights(ms), ms.len(), true);
        let mut j: usize = 0;
        let mut workers: Vec<UsageRow> = Vec::new();
        while j < order.len()
            invariant
                j <= order@.len(),
                ms == usage_models(found@),
                o == sorting::index_model(order@),
                forall|k: int| 0 <= k < order@.len() ==> #[trigger] order@[k] < found@.len(),
                workers@.len() == j,
                forall|k: int| 0 <= k < j ==> (#[trigger] workers@[k])@ == ms[o[k]],
            decreases order@.len() - j,
        {
            assert(o[j as int] == order@[j as int]);
            workers.push(copy_row(&found[order[j]]));
            j += 1;
        }
        assert(usage_models(workers@) =~= heaviest_first(ms));
        r.workers = workers;
        r
    }
}

proof fn totals_grow(rows: Seq<EntryModel>, space: Seq<char>, n: int)
    requires
        0 <= n <= rows.len(),
    ensures
        totals(rows, space).within(u64::MAX as int) ==> totals(rows.take(n), space).within(
            u64::MAX as int,
        ),
    decreases rows.len() - n,
{
    if n < rows.len() {
        totals_grow(rows, space, n + 1);
        assert(rows.take(n + 1).drop_last() =~= rows.take(n));
    } else {
        assert(rows.take(n) =~= rows);
    }
}

// ── Laws ────────────────────────────────────────────────────────────────────
/// No worker has two entries.
pub open spec fn one_entry_each(rows: Seq<EntryModel>) -> bool {
    forall|i: int, j: int|
        0 <= i < j < rows.len() ==> !is_of(
            #[trigger] rows[i],
            (#[trigger] rows[j]).space,
            rows[j].row.worker,
        )
}

/// Every call of every entry was either a light or a full one.
pub open spec fn calls_add_up(rows: Seq<EntryModel>) -> bool {
    forall|i: int|
        0 <= i < rows.len() ==> (#[trigger] rows[i]).row.counts.calls == rows[i].row.counts.light
            + rows[i].row.counts.full
}

/// A report never gives a worker a second entry.
pub proof fn entries_stay_single(
    rows: Seq<EntryModel>,
    space: Seq<char>,
    r: UsageReport,
    now: Timestamp,
)
    requires
        one_entry_each(rows),
    ensures
        one_entry_each(reported(rows, space, r, now)),
{
    let s = reported(rows, space, r, now);
    assert forall|i: int, j: int| 0 <= i < j < s.len() implies !is_of(
        #[trigger] s[i],
        (#[trigger] s[j]).space,
        s[j].row.worker,
    ) by {
        if j < rows.len() {
            assert(!is_of(rows[i], rows[j].space, rows[j].row.worker));
        } else {
            assert(!is_of(rows[i], space, r.worker@));
        }
    }
}

/// In every entry the light and the full calls keep adding up to all calls.
pub proof fn calls_keep_adding_up(
    rows: Seq<EntryModel>,
    space: Seq<char>,
    r: UsageReport,
    now: Timestamp,
)
    requires
        calls_add_up(rows),
    ensures
        calls_add_up(reported(rows, space, r, now)),
{
    let s = reported(rows, space, r, now);
    assert forall|i: int| 0 <= i < s.len() implies (#[trigger] s[i]).row.counts.calls
        == s[i].row.counts.light + s[i].row.counts.full by {
        if i < rows.len() {
            assert(rows[i].row.counts.calls == rows[i].row.counts.light
                + rows[i].row.counts.full);
        }
    }
}

/// A report adds to the sums of its own namespace exactly what it counts, and nothing to any
/// other namespace, whose rows stay as they are.
pub proof fn reports_are_summed_and_isolated(
    rows: Seq<EntryModel>,
    space: Seq<char>,
    r: UsageReport,
    now: Timestamp,
    other: Seq<char>,
)
    requires
        one_entry_each(rows),
        other != space,
    ensures
        totals(reported(rows, space, r, now), space) == totals(rows, space).plus(counted(r)),
        totals(reported(rows, space, r, now), other) == totals(rows, other),
        rows_of(reported(rows, space, r, now), other) == rows_of(rows, other),
    decreases rows.len(),
{
    let s = reported(rows, space, r, now);
    if !is_known(rows, space, r.worker@) {
        assert(s.drop_last() =~= rows);
    } else if rows.len() > 0 {
        let init = rows.drop_last();
        let x = rows.last();
        let t = Seq::new(
            init.len(),
            |i: int|
                if is_of(init[i], space, r.worker@) {
                    added(init[i], r, now)
                } else {
                    init[i]
                },
        );
        assert(s.drop_last() =~= t);
        assert forall|i: int, j: int| 0 <= i < j < init.len() implies !is_of(
            #[trigger] init[i],
            (#[trigger] init[j]).space,
            init[j].row.worker,
        ) by {
            assert(!is_of(rows[i], rows[j].space, rows[j].row.worker));
        }
        if is_of(x, space, r.worker@) {
            assert forall|i: int| 0 <= i < init.len() implies !is_of(
                #[trigger] init[i],
                space,
                r.worker@,
            ) by {
                assert(!is_of(rows[i], rows[rows.len() - 1].space, rows[rows.len() - 1].row.worker));
            }
            assert(t =~= init);
            assert(s.last() == added(x, r, now));
        } else {
            let k = choose|k: int|
                0 <= k < rows.len() && is_of(#[trigger] rows[k], space, r.worker@);
            assert(init[k] == rows[k]);
            assert(is_known(init, space, r.worker@));
            reports_are_summed_and_isolated(init, space, r, now, other);
            assert(reported(init, space, r, now) =~= t);
            assert(s.last() == x);
        }
    }
}

/// The rows of a namespace are exactly its own, in order.
pub proof fn each_entry_is_shown_alone(
    a: Seq<EntryModel>,
    b: Seq<EntryModel>,
    x: EntryModel,
    space: Seq<char>,
)
    ensures
        rows_of(a + b, space) == rows_of(a, space) + rows_of(b, space),
        rows_of(seq![x], space) == (if x.space == space {
            seq![x.row]
        } else {
            Seq::empty()
        }),
    decreases b.len(),
{
    let one = seq![x];
    assert(one.drop_last() =~= Seq::<EntryModel>::empty());
    assert(rows_of(one.drop_last(), space).len() == 0);
    assert(rows_of(one, space) =~= (if x.space == space {
            seq![x.row]
        } else {
            Seq::empty()
        }));
    if b.len() == 0 {
        assert(a + b =~= a);
        assert(rows_of(a, space) + rows_of(b, space) =~= rows_of(a, space));
    } else {
        each_entry_is_shown_alone(a, b.drop_last(), x, space);
        assert((a + b).drop_last() =~= a + b.drop_last());
        assert((a + b).last() == b.last());
        assert(rows_of(a + b, space) =~= rows_of(a, space) + rows_of(b, space));
    }
}

/// Counts are added one by one.
pub proof fn counts_are_added(a: Counts, b: Counts)
    ensures
        a.plus(b).input == a.input + b.input,
        a.plus(b).cache_creation == a.cache_creation + b.cache_creation,
        a.plus(b).cache_read == a.cache_read + b.cache_read,
        a.plus(b).output == a.output + b.output,
        a.plus(b).duration == a.duration + b.duration,
        a.plus(b).calls == a.calls + b.calls,
        a.plus(b).light == a.light + b.light,
        a.plus(b).full == a.full + b.full,
        a.tokens() == a.input + a.cache_creation + a.cache_read + a.output,
{
}

/// The totals of a namespace are the sums over its own entries.
pub proof fn totals_are_sums(
    a: Seq<EntryModel>,
    b: Seq<EntryModel>,
    x: EntryModel,
    space: Seq<char>,
)
    ensures
        totals(a + b, space) == totals(a, space).plus(totals(b, space)),
        x.space == space ==> totals(seq![x], space) == x.row.counts,
        x.space != space ==> totals(seq![x], space).plus(totals(a, space)) == totals(a, space),
    decreases b.len(),
{
    let one = seq![x];
    assert(one.drop_last() =~= Seq::<EntryModel>::empty());
    assert(totals(one.drop_last(), space) == Counts::zero());
    if b.len() == 0 {
        assert(a + b =~= a);
    } else {
        totals_are_sums(a, b.drop_last(), x, space);
        assert((a + b).drop_last() =~= a + b.drop_last());
        assert((a + b).last() == b.last());
    }
}

/// A report counts as one call with the tokens and seconds it says, of the tier it says.
pub proof fn reports_count_as_they_say(r: UsageReport)
    ensures
        counted(r).calls == 1,
        counted(r).input == r.input_tokens,
        counted(r).cache_creation == r.cache_creation_tokens,
        counted(r).cache_read == r.cache_read_tokens,
        counted(r).output == r.output_tokens,
        counted(r).duration == r.duration_secs,
        counted(r).light + counted(r).full == 1,
        counted(r).light == 1 <==> r.tier@ == "light"@,
        acceptable(r) <==> 1 <= r.worker@.len() <= 64 && server::name_chars(r.worker@) && (r.tier@
            == "light"@ || r.tier@ == "full"@),
{
}

/// A report is added to the entry of its worker in its namespace, or begins one behind the others;
/// the tool is kept where the report names none. No other entry changes.
pub proof fn reports_are_exact(
    rows: Seq<EntryModel>,
    space: Seq<char>,
    r: UsageReport,
    now: Timestamp,
    i: int,
)
    requires
        0 <= i < rows.len(),
    ensures
        ({
            let s = reported(rows, space, r, now);
            let mine = |e: EntryModel| e.space == space && e.row.worker == r.worker@;
            &&& mine(rows[i]) ==> {
                &&& s.len() == rows.len()
                &&& s[i].space == space && s[i].row.worker == r.worker@
                &&& s[i].row.updated_at == now
                &&& s[i].row.counts == rows[i].row.counts.plus(counted(r))
                &&& s[i].row.cli == (if r.cli is Some && r.cli->0@.len() > 0 {
                    r.cli->0@
                } else {
                    rows[i].row.cli
                })
            }
            &&& !mine(rows[i]) ==> s[i] == rows[i]
            &&& (forall|k: int| 0 <= k < rows.len() ==> !mine(#[trigger] rows[k])) ==> {
                &&& s.len() == rows.len() + 1
                &&& s.last().space == space && s.last().row.worker == r.worker@
                &&& s.last().row.counts == counted(r) && s.last().row.updated_at == now
            }
        }),
{
    if is_of(rows[i], space, r.worker@) {
        assert(is_known(rows, space, r.worker@));
    }
}

/// Those who used most tokens come first, and nobody is left out.
pub proof fn heavy_users_come_first(v: Seq<UsageModel>, i: int, j: int, x: UsageModel)
    ensures
        heaviest_first(v).len() == v.len(),
        heaviest_first(v).contains(x) <==> v.contains(x),
        0 <= i < j < v.len() ==> {
            let a = heaviest_first(v)[i].counts;
            let b = heaviest_first(v)[j].counts;
            a.input + a.cache_creation + a.cache_read + a.output >= b.input + b.cache_creation
                + b.cache_read + b.output
        },
{
    sorting::arranged_keeps(v, weights(v), true, x);
    if 0 <= i < j < v.len() {
        sorting::arranged_is_sorted(v, weights(v), true, i, j);
    }
}

/// A report fits where no count of its own, nor the sum with that of its worker, leaves a signed
/// word.
pub proof fn reports_fit_within_a_word(
    rows: Seq<EntryModel>,
    space: Seq<char>,
    r: UsageReport,
    i: int,
)
    requires
        fits(rows, space, r),
    ensures
        r.input_tokens <= 0x7fff_ffff_ffff_ffff,
        r.output_tokens <= 0x7fff_ffff_ffff_ffff,
        0 <= i < rows.len() && rows[i].space == space && rows[i].row.worker == r.worker@ ==> {
            let c = rows[i].row.counts;
            &&& c.input + r.input_tokens <= 0x7fff_ffff_ffff_ffff
            &&& c.cache_creation + r.cache_creation_tokens <= 0x7fff_ffff_ffff_ffff
            &&& c.cache_read + r.cache_read_tokens <= 0x7fff_ffff_ffff_ffff
            &&& c.output + r.output_tokens <= 0x7fff_ffff_ffff_ffff
            &&& c.duration + r.duration_secs <= 0x7fff_ffff_ffff_ffff
            &&& c.calls < 0x7fff_ffff_ffff_ffff
        },
{
    if 0 <= i < rows.len() && rows[i].space == space && rows[i].row.worker == r.worker@ {
        assert(is_of(rows[i], space, r.worker@));
    }
}

} // verus!
