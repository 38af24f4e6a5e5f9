//! What the command line shows of who somebody is and of what was used.
use crate::server::usage::{UsageResponse, UsageRow};
use crate::team::TeamManagedMarker;
use crate::text;
use vstd::prelude::*;

verus! {

// ── Who somebody is ─────────────────────────────────────────────────────────
/// How the server took the token.
pub enum Auth {
    /// There was none to try.
    Skipped,
    /// Whether the roster and the teams were shown, and what came instead of the roster.
    Tried { roster: bool, admin: bool, hint: String },
}

/// Who somebody is.
pub struct Whoami {
    pub server: String,
    pub instance: Option<String>,
    pub marker: Option<TeamManagedMarker>,
    pub admin_token: Option<String>,
    pub token: Option<String>,
    pub auth: Auth,
    pub codebase: Option<String>,
    pub local_config: Option<String>,
    pub global_config: Option<String>,
}

/// The beginning of a token.
pub open spec fn fingerprint(t: Seq<char>) -> Seq<char> {
    if t.len() <= 8 {
        t
    } else {
        t.take(8)
    }
}

/// What kind of token it is, by its prefix.
pub open spec fn token_kind(t: Seq<char>) -> Seq<char> {
    if text::after_prefix(t, "tm_"@) is Some {
        "team token"@
    } else if text::after_prefix(t, "adm_"@) is Some {
        "admin token"@
    } else {
        "token (unknown kind \u{2014} pre-prefix)"@
    }
}

/// What is shown of the team.
pub open spec fn team_part(marker: Option<TeamManagedMarker>) -> Seq<char> {
    match marker {
        Some(m) => "\n  team:       "@ + m.team@ + "\n  team.yml:   "@ + m.source@,
        None => "\n  team:       <legacy> (no .collab/team-managed marker in this repo)"@,
    }
}

/// What is shown of the token.
pub open spec fn token_part(admin: Option<Seq<char>>, token: Option<Seq<char>>) -> Seq<char> {
    match admin {
        Some(t) => "\n  token:      "@ + fingerprint(t)
            + "\u{2026} (COLLAB_ADMIN_TOKEN \u{2014} admin secret)"@,
        None => match token {
            Some(t) => "\n  token:      "@ + fingerprint(t) + "\u{2026} ("@ + token_kind(t) + ") "@,
            None => "\n  token:      <unset>"@,
        },
    }
}

/// What is shown of how the server took the token.
pub open spec fn auth_part(a: Auth) -> Seq<char> {
    match a {
        Auth::Skipped => "\n  auth:       <skipped \u{2014} no token set>"@,
        Auth::Tried { roster, admin, hint } => if roster && admin {
            "\n  auth:       OK (admin \u{2014} can create/rotate teams)"@
        } else if roster {
            "\n  auth:       OK (team member \u{2014} cannot admin)"@
        } else {
            "\n  auth:       FAILED ("@ + hint@ + ")"@
        },
    }
}

/// A line where there is something to say.
pub open spec fn line_of(label: Seq<char>, value: Option<Seq<char>>) -> Seq<char> {
    match value {
        Some(v) => label + v,
        None => Seq::empty(),
    }
}

/// What is shown of who somebody is.
pub open spec fn whoami_text(w: Whoami) -> Seq<char> {
    "collab whoami\n  server:     "@ + w.server@ + "\n  instance:   "@ + (match text::opt_text(
        w.instance,
    ) {
        Some(i) => i,
        None => "<unset>"@,
    }) + team_part(w.marker) + token_part(text::opt_text(w.admin_token), text::opt_text(w.token))
        + auth_part(w.auth) + line_of("\n  codebase:   "@, text::opt_text(w.codebase)) + line_of(
        "\n  local cfg:  "@,
        text::opt_text(w.local_config),
    ) + line_of("\n  global cfg: "@, text::opt_text(w.global_config))
}

fn team_text(marker: &Option<TeamManagedMarker>) -> (r: String)
    ensures
        r@ == team_part(*marker),
{
    match marker {
        Some(m) => {
            let mut r = text::glue3("\n  team:       ", m.team.as_str(), "\n  team.yml:   ");
            r.append(m.source.as_str());
            r
        },
        None =>
            "\n  team:       <legacy> (no .collab/team-managed marker in this repo)".to_owned(),
    }
}

fn token_text(admin: &Option<String>, token: &Option<String>) -> (r: String)
    ensures
        r@ == token_part(text::opt_text(*admin), text::opt_text(*token)),
{
    if let Some(t) = admin {
        return text::glue3(
            "\n  token:      ",
            text::clip_chars(t.as_str(), 8).as_str(),
            "\u{2026} (COLLAB_ADMIN_TOKEN \u{2014} admin secret)",
        );
    }
    match token {
        Some(t) => {
            let mut r = text::glue3(
                "\n  token:      ",
                text::clip_chars(t.as_str(), 8).as_str(),
                "\u{2026} (",
            );
            if text::strip_prefix(t.as_str(), "tm_").is_some() {
                r.append("team token");
            } else if text::strip_prefix(t.as_str(), "adm_").is_some() {
                r.append("admin token");
            } else {
                r.append("token (unknown kind \u{2014} pre-prefix)");
            }
            r.append(") ");
            r
        },
        None => "\n  token:      <unset>".to_owned(),
    }
}

fn auth_text(a: &Auth) -> (r: String)
    ensures
        r@ == auth_part(*a),
{
    match a {
        Auth::Skipped => "\n  auth:       <skipped \u{2014} no token set>".to_owned(),
        Auth::Tried { roster, admin, hint } => if *roster && *admin {
            "\n  auth:       OK (admin \u{2014} can create/rotate teams)".to_owned()
        } else if *roster {
            "\n  auth:       OK (team member \u{2014} cannot admin)".to_owned()
        } else {
            text::glue3("\n  auth:       FAILED (", hint.as_str(), ")")
        },
    }
}

fn add_line(r: &mut String, label: &str, value: &Option<String>)
    ensures
        final(r)@ == old(r)@ + line_of(label@, text::opt_text(*value)),
{
    let ghost before = r@;
    match value {
        Some(v) => {
            r.append(text::glue(label, v.as_str()).as_str());
        },
        None => {
            assert(before + Seq::<char>::empty() =~= before);
        },
    }
}

/// What is shown of who somebody is. Of a token only the beginning is.
pub fn whoami(w: &Whoami) -> (r: String)
    ensures
        r@ == whoami_text(*w),
{
    let mut r = text::glue3("collab whoami\n  server:     ", w.server.as_str(), "\n  instance:   ");
    match &w.instance {
        Some(i) => {
            r.append(i.as_str());
        },
        None => {
            r.append("<unset>");
        },
    }
    r.append(team_text(&w.marker).as_str());
    r.append(token_text(&w.admin_token, &w.token).as_str());
    r.append(auth_text(&w.auth).as_str());
    add_line(&mut r, "\n  codebase:   ", &w.codebase);
    add_line(&mut r, "\n  local cfg:  ", &w.local_config);
    add_line(&mut r, "\n  global cfg: ", &w.global_config);
    r
}

/// What somebody is told whose worker runs already, given who holds its place.
pub fn already_running(instance: &str, pid: i64, host: &str, seconds: i64) -> (r: String)
    ensures
        r@ == "Another worker for @"@ + instance@ + " is already running (pid="@
            + text::signed_decimal(pid as int) + " host="@ + host@ + ", heartbeat "@
            + text::signed_decimal(seconds as int)
            + "s ago). Stop it first, or use a different --instance name."@,
{
    let mut r = text::glue3("Another worker for @", instance, " is already running (pid=");
    r.append(text::signed(pid).as_str());
    r.append(" host=");
    r.append(host);
    r.append(", heartbeat ");
    r.append(text::signed(seconds).as_str());
    r.append("s ago). Stop it first, or use a different --instance name.");
    r
}

// ── What was used ───────────────────────────────────────────────────────────
/// A number below a hundred with two digits.
pub open spec fn two_digits(n: nat) -> Seq<char> {
    if n < 10 {
        "0"@ + text::decimal(n)
    } else {
        text::decimal(n)
    }
}

/// A number of seconds as hours, minutes and seconds; without hours where there are none.
pub open spec fn duration(secs: nat) -> Seq<char> {
    let h = secs / 3600;
    let m = (secs % 3600) / 60;
    let s = secs % 60;
    if h > 0 {
        text::padded_start(text::decimal(h), 2) + ":"@ + two_digits(m) + ":"@ + two_digits(s)
    } else {
        "   "@ + two_digits(m) + ":"@ + two_digits(s)
    }
}

fn two(n: u64) -> (r: String)
    ensures
        r@ == two_digits(n as nat),
{
    if n < 10 {
        text::glue("0", text::number(n).as_str())
    } else {
        text::number(n)
    }
}

/// A number of seconds as hours, minutes and seconds.
pub fn fmt_time(secs: u64) -> (r: String)
    ensures
        r@ == duration(secs as nat),
{
    let h: u64 = secs / 3600;
    let m: u64 = (secs % 3600) / 60;
    let s: u64 = secs % 60;
    let mut r = if h > 0 {
        text::glue(text::pad_start(text::number(h).as_str(), 2).as_str(), ":")
    } else {
        "   ".to_owned()
    };
    r.append(two(m).as_str());
    r.append(":");
    r.append(two(s).as_str());
    r
}

/// A row of the table.
pub open spec fn usage_row(
    name: Seq<char>,
    input: nat,
    output: nat,
    calls: nat,
    secs: nat,
    cli: Seq<char>,
    full: nat,
    light: nat,
    tasks: Seq<char>,
    cost: Seq<char>,
) -> Seq<char> {
    "\n"@ + text::padded_end(name, 20) + " "@ + text::padded_start(text::decimal(input / 1000), 7)
        + "K "@ + text::padded_start(text::decimal(output / 1000), 7) + "K "@ + text::padded_start(
        text::decimal(calls),
        6,
    ) + " "@ + text::padded_start(duration(secs), 8) + "  "@ + text::padded_end(cli, 10) + " "@
        + text::padded_end(text::decimal(full) + "F/"@ + text::decimal(light) + "L"@, 10) + " "@
        + text::padded_end(tasks, 6) + cost
}

fn row_text(
    name: &str,
    input: u64,
    output: u64,
    calls: u64,
    secs: u64,
    cli: &str,
    full: u64,
    light: u64,
    tasks: &str,
    cost: &str,
) -> (r: String)
    ensures
        r@ == usage_row(
            name@,
            input as nat,
            output as nat,
            calls as nat,
            secs as nat,
            cli@,
            full as nat,
            light as nat,
            tasks@,
            cost@,
        ),
{
    let mut r = text::glue3("\n", text::pad_end(name, 20).as_str(), " ");
    r.append(text::pad_start(text::number(input / 1000).as_str(), 7).as_str());
    r.append("K ");
    r.append(text::pad_start(text::number(output / 1000).as_str(), 7).as_str());
    r.append("K ");
    r.append(text::pad_start(text::number(calls).as_str(), 6).as_str());
    r.append(" ");
    r.append(text::pad_start(fmt_time(secs).as_str(), 8).as_str());
    r.append("  ");
    r.append(text::pad_end(cli, 10).as_str());
    r.append(" ");
    let mut tiers = text::glue3(
        text::number(full).as_str(),
        "F/",
        text::number(light).as_str(),
    );
    tiers.append("L");
    r.append(text::pad_end(tiers.as_str(), 10).as_str());
    r.append(" ");
    r.append(text::pad_end(tasks, 6).as_str());
    r.append(cost);
    r
}

/// How the open tasks of a worker are shown, where their number is known.
pub open spec fn tasks_shown(n: Option<u32>) -> Seq<char> {
    match n {
        Some(k) => if k == 0 {
            "\u{2014}"@
        } else {
            text::decimal(k as nat)
        },
        None => "?"@,
    }
}

/// All the open tasks.
pub open spec fn all_tasks(v: Seq<Option<u32>>) -> nat
    decreases v.len(),
{
    if v.len() == 0 {
        0
    } else {
        all_tasks(v.drop_last()) + match v.last() {
            Some(k) => k as nat,
            None => 0,
        }
    }
}

/// What is shown of the costs, where any are known: one for each row, and the sum.
pub struct Costs {
    pub rows: Vec<String>,
    pub total: String,
}

/// The cost of a row.
pub open spec fn cost_at(c: Option<Costs>, i: int) -> Seq<char> {
    match c {
        Some(x) => if i < x.rows@.len() {
            x.rows@[i]@
        } else {
            Seq::empty()
        },
        None => Seq::empty(),
    }
}

/// The tasks of a row.
pub open spec fn tasks_at(v: Seq<Option<u32>>, i: int) -> Option<u32> {
    if i < v.len() {
        v[i]
    } else {
        None
    }
}

/// The row of a worker.
pub open spec fn worker_row(u: UsageRow, tasks: Option<u32>, cost: Seq<char>) -> Seq<char> {
    usage_row(
        u.worker@,
        u.input_tokens as nat,
        u.output_tokens as nat,
        u.calls as nat,
        u.duration_secs as nat,
        if u.cli@.len() == 0 {
            "?"@
        } else {
            u.cli@
        },
        u.full_calls as nat,
        u.light_calls as nat,
        tasks_shown(tasks),
        cost,
    )
}

/// The rows of the workers.
pub open spec fn worker_rows(
    v: Seq<UsageRow>,
    tasks: Seq<Option<u32>>,
    costs: Option<Costs>,
) -> Seq<char>
    decreases v.len(),
{
    if v.len() == 0 {
        Seq::empty()
    } else {
        let i = v.len() - 1;
        worker_rows(v.drop_last(), tasks, costs) + worker_row(
            v.last(),
            tasks_at(tasks, i),
            cost_at(costs, i),
        )
    }
}

/// What is shown where nothing was used.
pub const NO_USAGE: &'static str =
    "No usage data yet. Workers report to the server after each invocation.";

/// How wide the table is.
pub open spec fn table_width(costs: Option<Costs>) -> nat {
    if costs is Some {
        96
    } else {
        88
    }
}

/// How the table begins.
pub open spec fn table_head(costs: Option<Costs>) -> Seq<char> {
    (if costs is Some {
        "Token usage (actual)\n\n"@
    } else {
        "Token usage (estimated ~4 chars/token)\n\n"@
    }) + text::padded_end("Worker"@, 20) + " "@ + text::padded_start("Input"@, 8) + " "@
        + text::padded_start("Output"@, 8) + " "@ + text::padded_start("Calls"@, 6) + " "@
        + text::padded_start("Time"@, 8) + "  "@ + text::padded_end("CLI"@, 10) + " "@
        + text::padded_end("Tiers"@, 10) + " "@ + text::padded_end("Todos"@, 6) + (
    if costs is Some {
        "  Cost"@
    } else {
        Seq::empty()
    }) + "\n"@ + text::repeated('\u{2500}', table_width(costs))
}

/// The row of the sums.
pub open spec fn total_row(u: UsageResponse, tasks: nat, cost: Seq<char>) -> Seq<char> {
    usage_row(
        "TOTAL"@,
        u.total_input_tokens as nat,
        u.total_output_tokens as nat,
        u.total_calls as nat,
        u.total_duration_secs as nat,
        Seq::empty(),
        u.total_full_calls as nat,
        u.total_light_calls as nat,
        if tasks > 0 {
            text::decimal(tasks)
        } else {
            "\u{2014}"@
        },
        cost,
    )
}

/// What is shown of what was used.
pub open spec fn usage_text(u: UsageResponse, tasks: Seq<Option<u32>>, costs: Option<Costs>) -> Seq<
    char,
> {
    if u.workers@.len() == 0 {
        NO_USAGE@
    } else {
        table_head(costs) + worker_rows(u.workers@, tasks, costs) + "\n"@ + text::repeated(
            '\u{2500}',
            table_width(costs),
        ) + total_row(
            u,
            all_tasks(tasks),
            match costs {
                Some(c) => c.total@,
                None => Seq::empty(),
            },
        )
    }
}

fn tasks_text(n: Option<u32>) -> (r: String)
    ensures
        r@ == tasks_shown(n),
{
    match n {
        Some(k) => if k == 0 {
            "\u{2014}".to_owned()
        } else {
            text::number(k as u64)
        },
        None => "?".to_owned(),
    }
}

proof fn all_tasks_bound(v: Seq<Option<u32>>)
    ensures
        all_tasks(v) <= v.len() * 0xffff_ffff,
    decreases v.len(),
{
    if v.len() > 0 {
        all_tasks_bound(v.drop_last());
    }
}

fn sum_tasks(v: &Vec<Option<u32>>) -> (r: u64)
    requires
        v@.len() <= 0xffff_ffff,
    ensures
        r == all_tasks(v@),
{
    let mut r: u64 = 0;
    let mut i: usize = 0;
    assert(v@.take(0) =~= Seq::<Option<u32>>::empty());
    while i < v.len()
        invariant
            i <= v@.len(),
            v@.len() <= 0xffff_ffff,
            r == all_tasks(v@.take(i as int)),
        decreases v@.len() - i,
    {
        assert(v@.take(i + 1).drop_last() =~= v@.take(i as int));
        assert(v@.take(i + 1).last() == v@[i as int]);
        proof {
            all_tasks_bound(v@.take(i as int));
        }
        if let Some(k) = v[i] {
            r = r + k as u64;
        }
        i += 1;
    }
    assert(v@.take(i as int) =~= v@);
    r
}

fn head_text(costs: &Option<Costs>) -> (r: String)
    ensures
        r@ == table_head(*costs),
{
    let mut r = if costs.is_some() {
        "Token usage (actual)\n\n".to_owned()
    } else {
        "Token usage (estimated ~4 chars/token)\n\n".to_owned()
    };
    r.append(text::pad_end("Worker", 20).as_str());
    r.append(" ");
    r.append(text::pad_start("Input", 8).as_str());
    r.append(" ");
    r.append(text::pad_start("Output", 8).as_str());
    r.append(" ");
    r.append(text::pad_start("Calls", 6).as_str());
    r.append(" ");
    r.append(text::pad_start("Time", 8).as_str());
    r.append("  ");
    r.append(text::pad_end("CLI", 10).as_str());
    r.append(" ");
    r.append(text::pad_end("Tiers", 10).as_str());
    r.append(" ");
    r.append(text::pad_end("Todos", 6).as_str());
    if costs.is_some() {
        r.append("  Cost");
    } else {
        assert(r@ + Seq::<char>::empty() =~= r@);
    }
    r.append("\n");
    if costs.is_some() {
        r.append(text::repeat('\u{2500}', 96).as_str());
    } else {
        r.append(text::repeat('\u{2500}', 88).as_str());
    }
    r
}

/// What is shown of what was used. `tasks` are the numbers of open tasks of the workers, where
/// they are known, and `costs` what is known of the costs.
pub fn usage(u: &UsageResponse, tasks: &Vec<Option<u32>>, costs: &Option<Costs>) -> (r: String)
    requires
        tasks@.len() <= 0xffff_ffff,
    ensures
        r@ == usage_text(*u, tasks@, *costs),
{
    if u.workers.len() == 0 {
        return NO_USAGE.to_owned();
    }
    let mut r = head_text(costs);
    let ghost head = r@;
    let mut i: usize = 0;
    let nothing = String::new();
    assert(nothing@ =~= Seq::<char>::empty());
    assert(r@ =~= head + worker_rows(u.workers@.take(0), tasks@, *costs));
    while i < u.workers.len()
        invariant
            i <= u.workers@.len(),
            nothing@ == Seq::<char>::empty(),
            r@ == head + worker_rows(u.workers@.take(i as int), tasks@, *costs),
        decreases u.workers@.len() - i,
    {
        assert(u.workers@.take(i + 1).drop_last() =~= u.workers@.take(i as int));
        let w = &u.workers[i];
        assert(u.workers@.take(i + 1).last() == *w);
        let n: Option<u32> = if i < tasks.len() {
            tasks[i]
        } else {
            None
        };
        let cost = match costs {
            Some(c) => if i < c.rows.len() {
                c.rows[i].as_str()
            } else {
                nothing.as_str()
            },
            None => nothing.as_str(),
        };
        let cli = if w.cli.as_str().is_empty() {
            "?"
        } else {
            w.cli.as_str()
        };
        let line = row_text(
            w.worker.as_str(),
            w.input_tokens,
            w.output_tokens,
            w.calls,
            w.duration_secs,
            cli,
            w.full_calls,
            w.light_calls,
            tasks_text(n).as_str(),
            cost,
        );
        let ghost before = worker_rows(u.workers@.take(i as int), tasks@, *costs);
        assert(line@ == worker_row(*w, tasks_at(tasks@, i as int), cost_at(*costs, i as int)));
        r.append(line.as_str());
        assert(r@ =~= head + (before + line@));
        i += 1;
    }
    assert(u.workers@.take(i as int) =~= u.workers@);
    r.append("\n");
    let total_cost = match costs {
        Some(c) => {
            r.append(text::repeat('\u{2500}', 96).as_str());
            c.total.as_str()
        },
        None => {
            r.append(text::repeat('\u{2500}', 88).as_str());
            nothing.as_str()
        },
    };
    let open: u64 = sum_tasks(tasks);
    let shown = if open > 0 {
        text::number(open)
    } else {
        "\u{2014}".to_owned()
    };
    let total = row_text(
        "TOTAL",
        u.total_input_tokens,
        u.total_output_tokens,
        u.total_calls,
        u.total_duration_secs,
        nothing.as_str(),
        u.total_full_calls,
        u.total_light_calls,
        shown.as_str(),
        total_cost,
    );
    r.append(total.as_str());
    r
}

// ── Laws ────────────────────────────────────────────────────────────────────
/// Of a token no more than its first eight characters is shown.
pub proof fn tokens_stay_hidden(t: Seq<char>)
    ensures
        fingerprint(t).len() <= 8,
        fingerprint(t).is_prefix_of(t),
{
}

/// Tasks are added up; a worker that could not be asked adds none.
pub proof fn each_count_is_added(a: Seq<Option<u32>>, b: Seq<Option<u32>>, x: Option<u32>)
    ensures
        all_tasks(a + b) == all_tasks(a) + all_tasks(b),
        all_tasks(seq![x]) == (match x {
            Some(k) => k as nat,
            None => 0,
        }),
    decreases b.len(),
{
    let one = seq![x];
    assert(one.drop_last() =~= Seq::<Option<u32>>::empty());
    assert(all_tasks(one.drop_last()) == 0);
    if b.len() == 0 {
        assert(a + b =~= a);
    } else {
        each_count_is_added(a, b.drop_last(), x);
        assert((a + b).drop_last() =~= a + b.drop_last());
        assert((a + b).last() == b.last());
    }
}

/// Of a token the first eight characters are shown, and its kind is told by its beginning.
pub proof fn tokens_are_told_by_their_beginning(t: Seq<char>, rest: Seq<char>)
    ensures
        t.len() > 8 ==> fingerprint(t) == t.take(8),
        t.len() <= 8 ==> fingerprint(t) == t,
        token_kind("tm_"@ + rest) == "team token"@,
        token_kind("adm_"@ + rest) == "admin token"@,
        token_kind(t) == "team token"@ || token_kind(t) == "admin token"@ || token_kind(t)
            == "token (unknown kind \u{2014} pre-prefix)"@,
{
    reveal_strlit("tm_");
    reveal_strlit("adm_");
    let a = "tm_"@ + rest;
    let b = "adm_"@ + rest;
    assert("tm_"@ =~= a.subrange(0, 3));
    assert("adm_"@ =~= b.subrange(0, 4));
    if "tm_"@.is_prefix_of(b) {
        assert("tm_"@[0] == b.subrange(0, 3)[0]);
    }
}

/// The administrator's token is shown before any other, and that none is set is said.
pub proof fn admin_tokens_are_shown_first(admin: Option<Seq<char>>, token: Option<Seq<char>>)
    ensures
        admin matches Some(t) ==> ("\n  token:      "@ + fingerprint(t)).is_prefix_of(
            token_part(admin, token),
        ),
        admin is None && token is Some ==> ("\n  token:      "@ + fingerprint(token->0)
            + "\u{2026} ("@ + token_kind(token->0)).is_prefix_of(token_part(admin, token)),
        admin is None && token is None ==> token_part(admin, token) == "\n  token:      <unset>"@,
{
    let p = token_part(admin, token);
    if let Some(t) = admin {
        let a = "\n  token:      "@ + fingerprint(t);
        assert(a =~= p.subrange(0, a.len() as int));
    } else if let Some(t) = token {
        let a = "\n  token:      "@ + fingerprint(t) + "\u{2026} ("@ + token_kind(t);
        assert(a =~= p.subrange(0, a.len() as int));
    }
}

/// What is said of the sign-in: that it worked, as an administrator or not, or why it did not.
pub proof fn sign_ins_are_told(roster: bool, admin: bool, hint: String)
    ensures
        ({
            let a = auth_part(Auth::Tried { roster, admin, hint });
            &&& roster && admin ==> a == "\n  auth:       OK (admin \u{2014} can create/rotate teams)"@
            &&& roster && !admin ==> a == "\n  auth:       OK (team member \u{2014} cannot admin)"@
            &&& !roster ==> a == "\n  auth:       FAILED ("@ + hint@ + ")"@
        }),
        auth_part(Auth::Skipped) == "\n  auth:       <skipped \u{2014} no token set>"@,
{
}

/// What is told of oneself: the server, the name, the team, the token, the sign-in and where settings
/// come from.
pub proof fn reports_are_whole(w: Whoami)
    ensures
        text::holds(whoami_text(w), w.server@),
        text::holds(whoami_text(w), (match text::opt_text(w.instance) {
        Some(i) => i,
        None => "<unset>"@,
    })),
        text::holds(whoami_text(w), team_part(w.marker)),
        text::holds(whoami_text(w), token_part(text::opt_text(w.admin_token), text::opt_text(w.token))),
        text::holds(whoami_text(w), auth_part(w.auth)),
        text::holds(whoami_text(w), line_of("\n  codebase:   "@, text::opt_text(w.codebase))),
        text::holds(whoami_text(w), line_of("\n  local cfg:  "@, text::opt_text(w.local_config))),
        text::holds(whoami_text(w), line_of("\n  global cfg: "@, text::opt_text(w.global_config))),
{
    let p0 = "collab whoami\n  server:     "@;
    let p1 = w.server@;
    let p2 = "\n  instance:   "@;
    let p3 = (match text::opt_text(w.instance) {
        Some(i) => i,
        None => "<unset>"@,
    });
    let p4 = team_part(w.marker);
    let p5 = token_part(text::opt_text(w.admin_token), text::opt_text(w.token));
    let p6 = auth_part(w.auth);
    let p7 = line_of("\n  codebase:   "@, text::opt_text(w.codebase));
    let p8 = line_of("\n  local cfg:  "@, text::opt_text(w.local_config));
    let p9 = line_of("\n  global cfg: "@, text::opt_text(w.global_config));
    text::end_is_held(p0, p1);
    text::held_with_more(p0 + p1, p2, p1);
    text::held_with_more(p0 + p1 + p2, p3, p1);
    text::held_with_more(p0 + p1 + p2 + p3, p4, p1);
    text::held_with_more(p0 + p1 + p2 + p3 + p4, p5, p1);
    text::held_with_more(p0 + p1 + p2 + p3 + p4 + p5, p6, p1);
    text::held_with_more(p0 + p1 + p2 + p3 + p4 + p5 + p6, p7, p1);
    text::held_with_more(p0 + p1 + p2 + p3 + p4 + p5 + p6 + p7, p8, p1);
    text::held_with_more(p0 + p1 + p2 + p3 + p4 + p5 + p6 + p7 + p8, p9, p1);
    text::end_is_held(p0 + p1 + p2, p3);
    text::held_with_more(p0 + p1 + p2 + p3, p4, p3);
    text::held_with_more(p0 + p1 + p2 + p3 + p4, p5, p3);
    text::held_with_more(p0 + p1 + p2 + p3 + p4 + p5, p6, p3);
    text::held_with_more(p0 + p1 + p2 + p3 + p4 + p5 + p6, p7, p3);
    text::held_with_more(p0 + p1 + p2 + p3 + p4 + p5 + p6 + p7, p8, p3);
    text::held_with_more(p0 + p1 + p2 + p3 + p4 + p5 + p6 + p7 + p8, p9, p3);
    text::end_is_held(p0 + p1 + p2 + p3, p4);
    text::held_with_more(p0 + p1 + p2 + p3 + p4, p5, p4);
    text::held_with_more(p0 + p1 + p2 + p3 + p4 + p5, p6, p4);
    text::held_with_more(p0 + p1 + p2 + p3 + p4 + p5 + p6, p7, p4);
    text::held_with_more(p0 + p1 + p2 + p3 + p4 + p5 + p6 + p7, p8, p4);
    text::held_with_more(p0 + p1 + p2 + p3 + p4 + p5 + p6 + p7 + p8, p9, p4);
    text::end_is_held(p0 + p1 + p2 + p3 + p4, p5);
    text::held_with_more(p0 + p1 + p2 + p3 + p4 + p5, p6, p5);
    text::held_with_more(p0 + p1 + p2 + p3 + p4 + p5 + p6, p7, p5);
    text::held_with_more(p0 + p1 + p2 + p3 + p4 + p5 + p6 + p7, p8, p5);
    text::held_with_more(p0 + p1 + p2 + p3 + p4 + p5 + p6 + p7 + p8, p9, p5);
    text::end_is_held(p0 + p1 + p2 + p3 + p4 + p5, p6);
    text::held_with_more(p0 + p1 + p2 + p3 + p4 + p5 + p6, p7, p6);
    text::held_with_more(p0 + p1 + p2 + p3 + p4 + p5 + p6 + p7, p8, p6);
    text::held_with_more(p0 + p1 + p2 + p3 + p4 + p5 + p6 + p7 + p8, p9, p6);
    text::end_is_held(p0 + p1 + p2 + p3 + p4 + p5 + p6, p7);
    text::held_with_more(p0 + p1 + p2 + p3 + p4 + p5 + p6 + p7, p8, p7);
    text::held_with_more(p0 + p1 + p2 + p3 + p4 + p5 + p6 + p7 + p8, p9, p7);
    text::end_is_held(p0 + p1 + p2 + p3 + p4 + p5 + p6 + p7, p8);
    text::held_with_more(p0 + p1 + p2 + p3 + p4 + p5 + p6 + p7 + p8, p9, p8);
    text::end_is_held(p0 + p1 + p2 + p3 + p4 + p5 + p6 + p7 + p8, p9);
}

/// A line tells its value exactly where there is one, and the team's tells the team and its manifest.
pub proof fn lines_tell_their_value(
    label: Seq<char>,
    value: Option<Seq<char>>,
    marker: Option<TeamManagedMarker>,
)
    ensures
        value matches Some(v) ==> line_of(label, value) == label + v,
        value is None ==> line_of(label, value).len() == 0,
        marker matches Some(m) ==> m.source@.is_suffix_of(team_part(marker)) && text::holds(
            team_part(marker),
            m.team@,
        ),
{
    if let Some(m) = marker {
        let p = team_part(marker);
        let z = "\n  team.yml:   "@ + m.source@;
        assert(m.source@ =~= p.subrange(p.len() - m.source@.len(), p.len() as int));
        text::middle_is_held("\n  team:       "@, m.team@, z);
        assert("\n  team:       "@ + m.team@ + z =~= p);
    }
}

/// A duration is told in hours, minutes and seconds: below an hour without the hours, and minutes and
/// seconds with two digits each.
pub proof fn durations_are_exact(h: nat, m: nat, s: nat)
    requires
        m < 60,
        s < 60,
    ensures
        h == 0 ==> duration(60 * m + s) == "   "@ + two_digits(m) + ":"@ + two_digits(s),
        h > 0 ==> duration(3600 * h + 60 * m + s) == text::padded_start(text::decimal(h), 2) + ":"@
            + two_digits(m) + ":"@ + two_digits(s),
        m < 10 ==> two_digits(m) == "0"@ + text::decimal(m),
        m >= 10 ==> two_digits(m) == text::decimal(m),
{
    let a = 60 * m + s;
    let b = 3600 * h + a;
    assert(a < 3600);
    assert(a / 3600 == 0 && a % 3600 == a && a / 60 == m && a % 60 == s);
    assert(b / 3600 == h && b % 3600 == a && b % 60 == s) by {
        assert(b == h * 3600 + a);
        vstd::arithmetic::div_mod::lemma_fundamental_div_mod_converse(
            b as int,
            3600,
            h as int,
            a as int,
        );
        vstd::arithmetic::div_mod::lemma_fundamental_div_mod_converse(
            b as int,
            60,
            60 * h as int + m as int,
            s as int,
        );
    }
}

/// A row of a worker begins with its name and its tokens in thousands, in and out.
pub proof fn rows_tell_the_tokens(u: UsageRow, tasks: Option<u32>, cost: Seq<char>)
    ensures
        ("\n"@ + text::padded_end(u.worker@, 20) + " "@ + text::padded_start(
            text::decimal(u.input_tokens as nat / 1000),
            7,
        ) + "K "@ + text::padded_start(text::decimal(u.output_tokens as nat / 1000), 7) + "K "@
            + text::padded_start(text::decimal(u.calls as nat), 6)).is_prefix_of(
            worker_row(u, tasks, cost),
        ),
        text::holds(
            worker_row(u, tasks, cost),
            text::padded_end(
                text::decimal(u.full_calls as nat) + "F/"@ + text::decimal(u.light_calls as nat)
                    + "L"@,
                10,
            ),
        ),
        text::holds(
            worker_row(u, tasks, cost),
            text::padded_start(duration(u.duration_secs as nat), 8),
        ),
        u.cli@.len() > 0 ==> text::holds(worker_row(u, tasks, cost), text::padded_end(u.cli@, 10)),
        cost.is_suffix_of(worker_row(u, tasks, cost)),
        tasks is None ==> tasks_shown(tasks) == "?"@,
        tasks == Some(0u32) ==> tasks_shown(tasks) == "\u{2014}"@,
        tasks matches Some(k) ==> k > 0 ==> tasks_shown(tasks) == text::decimal(k as nat),
{
    let cli = if u.cli@.len() == 0 {
        "?"@
    } else {
        u.cli@
    };
    let tiers = text::decimal(u.full_calls as nat) + "F/"@ + text::decimal(u.light_calls as nat)
        + "L"@;
    let whole = worker_row(u, tasks, cost);
    let a0 = "\n"@ + text::padded_end(u.worker@, 20) + " "@ + text::padded_start(
        text::decimal(u.input_tokens as nat / 1000),
        7,
    ) + "K "@ + text::padded_start(text::decimal(u.output_tokens as nat / 1000), 7) + "K "@
        + text::padded_start(text::decimal(u.calls as nat), 6);
    let t1 = text::padded_start(duration(u.duration_secs as nat), 8);
    let t3 = text::padded_end(cli, 10);
    let t5 = text::padded_end(tiers, 10);
    let t7 = text::padded_end(tasks_shown(tasks), 6);
    let a1 = a0 + " "@;
    let a2 = a1 + t1;
    let a3 = a2 + "  "@;
    let a4 = a3 + t3;
    let a5 = a4 + " "@;
    let a6 = a5 + t5;
    let a7 = a6 + " "@;
    let a8 = a7 + t7;
    text::whole_is_front(whole);
    assert(whole == a8 + cost);
    assert(cost =~= whole.subrange(whole.len() - cost.len(), whole.len() as int));
    text::front_of_front(a8, cost, whole);
    text::front_of_front(a7, t7, whole);
    text::front_of_front(a6, " "@, whole);
    text::part_of_front(a5, t5, whole);
    text::front_of_front(a5, t5, whole);
    text::front_of_front(a4, " "@, whole);
    text::part_of_front(a3, t3, whole);
    text::front_of_front(a3, t3, whole);
    text::front_of_front(a2, "  "@, whole);
    text::part_of_front(a1, t1, whole);
    text::front_of_front(a1, t1, whole);
    text::front_of_front(a0, " "@, whole);
}

/// Every worker has its row in the table, with its own tasks and costs.
pub proof fn every_worker_has_its_row(
    v: Seq<UsageRow>,
    tasks: Seq<Option<u32>>,
    costs: Option<Costs>,
    i: int,
)
    requires
        0 <= i < v.len(),
    ensures
        text::holds(
            worker_rows(v, tasks, costs),
            worker_row(
                v[i],
                if i < tasks.len() {
                    tasks[i]
                } else {
                    None
                },
                cost_at(costs, i),
            ),
        ),
        costs matches Some(c) ==> i < c.rows@.len() ==> cost_at(costs, i) == c.rows@[i]@,
        costs is None ==> cost_at(costs, i).len() == 0,
    decreases v.len(),
{
    let init = v.drop_last();
    let n = v.len() - 1;
    let last = worker_row(v.last(), tasks_at(tasks, n), cost_at(costs, n));
    let front = worker_rows(init, tasks, costs);
    if i < n {
        every_worker_has_its_row(init, tasks, costs, i);
        assert(init[i] == v[i]);
        text::held_with_more(front, last, worker_row(v[i], tasks_at(tasks, i), cost_at(costs, i)));
    } else {
        text::end_is_held(front, last);
    }
}

/// A table holds the rows of all workers and ends with the totals; without workers it says so.
pub proof fn tables_end_with_the_totals(
    u: UsageResponse,
    tasks: Seq<Option<u32>>,
    costs: Option<Costs>,
)
    ensures
        u.workers@.len() == 0 ==> usage_text(u, tasks, costs) == NO_USAGE@,
        u.workers@.len() > 0 ==> text::holds(
            usage_text(u, tasks, costs),
            worker_rows(u.workers@, tasks, costs),
        ),
        u.workers@.len() > 0 ==> total_row(
            u,
            all_tasks(tasks),
            match costs {
                Some(c) => c.total@,
                None => Seq::empty(),
            },
        ).is_suffix_of(usage_text(u, tasks, costs)),
{
    if u.workers@.len() > 0 {
        let whole = usage_text(u, tasks, costs);
        let head = table_head(costs);
        let rows = worker_rows(u.workers@, tasks, costs);
        let rule = text::repeated('\u{2500}', table_width(costs));
        let total = total_row(
            u,
            all_tasks(tasks),
            match costs {
                Some(c) => c.total@,
                None => Seq::empty(),
            },
        );
        text::end_is_held(head, rows);
        text::held_with_more(head + rows, "\n"@, rows);
        text::held_with_more(head + rows + "\n"@, rule, rows);
        text::held_with_more(head + rows + "\n"@ + rule, total, rows);
        assert(total =~= whole.subrange(whole.len() - total.len(), whole.len() as int));
    }
}

/// The row of totals begins with the sums of tokens, in and out, and of calls.
pub proof fn totals_tell_the_tokens(u: UsageResponse, tasks: nat, cost: Seq<char>)
    ensures
        ("\n"@ + text::padded_end("TOTAL"@, 20) + " "@ + text::padded_start(
            text::decimal(u.total_input_tokens as nat / 1000),
            7,
        ) + "K "@ + text::padded_start(text::decimal(u.total_output_tokens as nat / 1000), 7)
            + "K "@ + text::padded_start(text::decimal(u.total_calls as nat), 6)).is_prefix_of(
            total_row(u, tasks, cost),
        ),
        cost.is_suffix_of(total_row(u, tasks, cost)),
{
    let tiers = text::decimal(u.total_full_calls as nat) + "F/"@ + text::decimal(
        u.total_light_calls as nat,
    ) + "L"@;
    let shown = if tasks > 0 {
        text::decimal(tasks)
    } else {
        "\u{2014}"@
    };
    let none = Seq::<char>::empty();
    let whole = total_row(u, tasks, cost);
    let a0 = "\n"@ + text::padded_end("TOTAL"@, 20) + " "@ + text::padded_start(
        text::decimal(u.total_input_tokens as nat / 1000),
        7,
    ) + "K "@ + text::padded_start(text::decimal(u.total_output_tokens as nat / 1000), 7) + "K "@
        + text::padded_start(text::decimal(u.total_calls as nat), 6);
    let t1 = text::padded_start(duration(u.total_duration_secs as nat), 8);
    let t3 = text::padded_end(none, 10);
    let t5 = text::padded_end(tiers, 10);
    let t7 = text::padded_end(shown, 6);
    let a1 = a0 + " "@;
    let a2 = a1 + t1;
    let a3 = a2 + "  "@;
    let a4 = a3 + t3;
    let a5 = a4 + " "@;
    let a6 = a5 + t5;
    let a7 = a6 + " "@;
    let a8 = a7 + t7;
    text::whole_is_front(whole);
    assert(whole == a8 + cost);
    assert(cost =~= whole.subrange(whole.len() - cost.len(), whole.len() as int));
    text::front_of_front(a8, cost, whole);
    text::front_of_front(a7, t7, whole);
    text::front_of_front(a6, " "@, whole);
    text::front_of_front(a5, t5, whole);
    text::front_of_front(a4, " "@, whole);
    text::front_of_front(a3, t3, whole);
    text::front_of_front(a2, "  "@, whole);
    text::front_of_front(a1, t1, whole);
    text::front_of_front(a0, " "@, whole);
}

} // verus!
