//! Teams whose workers live in several codebases: what each worker is told, and where that may be
//! written.
use crate::clock::Timestamp;
use crate::init;
use crate::init::NewFile;
use crate::paths;
use crate::team;
use crate::team::{ConfigModel, TeamConfig, TeamManagedMarker, TeamWorker, WorkerModel};
use crate::text;
use vstd::prelude::*;

verus! {

/// What stands at the top of the file.
pub const DO_NOT_EDIT: &'static str =
    " -->\n\
     <!-- DO NOT EDIT THIS FILE. Edit the team manifest and re-run `collab init`. -->\n\n\
     # ";

/// How a session is set up.
pub const SETUP: &'static str =
    "\n\n\
     ## Setup (COPY-PASTE THIS AT SESSION START)\n\n\
     ```bash\n\
     export COLLAB_INSTANCE=";

/// Where the token comes from.
pub const TOKEN_HELP: &'static str =
    "\n\
     export COLLAB_TOKEN=\"<your-team-token-from-human>\"\n\
     ```\n\n\
     \u{1f4a1} **Where to get `COLLAB_TOKEN`:** ask your team lead or run `collab team show ";

/// What the token is good for.
pub const NAMESPACE_HELP: &'static str =
    "` (requires admin). The token authenticates you into this team's namespace on the server \
     \u{2014} messages, todos, and the roster are all scoped per-team so you only ever see traffic \
     for **";

/// What is done at the start of a session.
pub const SESSION_START: &'static str =
    "\n\
     ## Session Start\n\n\
     Run these in order every session:\n\n\
     **1. Orient.**\n\
     ```bash\n\
     collab whoami              # confirm you're authenticated into team ";

/// How the worker is started.
pub const START_WORKER: &'static str =
    "\n\
     collab status              # unread messages + roster\n\
     collab todo list           # pending tasks assigned to you\n\
     ```\n\n\
     **2. Start the headless worker.** This is what actually spawns your CLI tool when \
     messages arrive, acquires a singleton lease so you can't accidentally run two copies of \
     yourself, and heartbeats the server. Run **after** setting the env vars in step 1:\n\n\
     ```bash\n";

/// What a worker may put out.
pub const OUTPUT_RULES: &'static str =
    "\n\
     ```\n\n\
     If the lease fails with a 409, another worker with your instance ID is already running \
     somewhere \u{2014} either another shell on this machine, or another machine entirely. Hunt it \
     down before starting a second one; two processes on the same identity compete for \
     messages and burn quota.\n\n\
     **3. Stream presence (optional, for the dashboard).**\n\
     ```bash\n\
     collab stream --status \"working on <short description>\"\n\
     ```\n\n\
     ## Output JSON \u{2014} STRICT RULES\n\n\
     Every CLI invocation you produce must emit a JSON object as its final output. The harness \
     delivers messages/todos/handoffs from that JSON; do NOT call `collab send` / `collab todo \
     add` / `collab broadcast` yourself \u{2014} those would create duplicates.\n\n\
     - **`response`**: reply to the sender only if they asked a direct question. Otherwise \
     `null`.\n\
     - **`delegate`**: `[{\"to\": \"@name\", \"task\": \"self-contained description\"}]`. Valid \
     targets are your teammates, `@human`, `@all`, or yourself. Invented worker names are \
     rejected.\n\
     - **`messages`**: **always `null`.** Never narrate or send status updates \u{2014} the harness \
     logs what you did.\n\
     - **`completed_tasks`**: hashes of any todos you finished this turn. Leaving tasks open \
     piles them up.\n\
     - **`continue`**: `true` if you have more work queued, `false` if done or blocked.\n\
     - **`state_update`**: one-line status for the dashboard, e.g. `{\"status\": \"assigned \
     routing task to @webdev\"}`.\n\n";

/// How a role is changed.
pub const UPDATING: &'static str =
    "\n\
     ## Updating Your Role\n\n\
     Your role lives in the team manifest (**not** in any file under this repo). To update \
     it:\n\n\
     ```bash\n\
     collab role edit            # opens the team manifest in $EDITOR\n\
     collab init ";

/// What is said of data.
pub const DATA: &'static str =
    "\n\
     ```\n\n\
     Editing `workers.json` or this AGENT.md directly won't stick \u{2014} they're generated. The \
     manifest is the source of truth.\n\n\
     ## Data\n\n\
     **Check the filesystem before asking a teammate.** Large artifacts live on disk \u{2014} \
     messages are for coordination only (\"I finished X\", \"blocked on Y\").\n\n\
     Your working directory: `";

/// Where the others work.
pub const TEAMMATE_CODEBASES: &'static str =
    "/`\n\n\
     Teammate codebases (absolute paths \u{2014} this team spans multiple repos):\n";

/// What a worker has to keep to.
pub const RULES: &'static str =
    "\n\n\
     ## Rules (no exceptions)\n\n\
     1. **Only act on explicit instructions.** Don't invent work. Only delegate tasks you were \
     directly told to delegate.\n\
     2. **One delegate entry per task.** Never send the same task twice.\n\
     3. **`messages` is always `null`.** Ever.\n\
     4. **`continue` is `true` while you have more work, `false` when done.**\n\
     5. **`response` is `null` unless the sender asked a direct question.**\n\
     6. **Be specific when delegating.** File paths + exact requirements, not vague hints.\n\
     7. **Finish one task before starting the next.**\n\
     8. **Mask PII.** Redact names / emails / IDs with `[NAME]`, `[EMAIL]`, `[ID]`.\n";

/// The workers other than `me`.
pub open spec fn others(ws: Seq<WorkerModel>, me: Seq<char>) -> Seq<WorkerModel>
    decreases ws.len(),
{
    if ws.len() == 0 {
        Seq::empty()
    } else if ws.last().name != me {
        others(ws.drop_last(), me).push(ws.last())
    } else {
        others(ws.drop_last(), me)
    }
}

/// The names, roles and codebases of the others.
pub open spec fn mate_rows(mates: Seq<WorkerModel>) -> Seq<char>
    decreases mates.len(),
{
    if mates.len() == 0 {
        Seq::empty()
    } else {
        mate_rows(mates.drop_last()) + "| `"@ + mates.last().name + "` | "@ + mates.last().role
            + " | `"@ + mates.last().codebase_path + "` |\n"@
    }
}

/// How the table of the others begins.
pub const TABLE_HEAD: &'static str =
    "| Instance | Role | Codebase |\n|----------|------|----------|\n";

/// The table of the others.
pub open spec fn mate_table(mates: Seq<WorkerModel>) -> Seq<char> {
    if mates.len() == 0 {
        "_(you are the only worker on this team)_\n"@
    } else {
        TABLE_HEAD@ + mate_rows(mates)
    }
}

/// The names of the others, each as code.
pub open spec fn mate_names(mates: Seq<WorkerModel>) -> Seq<Seq<char>> {
    Seq::new(mates.len(), |i: int| "`"@ + mates[i].name + "`"@)
}

/// The list of the others.
pub open spec fn mate_list(mates: Seq<WorkerModel>) -> Seq<char> {
    if mates.len() == 0 {
        "_(solo on team)_"@
    } else {
        text::joined(mate_names(mates), ", "@)
    }
}

/// Where the others work.
pub open spec fn siblings(mates: Seq<WorkerModel>) -> Seq<Seq<char>> {
    Seq::new(
        mates.len(),
        |i: int|
            "  - `"@ + mates[i].name + "` at `"@ + mates[i].codebase_path + "/"@ + mates[i].name
                + "/`"@,
    )
}

/// The list of where the others work.
pub open spec fn sibling_list(mates: Seq<WorkerModel>) -> Seq<char> {
    if mates.len() == 0 {
        "  _(none)_"@
    } else {
        text::joined(siblings(mates), "\n"@)
    }
}

/// How what is said of handing on begins.
pub const HANDOFF_HEAD: &'static str =
    "\n## Auto-Handoff\n\nWhen you finish a task, the harness will automatically dispatch downstream to: `@";

/// What is said of handing on finished work.
pub open spec fn handoff_section(target: Option<Seq<char>>) -> Seq<char> {
    match target {
        Some(t) => HANDOFF_HEAD@ + t + "`\n"@,
        None => Seq::empty(),
    }
}

/// How the worker is started.
pub open spec fn start_line(codebase: Seq<char>, model: Option<Seq<char>>) -> Seq<char> {
    "collab worker --workdir "@ + codebase + " --model "@ + (match model {
        Some(m) => m,
        None => Seq::empty(),
    })
}

/// What is said of shared data.
pub open spec fn shared_line(dir: Option<Seq<char>>) -> Seq<char> {
    match dir {
        Some(d) => if d.len() == 0 {
            Seq::empty()
        } else {
            "\nShared data root: `"@ + d + "`\n"@
        },
        None => Seq::empty(),
    }
}

/// What a worker of a team is told.
pub open spec fn agent_md(
    c: ConfigModel,
    w: WorkerModel,
    mates: Seq<WorkerModel>,
    source: Seq<char>,
    generated: Seq<char>,
) -> Seq<char> {
    "<!-- managed-by: team="@ + c.team + ", source="@ + source + ", generated="@ + generated + DO_NOT_EDIT@ + w.name + init::IDENTITY@ + w.name + "**, a worker on team **"@ + c.team + "**.\n\n**Your role:** "@ + w.role + "\n\n**Your codebase:** `"@ + w.codebase_path + "`\n\n**Your teammates:** "@ + mate_list(mates) + SETUP@ + w.name + "\nexport COLLAB_SERVER="@ + c.server + TOKEN_HELP@ + c.team + NAMESPACE_HELP@ + c.team + "**.\n\n## Team\n\n"@ + mate_table(mates) + shared_line(c.shared_data_dir) + SESSION_START@ + c.team + START_WORKER@ + start_line(w.codebase_path, team::own_or(w.model, c.model)) + OUTPUT_RULES@ + init::tasks_section(w.tasks) + handoff_section(w.reports_to) + UPDATING@ + source + DATA@ + w.codebase_path + "/"@ + w.name + TEAMMATE_CODEBASES@ + sibling_list(mates) + RULES@
}

fn mates_of(all: &Vec<TeamWorker>, me: &str) -> (r: Vec<TeamWorker>)
    ensures
        team::worker_models(r@) == others(team::worker_models(all@), me@),
{
    let ghost ms = team::worker_models(all@);
    let mut r: Vec<TeamWorker> = Vec::new();
    let mut i: usize = 0;
    assert(team::worker_models(r@) =~= others(ms.take(0), me@));
    while i < all.len()
        invariant
            i <= all@.len(),
            ms == team::worker_models(all@),
            team::worker_models(r@) == others(ms.take(i as int), me@),
        decreases all@.len() - i,
    {
        assert(ms.take(i + 1).drop_last() =~= ms.take(i as int));
        assert(ms.take(i + 1).last() == all@[i as int]@);
        if !text::same(all[i].name.as_str(), me) {
            let ghost before = r@;
            r.push(all[i].copy());
            assert(team::worker_models(r@) =~= team::worker_models(before).push(
                all@[i as int]@,
            ));
        }
        i += 1;
    }
    assert(ms.take(i as int) =~= ms);
    r
}

fn table_text(mates: &Vec<TeamWorker>) -> (r: String)
    ensures
        r@ == mate_table(team::worker_models(mates@)),
{
    if mates.len() == 0 {
        return "_(you are the only worker on this team)_\n".to_owned();
    }
    let ghost ms = team::worker_models(mates@);
    let mut rows = String::new();
    let mut i: usize = 0;
    assert(ms.take(0) =~= Seq::<WorkerModel>::empty());
    assert(rows@ =~= mate_rows(ms.take(0)));
    while i < mates.len()
        invariant
            i <= mates@.len(),
            ms == team::worker_models(mates@),
            rows@ == mate_rows(ms.take(i as int)),
        decreases mates@.len() - i,
    {
        assert(ms.take(i + 1).drop_last() =~= ms.take(i as int));
        assert(ms.take(i + 1).last() == mates@[i as int]@);
        rows.append("| `");
        rows.append(mates[i].name.as_str());
        rows.append("` | ");
        rows.append(mates[i].role.as_str());
        rows.append(" | `");
        rows.append(mates[i].codebase_path.as_str());
        rows.append("` |\n");
        i += 1;
    }
    assert(ms.take(i as int) =~= ms);
    text::glue(TABLE_HEAD, rows.as_str())
}

fn list_text(mates: &Vec<TeamWorker>) -> (r: String)
    ensures
        r@ == mate_list(team::worker_models(mates@)),
{
    if mates.len() == 0 {
        return "_(solo on team)_".to_owned();
    }
    let ghost want = mate_names(team::worker_models(mates@));
    let mut names: Vec<String> = Vec::new();
    let mut i: usize = 0;
    while i < mates.len()
        invariant
            i <= mates@.len(),
            want == mate_names(team::worker_models(mates@)),
            names@.len() == i,
            forall|k: int| 0 <= k < i ==> (#[trigger] names@[k])@ == want[k],
        decreases mates@.len() - i,
    {
        names.push(text::glue3("`", mates[i].name.as_str(), "`"));
        i += 1;
    }
    assert(text::texts(names@) =~= want);
    text::join(&names, ", ")
}

fn siblings_text(mates: &Vec<TeamWorker>) -> (r: String)
    ensures
        r@ == sibling_list(team::worker_models(mates@)),
{
    if mates.len() == 0 {
        return "  _(none)_".to_owned();
    }
    let ghost want = siblings(team::worker_models(mates@));
    let mut dirs: Vec<String> = Vec::new();
    let mut i: usize = 0;
    while i < mates.len()
        invariant
            i <= mates@.len(),
            want == siblings(team::worker_models(mates@)),
            dirs@.len() == i,
            forall|k: int| 0 <= k < i ==> (#[trigger] dirs@[k])@ == want[k],
        decreases mates@.len() - i,
    {
        let mut d = text::glue3("  - `", mates[i].name.as_str(), "` at `");
        d.append(mates[i].codebase_path.as_str());
        d.append("/");
        d.append(mates[i].name.as_str());
        d.append("/`");
        dirs.push(d);
        i += 1;
    }
    assert(text::texts(dirs@) =~= want);
    text::join(&dirs, "\n")
}

fn handoff_text(target: &Option<String>) -> (r: String)
    ensures
        r@ == handoff_section(text::opt_text(*target)),
{
    match target {
        Some(t) => text::glue3(HANDOFF_HEAD, t.as_str(), "`\n"),
        None => {
            let r = String::new();
            assert(r@ =~= Seq::<char>::empty());
            r
        },
    }
}

fn start_text(codebase: &str, model: &Option<String>) -> (r: String)
    ensures
        r@ == start_line(codebase@, text::opt_text(*model)),
{
    let mut r = text::glue3("collab worker --workdir ", codebase, " --model ");
    match model {
        Some(m) => {
            r.append(m.as_str());
        },
        None => {
            assert(r@ + Seq::<char>::empty() =~= r@);
        },
    }
    r
}

fn shared_text(dir: &Option<String>) -> (r: String)
    ensures
        r@ == shared_line(text::opt_text(*dir)),
{
    if let Some(d) = dir {
        if !d.as_str().is_empty() {
            return text::glue3("\nShared data root: `", d.as_str(), "`\n");
        }
    }
    let r = String::new();
    assert(r@ =~= Seq::<char>::empty());
    r
}

/// What a worker of a team is told. The manifest `source` and the time `generated` are named at
/// the top.
pub fn render_agent_md(cfg: &TeamConfig, worker: &TeamWorker, source: &str, generated: &str) -> (r:
    String)
    ensures
        r@ == agent_md(
            cfg@,
            worker@,
            others(cfg@.workers, worker@.name),
            source@,
            generated@,
        ),
{
    let mates = mates_of(&cfg.workers, worker.name.as_str());
    let list = list_text(&mates);
    let table = table_text(&mates);
    let siblings = siblings_text(&mates);
    let tasks = init::tasks_text(&worker.tasks);
    let handoff = handoff_text(&worker.reports_to);
    let model = cfg.resolved_model(worker);
    let start = start_text(worker.codebase_path.as_str(), &model);
    let shared = shared_text(&cfg.shared_data_dir);
    let mut r = "<!-- managed-by: team=".to_owned();
    r.append(cfg.team.as_str());
    r.append(", source=");
    r.append(source);
    r.append(", generated=");
    r.append(generated);
    r.append(DO_NOT_EDIT);
    r.append(worker.name.as_str());
    r.append(init::IDENTITY);
    r.append(worker.name.as_str());
    r.append("**, a worker on team **");
    r.append(cfg.team.as_str());
    r.append("**.\n\n**Your role:** ");
    r.append(worker.role.as_str());
    r.append("\n\n**Your codebase:** `");
    r.append(worker.codebase_path.as_str());
    r.append("`\n\n**Your teammates:** ");
    r.append(list.as_str());
    r.append(SETUP);
    r.append(worker.name.as_str());
    r.append("\nexport COLLAB_SERVER=");
    r.append(cfg.server.as_str());
    r.append(TOKEN_HELP);
    r.append(cfg.team.as_str());
    r.append(NAMESPACE_HELP);
    r.append(cfg.team.as_str());
    r.append("**.\n\n## Team\n\n");
    r.append(table.as_str());
    r.append(shared.as_str());
    r.append(SESSION_START);
    r.append(cfg.team.as_str());
    r.append(START_WORKER);
    r.append(start.as_str());
    r.append(OUTPUT_RULES);
    r.append(tasks.as_str());
    r.append(handoff.as_str());
    r.append(UPDATING);
    r.append(source);
    r.append(DATA);
    r.append(worker.codebase_path.as_str());
    r.append("/");
    r.append(worker.name.as_str());
    r.append(TEAMMATE_CODEBASES);
    r.append(siblings.as_str());
    r.append(RULES);
    r
}

// ── Where it may be written ─────────────────────────────────────────────────
/// What was found where a worker's codebase should be.
pub enum Codebase {
    Unreachable(String),
    File,
    Dir(String),
}

/// The directory of a codebase, which has to be there already.
pub fn resolve_codebase_path(raw: &str, found: &Codebase) -> (r: Result<String, String>)
    ensures
        match *found {
            Codebase::Unreachable(e) => r matches Err(m) && m@ == "codebase_path '"@ + raw@
                + "' does not exist or isn't accessible: "@ + e@,
            Codebase::File => r matches Err(m) && m@ == "codebase_path '"@ + raw@
                + "' is not a directory"@,
            Codebase::Dir(p) => r matches Ok(d) && d@ == p@,
        },
{
    match found {
        Codebase::Unreachable(e) => {
            let mut m = text::glue3(
                "codebase_path '",
                raw,
                "' does not exist or isn't accessible: ",
            );
            m.append(e.as_str());
            Err(m)
        },
        Codebase::File => Err(text::glue3("codebase_path '", raw, "' is not a directory")),
        Codebase::Dir(p) => Ok(p.clone()),
    }
}

/// What somebody is told whose codebase has a project manifest already.
pub open spec fn two_manifests(codebase: Seq<char>) -> Seq<char> {
    codebase
        + " already has a workers.yml. Two manifests for one codebase will double-spawn workers and burn quota. Run `collab team adopt "@
        + paths::below(codebase, "workers.yml"@)
        + " <team.yml>` to fold it into the team manifest, or delete it manually."@
}

/// What somebody is told whose codebase belongs to another team already.
pub open spec fn two_teams(
    codebase: Seq<char>,
    owner: Seq<char>,
    source: Seq<char>,
    worker: Seq<char>,
) -> Seq<
    char,
> {
    codebase + " is managed by team '"@ + owner + "' (source: "@ + source + "). Worker '"@ + worker
        + "' can't belong to two teams. Remove the existing marker (rm "@ + codebase
        + "/.collab/team-managed) if you're deliberately retargeting."@
}

/// What stands against writing into a codebase.
pub open spec fn competition(
    codebase: Seq<char>,
    has_workers_yml: bool,
    owner: Option<(Seq<char>, Seq<char>)>,
    team: Seq<char>,
    worker: Seq<char>,
) -> Option<Seq<char>> {
    if has_workers_yml {
        Some(two_manifests(codebase))
    } else {
        match owner {
            Some(o) => if o.0 != team {
                Some(two_teams(codebase, o.0, o.1, worker))
            } else {
                None
            },
            None => None,
        }
    }
}

/// Whom a marker names: the team and its manifest.
pub open spec fn owner_of(marker: Option<TeamManagedMarker>) -> Option<(Seq<char>, Seq<char>)> {
    match marker {
        Some(m) => Some((m.team@, m.source@)),
        None => None,
    }
}

/// Refuses a codebase that has a project manifest, or that belongs to another team.
pub fn ensure_no_competing_manifest(
    codebase: &str,
    has_workers_yml: bool,
    marker: &Option<TeamManagedMarker>,
    team: &str,
    worker: &str,
) -> (r: Result<(), String>)
    ensures
        match competition(codebase@, has_workers_yml, owner_of(*marker), team@, worker@) {
            Some(t) => r matches Err(m) && m@ == t,
            None => r is Ok,
        },
{
    if has_workers_yml {
        let mut m = text::glue(
            codebase,
            " already has a workers.yml. Two manifests for one codebase will double-spawn workers and burn quota. Run `collab team adopt ",
        );
        m.append(paths::join(codebase, "workers.yml").as_str());
        m.append(" <team.yml>` to fold it into the team manifest, or delete it manually.");
        return Err(m);
    }
    if let Some(o) = marker {
        if !text::same(o.team.as_str(), team) {
            let mut m = text::glue3(codebase, " is managed by team '", o.team.as_str());
            m.append("' (source: ");
            m.append(o.source.as_str());
            m.append("). Worker '");
            m.append(worker);
            m.append("' can't belong to two teams. Remove the existing marker (rm ");
            m.append(codebase);
            m.append("/.collab/team-managed) if you're deliberately retargeting.");
            return Err(m);
        }
    }
    Ok(())
}

/// What was found of a worker's codebase.
pub struct Site {
    pub found: Codebase,
    pub has_workers_yml: bool,
    pub marker: Option<TeamManagedMarker>,
}

/// What stands against writing for one worker.
pub open spec fn site_fault(c: ConfigModel, w: WorkerModel, s: Site) -> Option<Seq<char>> {
    match s.found {
        Codebase::Unreachable(e) => Some(
            "worker '"@ + w.name + "': codebase_path '"@ + w.codebase_path
                + "' does not exist or isn't accessible: "@ + e@,
        ),
        Codebase::File => Some(
            "worker '"@ + w.name + "': codebase_path '"@ + w.codebase_path
                + "' is not a directory"@,
        ),
        Codebase::Dir(p) => competition(
            p@,
            s.has_workers_yml,
            owner_of(s.marker),
            c.team,
            w.name,
        ),
    }
}

/// What stands against writing for the first worker for whom anything does.
pub open spec fn first_fault(c: ConfigModel, ws: Seq<WorkerModel>, sites: Seq<Site>) -> Option<
    Seq<char>,
>
    decreases ws.len(),
{
    if ws.len() == 0 {
        None
    } else {
        match first_fault(c, ws.drop_last(), sites.drop_last()) {
            Some(t) => Some(t),
            None => site_fault(c, ws.last(), sites.last()),
        }
    }
}

/// What is written for one worker.
pub struct Planned {
    /// The codebase, which gets a marker.
    pub codebase: String,
    /// What the worker is told.
    pub agent: NewFile,
    pub marker: TeamManagedMarker,
}

/// The plan says what a worker is told whose codebase is the directory `dir`, where, and who owns
/// that codebase.
pub open spec fn planned_at(
    p: Planned,
    c: ConfigModel,
    w: WorkerModel,
    dir: Seq<char>,
    source: Seq<char>,
    generated: Seq<char>,
) -> bool {
    &&& p.codebase@ == dir
    &&& p.agent.path@ == paths::below(paths::below(dir, w.name), init::AGENT_FILE@)
    &&& p.agent.contents@ == agent_md(c, w, others(c.workers, w.name), source, generated)
    &&& p.marker.team@ == c.team
    &&& p.marker.source@ == source
    &&& p.marker.generated_at@ == generated
}

/// The plan is that for a worker whose codebase was found.
pub open spec fn planned_well(
    p: Planned,
    c: ConfigModel,
    w: WorkerModel,
    s: Site,
    source: Seq<char>,
    generated: Seq<char>,
) -> bool {
    &&& s.found matches Codebase::Dir(d)
    &&& planned_at(p, c, w, d@, source, generated)
}

/// What is written for a worker whose codebase is the directory `dir`.
pub fn plan_worker(cfg: &TeamConfig, w: &TeamWorker, dir: &str, source: &str, now: Timestamp) -> (r:
    Planned)
    requires
        now.valid(),
    ensures
        planned_at(r, cfg@, w@, dir@, source@, now.text()),
{
    let generated = now.to_rfc3339();
    let own = paths::join(dir, w.name.as_str());
    Planned {
        codebase: dir.to_owned(),
        agent: NewFile {
            path: paths::join(own.as_str(), init::AGENT_FILE),
            contents: render_agent_md(cfg, w, source, generated.as_str()),
        },
        marker: TeamManagedMarker::new(cfg.team.as_str(), source, now),
    }
}

/// The codebase is the directory `p`.
pub open spec fn stands_at(found: Codebase, p: Seq<char>) -> bool {
    match found {
        Codebase::Dir(d) => d@ == p,
        _ => false,
    }
}

fn check_site(cfg: &TeamConfig, w: &TeamWorker, s: &Site) -> (r: Result<String, String>)
    ensures
        match site_fault(cfg@, w@, *s) {
            Some(t) => r matches Err(m) && m@ == t,
            None => r matches Ok(d) && stands_at(s.found, d@),
        },
{
    match resolve_codebase_path(w.codebase_path.as_str(), &s.found) {
        Err(e) => {
            let mut m = text::glue3("worker '", w.name.as_str(), "': ");
            m.append(e.as_str());
            proof {
                reveal_strlit("': ");
                reveal_strlit("codebase_path '");
                reveal_strlit("': codebase_path '");
                assert("': codebase_path '"@ =~= "': "@ + "codebase_path '"@);
                match &s.found {
                    Codebase::Unreachable(x) => {
                        assert(m@ =~= "worker '"@ + w@.name + "': codebase_path '"@
                            + w@.codebase_path + "' does not exist or isn't accessible: "@ + x@);
                    },
                    Codebase::File => {
                        assert(m@ =~= "worker '"@ + w@.name + "': codebase_path '"@
                            + w@.codebase_path + "' is not a directory"@);
                    },
                    Codebase::Dir(_) => {},
                }
            }
            Err(m)
        },
        Ok(d) => match ensure_no_competing_manifest(
            d.as_str(),
            s.has_workers_yml,
            &s.marker,
            cfg.team.as_str(),
            w.name.as_str(),
        ) {
            Ok(_) => Ok(d),
            Err(m) => Err(m),
        },
    }
}

/// Decides what is written for a team, given what was found of each worker's codebase. Where
/// anything stands against one of them, nothing is written for any.
pub fn plan(cfg: &TeamConfig, sites: &Vec<Site>, source: &str, now: Timestamp) -> (r: Result<
    Vec<Planned>,
    String,
>)
    requires
        sites@.len() == cfg.workers@.len(),
        now.valid(),
    ensures
        match first_fault(cfg@, cfg@.workers, sites@) {
            Some(t) => r matches Err(m) && m@ == t,
            None => r matches Ok(v) && v@.len() == cfg@.workers.len() && forall|i: int|
                0 <= i < v@.len() ==> planned_well(
                    #[trigger] v@[i],
                    cfg@,
                    cfg@.workers[i],
                    sites@[i],
                    source@,
                    now.text(),
                ),
        },
{
    let ghost ws = cfg@.workers;
    let mut dirs: Vec<String> = Vec::new();
    let mut i: usize = 0;
    while i < cfg.workers.len()
        invariant
            i <= cfg.workers@.len(),
            sites@.len() == cfg.workers@.len(),
            ws == cfg@.workers,
            first_fault(cfg@, ws.take(i as int), sites@.take(i as int)) is None,
            dirs@.len() == i,
            forall|k: int|
                0 <= k < i ==> stands_at(sites@[k].found, (#[trigger] dirs@[k])@),
        decreases cfg.workers@.len() - i,
    {
        proof {
            assert(ws.take(i + 1).drop_last() =~= ws.take(i as int));
            assert(sites@.take(i + 1).drop_last() =~= sites@.take(i as int));
            assert(ws.take(i + 1).last() == cfg.workers@[i as int]@);
            assert(sites@.take(i + 1).last() == sites@[i as int]);
        }
        match check_site(cfg, &cfg.workers[i], &sites[i]) {
            Ok(d) => {
                dirs.push(d);
            },
            Err(m) => {
                proof {
                    fault_stays(cfg@, ws, sites@, i + 1);
                }
                return Err(m);
            },
        }
        i += 1;
    }
    assert(ws.take(i as int) =~= ws);
    assert(sites@.take(i as int) =~= sites@);
    let mut r: Vec<Planned> = Vec::new();
    let mut j: usize = 0;
    while j < cfg.workers.len()
        invariant
            j <= cfg.workers@.len(),
            sites@.len() == cfg.workers@.len(),
            dirs@.len() == cfg.workers@.len(),
            now.valid(),
            forall|k: int|
                0 <= k < dirs@.len() ==> stands_at(sites@[k].found, (#[trigger] dirs@[k])@),
            r@.len() == j,
            forall|k: int|
                0 <= k < j ==> planned_well(
                    #[trigger] r@[k],
                    cfg@,
                    cfg@.workers[k],
                    sites@[k],
                    source@,
                    now.text(),
                ),
        decreases cfg.workers@.len() - j,
    {
        let w = &cfg.workers[j];
        let d = &dirs[j];
        assert(cfg@.workers[j as int] == w@);
        assert(d@ == dirs@[j as int]@);
        r.push(plan_worker(cfg, w, d.as_str(), source, now));
        j += 1;
    }
    Ok(r)
}

proof fn fault_stays(c: ConfigModel, ws: Seq<WorkerModel>, sites: Seq<Site>, n: int)
    requires
        0 <= n <= ws.len(),
        ws.len() == sites.len(),
        first_fault(c, ws.take(n), sites.take(n)) is Some,
    ensures
        first_fault(c, ws, sites) == first_fault(c, ws.take(n), sites.take(n)),
    decreases ws.len() - n,
{
    if n < ws.len() {
        assert(ws.take(n + 1).drop_last() =~= ws.take(n));
        assert(sites.take(n + 1).drop_last() =~= sites.take(n));
        fault_stays(c, ws, sites, n + 1);
    } else {
        assert(ws.take(n) =~= ws);
        assert(sites.take(n) =~= sites);
    }
}

// ── Laws ────────────────────────────────────────────────────────────────────
/// A codebase that is marked as belonging to a team does not stand in that team's own way, so
/// that it can be written again.
pub proof fn writing_again_is_allowed(codebase: Seq<char>, source: Seq<char>, team: Seq<char>, worker: Seq<
    char,
>)
    ensures
        competition(codebase, false, Some((team, source)), team, worker) is None,
{
}

/// A codebase that belongs to one team is refused to every other.
pub proof fn codebases_have_one_team(
    codebase: Seq<char>,
    owner: Seq<char>,
    source: Seq<char>,
    team: Seq<char>,
    worker: Seq<char>,
)
    requires
        owner != team,
    ensures
        competition(codebase, false, Some((owner, source)), team, worker) is Some,
{
}

/// A codebase with a project manifest is refused to every team.
pub proof fn codebases_have_one_manifest(
    codebase: Seq<char>,
    owner: Option<(Seq<char>, Seq<char>)>,
    team: Seq<char>,
    worker: Seq<char>,
)
    ensures
        competition(codebase, true, owner, team, worker) is Some,
{
}

/// Everybody but the worker itself is a teammate, in the order of the manifest.
pub proof fn each_teammate_is_listed_alone(
    a: Seq<WorkerModel>,
    b: Seq<WorkerModel>,
    x: WorkerModel,
    me: Seq<char>,
)
    ensures
        others(a + b, me) == others(a, me) + others(b, me),
        others(seq![x], me) == (if x.name == me {
            Seq::empty()
        } else {
            seq![x]
        }),
    decreases b.len(),
{
    let one = seq![x];
    assert(one.drop_last() =~= Seq::<WorkerModel>::empty());
    assert(others(one.drop_last(), me).len() == 0);
    assert(others(one, me) =~= (if x.name == me {
            Seq::empty()
        } else {
            seq![x]
        }));
    if b.len() == 0 {
        assert(a + b =~= a);
        assert(others(a, me) + others(b, me) =~= others(a, me));
    } else {
        each_teammate_is_listed_alone(a, b.drop_last(), x, me);
        assert((a + b).drop_last() =~= a + b.drop_last());
        assert((a + b).last() == b.last());
        assert(others(a + b, me) =~= others(a, me) + others(b, me));
    }
}

/// Every teammate has its row: its name, its role and its codebase.
pub proof fn each_teammate_has_its_row(a: Seq<WorkerModel>, b: Seq<WorkerModel>, x: WorkerModel)
    ensures
        mate_rows(a + b) == mate_rows(a) + mate_rows(b),
        mate_rows(seq![x]) == ("| `"@ + x.name + "` | "@ + x.role + " | `"@ + x.codebase_path + "` |\n"@),
    decreases b.len(),
{
    let one = seq![x];
    assert(one.drop_last() =~= Seq::<WorkerModel>::empty());
    assert(mate_rows(one.drop_last()).len() == 0);
    assert(mate_rows(one) =~= ("| `"@ + x.name + "` | "@ + x.role + " | `"@ + x.codebase_path + "` |\n"@));
    if b.len() == 0 {
        assert(a + b =~= a);
        assert(mate_rows(a) + mate_rows(b) =~= mate_rows(a));
    } else {
        each_teammate_has_its_row(a, b.drop_last(), x);
        assert((a + b).drop_last() =~= a + b.drop_last());
        assert((a + b).last() == b.last());
        assert(mate_rows(a + b) =~= mate_rows(a) + mate_rows(b));
    }
}

/// Every teammate is named in both lists and has its row in the table; without teammates all three
/// say so.
pub proof fn teammates_are_named(mates: Seq<WorkerModel>, i: int)
    ensures
        mates.len() == 0 ==> mate_list(mates) == "_(solo on team)_"@ && sibling_list(mates)
            == "  _(none)_"@ && mate_table(mates) == "_(you are the only worker on this team)_\n"@,
        mates.len() > 0 ==> mate_rows(mates).is_suffix_of(mate_table(mates)),
        0 <= i < mates.len() ==> text::holds(mate_list(mates), "`"@ + mates[i].name + "`"@),
        0 <= i < mates.len() ==> text::holds(
            sibling_list(mates),
            "  - `"@ + mates[i].name + "` at `"@ + mates[i].codebase_path + "/"@ + mates[i].name
                + "/`"@,
        ),
{
    if 0 <= i < mates.len() {
        text::joined_texts_are_held(mate_names(mates), ", "@, i);
        text::joined_texts_are_held(siblings(mates), "\n"@, i);
    }
    if mates.len() > 0 {
        let r = mate_rows(mates);
        let all = mate_table(mates);
        assert(r =~= all.subrange(all.len() - r.len(), all.len() as int));
    }
}

/// What is told of the handoff, the shared data and the start: only where it is configured.
pub proof fn sections_tell_their_value(
    target: Option<Seq<char>>,
    dir: Option<Seq<char>>,
    codebase: Seq<char>,
    model: Option<Seq<char>>,
)
    ensures
        target is None ==> handoff_section(target).len() == 0,
        target matches Some(t) ==> handoff_section(target) == HANDOFF_HEAD@ + t + "`\n"@,
        dir is None ==> shared_line(dir).len() == 0,
        dir matches Some(d) ==> d.len() > 0 ==> text::holds(shared_line(dir), d),
        model matches Some(m) ==> start_line(codebase, model) == "collab worker --workdir "@
            + codebase + " --model "@ + m,
        ("collab worker --workdir "@ + codebase).is_prefix_of(start_line(codebase, model)),
{
    if let Some(d) = dir {
        text::middle_is_held("\nShared data root: `"@, d, "`\n"@);
    }
    let s = start_line(codebase, model);
    let a = "collab worker --workdir "@ + codebase;
    assert(a =~= s.subrange(0, a.len() as int));
}

/// A codebase is free for a worker exactly where it has no manifest of its own and is no other
/// team's.
pub proof fn competition_is_exact(
    codebase: Seq<char>,
    has_workers_yml: bool,
    owner: Option<(Seq<char>, Seq<char>)>,
    team: Seq<char>,
    worker: Seq<char>,
)
    ensures
        competition(codebase, has_workers_yml, owner, team, worker) is None <==> !has_workers_yml
            && (owner is None || (owner->0).0 == team),
        has_workers_yml ==> codebase.is_prefix_of(
            competition(codebase, has_workers_yml, owner, team, worker)->0,
        ),
        !has_workers_yml && owner is Some && (owner->0).0 != team ==> (codebase
            + " is managed by team '"@ + (owner->0).0 + "' (source: "@ + (owner->0).1).is_prefix_of(
            competition(codebase, has_workers_yml, owner, team, worker)->0,
        ),
{
    if has_workers_yml {
        let t = two_manifests(codebase);
        assert(codebase =~= t.subrange(0, codebase.len() as int));
    } else if owner is Some && (owner->0).0 != team {
        let t = two_teams(codebase, (owner->0).0, (owner->0).1, worker);
        let a = codebase + " is managed by team '"@ + (owner->0).0 + "' (source: "@ + (owner->0).1;
        assert(a =~= t.subrange(0, a.len() as int));
    }
}

/// The first worker at fault is told of, and nothing is at fault where nobody is.
pub proof fn the_first_fault_is_told(
    c: ConfigModel,
    a: Seq<WorkerModel>,
    x: Seq<Site>,
    b: Seq<WorkerModel>,
    y: Seq<Site>,
    w: WorkerModel,
    s: Site,
)
    requires
        a.len() == x.len(),
        b.len() == y.len(),
    ensures
        first_fault(c, a + b, x + y) == (if first_fault(c, a, x) is Some {
            first_fault(c, a, x)
        } else {
            first_fault(c, b, y)
        }),
        first_fault(c, seq![w], seq![s]) == site_fault(c, w, s),
    decreases b.len(),
{
    assert(seq![w].drop_last() =~= Seq::<WorkerModel>::empty());
    assert(first_fault(c, seq![w].drop_last(), seq![s].drop_last()) is None);
    if b.len() == 0 {
        assert(a + b =~= a);
        assert(x + y =~= x);
    } else {
        the_first_fault_is_told(c, a, x, b.drop_last(), y.drop_last(), w, s);
        assert((a + b).drop_last() =~= a + b.drop_last());
        assert((x + y).drop_last() =~= x + y.drop_last());
        assert((a + b).last() == b.last() && (x + y).last() == y.last());
    }
}

/// A site is at fault where it is no directory, or where another manifest competes for it.
pub proof fn sites_are_checked(c: ConfigModel, w: WorkerModel, s: Site)
    ensures
        site_fault(c, w, s) is None <==> s.found is Dir && !s.has_workers_yml && (s.marker is None
            || s.marker->0.team@ == c.team),
{
}

/// What is written for a worker: its instructions in a directory of its name, and the mark of the
/// team that owns the codebase.
pub proof fn plans_are_exact(
    p: Planned,
    c: ConfigModel,
    w: WorkerModel,
    dir: Seq<char>,
    source: Seq<char>,
    generated: Seq<char>,
)
    ensures
        planned_at(p, c, w, dir, source, generated) <==> {
            &&& p.codebase@ == dir
            &&& p.agent.path@ == paths::below(paths::below(dir, w.name), "AGENT.md"@)
            &&& p.agent.contents@ == agent_md(c, w, others(c.workers, w.name), source, generated)
            &&& p.marker.team@ == c.team
            &&& p.marker.source@ == source
            &&& p.marker.generated_at@ == generated
        },
{
}

/// A worker's instructions tell the team and its manifest, the worker's name, its role, its codebase,
/// its teammates, the server, how to start, its tasks and whom it hands off to.
pub proof fn instructions_are_whole(
    c: ConfigModel,
    w: WorkerModel,
    mates: Seq<WorkerModel>,
    source: Seq<char>,
    generated: Seq<char>,
)
    ensures
        text::holds(agent_md(c, w, mates, source, generated), c.team),
        text::holds(agent_md(c, w, mates, source, generated), source),
        text::holds(agent_md(c, w, mates, source, generated), generated),
        text::holds(agent_md(c, w, mates, source, generated), w.name),
        text::holds(agent_md(c, w, mates, source, generated), w.role),
        text::holds(agent_md(c, w, mates, source, generated), w.codebase_path),
        text::holds(agent_md(c, w, mates, source, generated), mate_list(mates)),
        text::holds(agent_md(c, w, mates, source, generated), c.server),
        text::holds(agent_md(c, w, mates, source, generated), mate_table(mates)),
        text::holds(agent_md(c, w, mates, source, generated), shared_line(c.shared_data_dir)),
        text::holds(agent_md(c, w, mates, source, generated), start_line(w.codebase_path, team::own_or(w.model, c.model))),
        text::holds(agent_md(c, w, mates, source, generated), init::tasks_section(w.tasks)),
        text::holds(agent_md(c, w, mates, source, generated), handoff_section(w.reports_to)),
        text::holds(agent_md(c, w, mates, source, generated), sibling_list(mates)),
{
    let whole = agent_md(c, w, mates, source, generated);
    let a0 = "<!-- managed-by: team="@;
    let a1 = a0 + c.team;
    let a2 = a1 + ", source="@;
    let a3 = a2 + source;
    let a4 = a3 + ", generated="@;
    let a5 = a4 + generated;
    let a6 = a5 + DO_NOT_EDIT@;
    let a7 = a6 + w.name;
    let a8 = a7 + init::IDENTITY@;
    let a9 = a8 + w.name;
    let a10 = a9 + "**, a worker on team **"@;
    let a11 = a10 + c.team;
    let a12 = a11 + "**.\n\n**Your role:** "@;
    let a13 = a12 + w.role;
    let a14 = a13 + "\n\n**Your codebase:** `"@;
    let a15 = a14 + w.codebase_path;
    let a16 = a15 + "`\n\n**Your teammates:** "@;
    let a17 = a16 + mate_list(mates);
    let a18 = a17 + SETUP@;
    let a19 = a18 + w.name;
    let a20 = a19 + "\nexport COLLAB_SERVER="@;
    let a21 = a20 + c.server;
    let a22 = a21 + TOKEN_HELP@;
    let a23 = a22 + c.team;
    let a24 = a23 + NAMESPACE_HELP@;
    let a25 = a24 + c.team;
    let a26 = a25 + "**.\n\n## Team\n\n"@;
    let a27 = a26 + mate_table(mates);
    let a28 = a27 + shared_line(c.shared_data_dir);
    let a29 = a28 + SESSION_START@;
    let a30 = a29 + c.team;
    let a31 = a30 + START_WORKER@;
    let a32 = a31 + start_line(w.codebase_path, team::own_or(w.model, c.model));
    let a33 = a32 + OUTPUT_RULES@;
    let a34 = a33 + init::tasks_section(w.tasks);
    let a35 = a34 + handoff_section(w.reports_to);
    let a36 = a35 + UPDATING@;
    let a37 = a36 + source;
    let a38 = a37 + DATA@;
    let a39 = a38 + w.codebase_path;
    let a40 = a39 + "/"@;
    let a41 = a40 + w.name;
    let a42 = a41 + TEAMMATE_CODEBASES@;
    let a43 = a42 + sibling_list(mates);
    let a44 = a43 + RULES@;
    text::whole_is_front(whole);
    assert(whole == a44);
    text::front_of_front(a43, RULES@, whole);
    text::front_of_front(a42, sibling_list(mates), whole);
    text::front_of_front(a41, TEAMMATE_CODEBASES@, whole);
    text::front_of_front(a40, w.name, whole);
    text::front_of_front(a39, "/"@, whole);
    text::front_of_front(a38, w.codebase_path, whole);
    text::front_of_front(a37, DATA@, whole);
    text::front_of_front(a36, source, whole);
    text::front_of_front(a35, UPDATING@, whole);
    text::front_of_front(a34, handoff_section(w.reports_to), whole);
    text::front_of_front(a33, init::tasks_section(w.tasks), whole);
    text::front_of_front(a32, OUTPUT_RULES@, whole);
    text::front_of_front(a31, start_line(w.codebase_path, team::own_or(w.model, c.model)), whole);
    text::front_of_front(a30, START_WORKER@, whole);
    text::front_of_front(a29, c.team, whole);
    text::front_of_front(a28, SESSION_START@, whole);
    text::front_of_front(a27, shared_line(c.shared_data_dir), whole);
    text::front_of_front(a26, mate_table(mates), whole);
    text::front_of_front(a25, "**.\n\n## Team\n\n"@, whole);
    text::front_of_front(a24, c.team, whole);
    text::front_of_front(a23, NAMESPACE_HELP@, whole);
    text::front_of_front(a22, c.team, whole);
    text::front_of_front(a21, TOKEN_HELP@, whole);
    text::front_of_front(a20, c.server, whole);
    text::front_of_front(a19, "\nexport COLLAB_SERVER="@, whole);
    text::front_of_front(a18, w.name, whole);
    text::front_of_front(a17, SETUP@, whole);
    text::front_of_front(a16, mate_list(mates), whole);
    text::front_of_front(a15, "`\n\n**Your teammates:** "@, whole);
    text::front_of_front(a14, w.codebase_path, whole);
    text::front_of_front(a13, "\n\n**Your codebase:** `"@, whole);
    text::front_of_front(a12, w.role, whole);
    text::front_of_front(a11, "**.\n\n**Your role:** "@, whole);
    text::front_of_front(a10, c.team, whole);
    text::front_of_front(a9, "**, a worker on team **"@, whole);
    text::front_of_front(a8, w.name, whole);
    text::front_of_front(a7, init::IDENTITY@, whole);
    text::front_of_front(a6, w.name, whole);
    text::front_of_front(a5, DO_NOT_EDIT@, whole);
    text::front_of_front(a4, generated, whole);
    text::front_of_front(a3, ", generated="@, whole);
    text::front_of_front(a2, source, whole);
    text::front_of_front(a1, ", source="@, whole);
    text::part_of_front(a0, c.team, whole);
    text::part_of_front(a2, source, whole);
    text::part_of_front(a4, generated, whole);
    text::part_of_front(a6, w.name, whole);
    text::part_of_front(a12, w.role, whole);
    text::part_of_front(a14, w.codebase_path, whole);
    text::part_of_front(a16, mate_list(mates), whole);
    text::part_of_front(a20, c.server, whole);
    text::part_of_front(a26, mate_table(mates), whole);
    text::part_of_front(a27, shared_line(c.shared_data_dir), whole);
    text::part_of_front(a31, start_line(w.codebase_path, team::own_or(w.model, c.model)), whole);
    text::part_of_front(a33, init::tasks_section(w.tasks), whole);
    text::part_of_front(a34, handoff_section(w.reports_to), whole);
    text::part_of_front(a42, sibling_list(mates), whole);
}

} // verus!
