//! Projects whose workers share one codebase: what each worker is told, and what is recorded for
//! starting and stopping them.
use crate::lifecycle;
use crate::lifecycle::WorkerManifestEntry;
use crate::outside;
use crate::paths;
use crate::team;
use crate::text;
use vstd::prelude::*;

verus! {

/// A worker of a project.
pub struct WorkerConfig {
    pub name: String,
    pub role: String,
    pub tasks: Option<String>,
    pub avatar: Option<String>,
    pub color: Option<u8>,
    pub model: Option<String>,
    pub cli_template: Option<String>,
    /// The command template for short exchanges, where they are to have one of their own.
    pub cli_template_light: Option<String>,
    /// Who is told when this worker has finished a task.
    pub reports_to: Option<String>,
    /// Whom this worker coordinates with.
    pub works_with: Vec<String>,
    /// The older form of the two: the first name is who is told, the others are the rest.
    pub hands_off_to: Vec<String>,
}

/// A project manifest.
pub struct ProjectConfig {
    pub server: String,
    pub output_dir: Option<String>,
    pub shared_data_dir: Option<String>,
    pub codebase_path: Option<String>,
    pub model: Option<String>,
    pub cli_template: Option<String>,
    /// The command template for short exchanges, where they are to have one of their own.
    pub cli_template_light: Option<String>,
    pub workers: Vec<WorkerConfig>,
}

/// The model of a [`WorkerConfig`].
#[verifier::ext_equal]
pub struct WorkerModel {
    pub name: Seq<char>,
    pub role: Seq<char>,
    pub tasks: Option<Seq<char>>,
    pub avatar: Option<Seq<char>>,
    pub color: Option<u8>,
    pub model: Option<Seq<char>>,
    pub cli_template: Option<Seq<char>>,
    pub cli_template_light: Option<Seq<char>>,
    pub reports_to: Option<Seq<char>>,
    pub works_with: Seq<Seq<char>>,
    pub hands_off_to: Seq<Seq<char>>,
}

/// The model of a [`ProjectConfig`].
#[verifier::ext_equal]
pub struct ProjectModel {
    pub server: Seq<char>,
    pub output_dir: Option<Seq<char>>,
    pub shared_data_dir: Option<Seq<char>>,
    pub codebase_path: Option<Seq<char>>,
    pub model: Option<Seq<char>>,
    pub cli_template: Option<Seq<char>>,
    pub cli_template_light: Option<Seq<char>>,
    pub workers: Seq<WorkerModel>,
}

impl View for WorkerConfig {
    type V = WorkerModel;

    open spec fn view(&self) -> WorkerModel {
        WorkerModel {
            name: self.name@,
            role: self.role@,
            tasks: text::opt_text(self.tasks),
            avatar: text::opt_text(self.avatar),
            color: self.color,
            model: text::opt_text(self.model),
            cli_template: text::opt_text(self.cli_template),
            cli_template_light: text::opt_text(self.cli_template_light),
            reports_to: text::opt_text(self.reports_to),
            works_with: text::texts(self.works_with@),
            hands_off_to: text::texts(self.hands_off_to@),
        }
    }
}

/// The models of the workers.
pub open spec fn worker_models(v: Seq<WorkerConfig>) -> Seq<WorkerModel> {
    Seq::new(v.len(), |i: int| v[i]@)
}

impl View for ProjectConfig {
    type V = ProjectModel;

    open spec fn view(&self) -> ProjectModel {
        ProjectModel {
            server: self.server@,
            output_dir: text::opt_text(self.output_dir),
            shared_data_dir: text::opt_text(self.shared_data_dir),
            codebase_path: text::opt_text(self.codebase_path),
            model: text::opt_text(self.model),
            cli_template: text::opt_text(self.cli_template),
            cli_template_light: text::opt_text(self.cli_template_light),
            workers: worker_models(self.workers@),
        }
    }
}

impl ProjectConfig {
    /// A project without shared data and without command templates of its own.
    pub fn new(
        server: String,
        output_dir: Option<String>,
        codebase_path: Option<String>,
        model: Option<String>,
        workers: Vec<WorkerConfig>,
    ) -> (c: ProjectConfig)
        ensures
            c == (ProjectConfig {
                server,
                output_dir,
                shared_data_dir: None,
                codebase_path,
                model,
                cli_template: None,
                cli_template_light: None,
                workers,
            }),
    {
        ProjectConfig {
            server,
            output_dir,
            shared_data_dir: None,
            codebase_path,
            model,
            cli_template: None,
            cli_template_light: None,
            workers,
        }
    }

    /// A manifest that was parsed from the file `path`, with at least one worker in it.
    pub fn from_yaml(parsed: Result<ProjectConfig, String>, path: &str) -> (r: Result<
        ProjectConfig,
        String,
    >)
        ensures
            match parsed {
                Err(e) => r matches Err(m) && m@ == "Invalid YAML in '"@ + path@ + "': "@ + e@,
                Ok(c) => if c.workers@.len() == 0 {
                    r matches Err(m) && m@ == "No workers defined in '"@ + path@ + "'"@
                } else {
                    r == Ok::<ProjectConfig, String>(c)
                },
            },
    {
        match parsed {
            Err(e) => {
                let mut m = text::glue3("Invalid YAML in '", path, "': ");
                m.append(e.as_str());
                Err(m)
            },
            Ok(c) => if c.workers.len() == 0 {
                Err(text::glue3("No workers defined in '", path, "'"))
            } else {
                Ok(c)
            },
        }
    }
}

// ── What a worker is told ───────────────────────────────────────────────────
/// How the identity of a worker is introduced.
pub const IDENTITY: &'static str =
    " \u{2014} Collab Worker\n\n\
     ## Identity\n\n\
     You are **";

/// What the worker is a part of.
pub const COLLABORATION: &'static str =
    "**, a worker instance in a multi-worker collaboration.\n\n\
     **Your role:** ";

/// How a session is set up.
pub const SETUP: &'static str =
    "\n\n\
     ## Setup (COPY-PASTE THIS AT SESSION START)\n\n\
     Before running any `collab` commands, set these three environment variables:\n\n\
     ```bash\n\
     export COLLAB_INSTANCE=";

/// Where the token comes from.
pub const TOKEN_HELP: &'static str =
    "\n\
     export COLLAB_TOKEN=\"<your-token-from-human>\"\n\
     ```\n\n\
     **Do this every session.** Add to your shell profile if you want to skip it later, but \
     start with copy-paste so you learn the three required variables.\n\n\
     \u{1f4a1} **Where to get COLLAB_TOKEN:** Ask your team lead \u{2014} it's generated when the server \
     starts. Keep it secret.\n\n\
     ## Team\n\n";

/// What is done at the start of a session.
pub const SESSION_START: &'static str =
    "\n\
     ## Session Start\n\n\
     Run these in order at the start of every session:\n\n\
     **1. Check for pending messages and tasks:**\n\
     ```bash\n\
     collab status\n\
     collab todo list\n\
     ```\n\n\
     Pending tasks assigned to you survive context resets \u{2014} they stay in your queue until you \
     explicitly mark them done.\n\n\
     **2. Run the event-driven worker:**\n\n\
     Start the headless worker to listen for messages and respond automatically. Run this \
     **after** setting env vars (step 1):\n\
     ```bash\n";

/// What the worker needs, and what else can be started.
pub const AFTER_START: &'static str =
    "\n\
     ```\n\n\
     This spawns your configured CLI tool on demand when messages arrive, batches rapid \
     bursts, auto-replies to trivial messages, and maintains state across restarts. \
     **IMPORTANT:** The worker needs:\n\
     - Your environment variables set (step 1) \u{2713}\n\
     - Your CLI tool installed and in your PATH (configured via `cli_template` in \
     workers.yaml)\n\
     - A working internet connection to collab server\n\n\
     If the worker fails silently, check `/tmp/collab-worker-errors.log` for diagnosis.\n\n\
     **3. Stream for the web dashboard (optional but recommended):**\n\
     ```bash\n\
     collab stream --role \"";

/// What a worker may put out.
pub const OUTPUT_RULES: &'static str =
    "\"\n\
     ```\n\n\
     Keeps your role visible in the roster and feeds the web dashboard.\n\n\
     **4. Stop condition:**\n\n\
     When a stop signal arrives via `collab list`, send a final summary and finish:\n\
     ```bash\n\
     collab broadcast \"Shutting down: <brief summary of work done>\"\n\
     ```\n\n\
     ## Output JSON \u{2014} STRICT RULES\n\n\
     Your final output must be ONLY a JSON object. Do NOT use `collab add`, `collab todo add`, \
     or `collab broadcast` \u{2014} the harness delivers those from your JSON output. Read commands \
     (`collab status`, `collab todo list`, `collab whoami`) are fine if you need to verify \
     state.\n\n\
     - **`response`**: Reply to the sender only if they asked a direct question. Otherwise \
     `null`.\n\
     - **`delegate`**: Assign tasks to teammates. One entry per task. Description must be \
     fully self-contained.\n\
     - **`messages`**: **Always `null`.** Never send status updates, confirmations, or \
     narration.\n\
     - **`completed_tasks`**: **REQUIRED when you finish work.** Include the hash of every \
     task you completed this turn. Never leave finished tasks open.\n\
     - **`continue`**: Set `true` to keep working autonomously (multi-step tasks), `false` \
     when done or blocked.\n\
     - **`state_update`**: One-line status only (e.g. `{\"status\": \"assigned routing task to \
     @d4-web\"}`).\n\n";

/// How tasks are closed.
pub const TASK_QUEUE: &'static str =
    "## Task Queue\n\n\
     Your pending tasks survive context resets. Check them with `collab todo list` (bash \
     tool).\n\n\
     **When you finish a task, you MUST include its hash in `completed_tasks` in your JSON \
     output.** Do not leave finished tasks open \u{2014} they pile up and confuse the team. If you \
     completed multiple tasks in one turn, list all their hashes.\n\n";

/// What a worker has to keep to.
pub const RULES: &'static str =
    "## Rules\n\n\
     Follow these without exception:\n\n\
     1. **Only act on explicit instructions.** Do not invent tasks. Only assign what you were \
     directly told to assign.\n\n\
     2. **One delegate entry per task.** Never send the same task twice.\n\n\
     3. **`messages` is always null.** No status updates, no confirmations, no summaries. \
     Ever.\n\n\
     4. **`continue` is true while you have more work to do, false when done or blocked.**\n\n\
     5. **`response` is null unless the sender asked you a direct question.** Do not \
     acknowledge or summarize.\n\n\
     6. **Be specific when delegating.** File paths, exact requirements \u{2014} not vague \
     descriptions.\n\n\
     7. **Finish one task before starting the next.**\n\n\
     8. **Mask PII.** Redact names, emails, IDs with `[NAME]`, `[EMAIL]`, `[ID]`.\n";

/// What is said of data, before the worker's own directory.
pub const DATA_HEAD: &'static str =
    "## Data\n\n\
     **Check the filesystem before asking a teammate.** Large data lives on disk \u{2014} \
     messages are for coordination only (\"I finished X\", \"blocked on Y\").\n\n\
     Your output directory: `";

/// What is done where the shared data cannot be reached.
pub const DATA_FALLBACK: &'static str =
    "\n\nIf `shared_data_dir` is unreachable (e.g. network share down), fall back to \
     reading from sibling directories under `";

/// The workers other than `me`.
pub open spec fn others(ws: Seq<WorkerModel>, me: Seq<char>) -> Seq<WorkerModel>
    decreases ws.len(),
{
    if ws.len() == 0 {
        Seq::empty()
    } else if ws.last().name != me {
        others(ws.drop_last(), me).push(ws.last())
    } else {
        others(ws.drop_last(), me)
    }
}

/// The names and roles of the others.
pub open spec fn mate_rows(mates: Seq<WorkerModel>) -> Seq<char>
    decreases mates.len(),
{
    if mates.len() == 0 {
        Seq::empty()
    } else {
        mate_rows(mates.drop_last()) + "| `"@ + mates.last().name + "` | "@ + mates.last().role
            + " |\n"@
    }
}

/// The table of the others.
pub open spec fn mate_table(mates: Seq<WorkerModel>) -> Seq<char> {
    if mates.len() == 0 {
        "_(no other workers configured)_\n"@
    } else {
        "| Instance | Role |\n|----------|------|\n"@ + mate_rows(mates)
    }
}

/// The names of the others, each as code.
pub open spec fn mate_names(mates: Seq<WorkerModel>) -> Seq<Seq<char>> {
    Seq::new(mates.len(), |i: int| "`"@ + mates[i].name + "`"@)
}

/// The list of the others.
pub open spec fn mate_list(mates: Seq<WorkerModel>) -> Seq<char> {
    if mates.len() == 0 {
        "_(solo)_"@
    } else {
        text::joined(mate_names(mates), ", "@)
    }
}

/// The directories of the others.
pub open spec fn mate_dirs(mates: Seq<WorkerModel>, root: Seq<char>) -> Seq<Seq<char>> {
    Seq::new(mates.len(), |i: int| "  "@ + root + "/"@ + mates[i].name + "/"@)
}

/// What is said of the tasks of a worker.
pub open spec fn tasks_section(tasks: Option<Seq<char>>) -> Seq<char> {
    match tasks {
        Some(t) => "## Your Tasks\n\n"@ + text::trimmed(t) + "\n\n"@,
        None => Seq::empty(),
    }
}

/// Where the data of the workers stands: in the shared directory, else in the output directory.
pub open spec fn data_root(shared: Option<Seq<char>>, output_dir: Seq<char>) -> Seq<char> {
    match shared {
        Some(s) => s,
        None => output_dir,
    }
}

/// What is said of data.
pub open spec fn data_section(
    mates: Seq<WorkerModel>,
    name: Seq<char>,
    shared: Option<Seq<char>>,
    output_dir: Seq<char>,
) -> Seq<char> {
    let root = data_root(shared, output_dir);
    DATA_HEAD@ + root + "/"@ + name + "/`\n\nSibling worker data:\n"@ + (if mates.len() == 0 {
        "  _(no other workers)_"@
    } else {
        text::joined(mate_dirs(mates, root), "\n"@)
    }) + DATA_FALLBACK@ + output_dir + "/`.\n\n"@
}

/// How the worker is started.
pub open spec fn worker_command(codebase: Option<Seq<char>>, model: Seq<char>) -> Seq<char> {
    "collab worker --workdir "@ + (match codebase {
        Some(p) => p,
        None => "<path-to-shared-codebase>"@,
    }) + " --model "@ + model
}

/// What a worker is told.
pub open spec fn claude_md(
    w: WorkerModel,
    mates: Seq<WorkerModel>,
    server: Seq<char>,
    codebase: Option<Seq<char>>,
    model: Seq<char>,
    shared: Option<Seq<char>>,
    output_dir: Seq<char>,
) -> Seq<char> {
    "# "@ + w.name + IDENTITY@ + w.name + COLLABORATION@ + w.role + "\n\n**Your teammates:** "@ + mate_list(mates) + SETUP@ + w.name + "\nexport COLLAB_SERVER="@ + server + TOKEN_HELP@ + mate_table(mates) + SESSION_START@ + worker_command(codebase, model) + AFTER_START@ + w.role + OUTPUT_RULES@ + tasks_section(w.tasks) + TASK_QUEUE@ + data_section(mates, w.name, shared, output_dir) + RULES@
}

fn copy_worker(w: &WorkerConfig) -> (r: WorkerConfig)
    ensures
        r@ == w@,
{
    let r = WorkerConfig {
        name: w.name.clone(),
        role: w.role.clone(),
        tasks: text::copy_opt(&w.tasks),
        avatar: text::copy_opt(&w.avatar),
        color: w.color,
        model: text::copy_opt(&w.model),
        cli_template: text::copy_opt(&w.cli_template),
        cli_template_light: text::copy_opt(&w.cli_template_light),
        reports_to: text::copy_opt(&w.reports_to),
        works_with: text::copy_list(&w.works_with),
        hands_off_to: text::copy_list(&w.hands_off_to),
    };
    assert(r@ =~= w@);
    r
}

fn mates_of(all: &Vec<WorkerConfig>, me: &str) -> (r: Vec<WorkerConfig>)
    ensures
        worker_models(r@) == others(worker_models(all@), me@),
{
    let ghost ms = worker_models(all@);
    let mut r: Vec<WorkerConfig> = Vec::new();
    let mut i: usize = 0;
    assert(worker_models(r@) =~= others(ms.take(0), me@));
    while i < all.len()
        invariant
            i <= all@.len(),
            ms == worker_models(all@),
            worker_models(r@) == others(ms.take(i as int), me@),
        decreases all@.len() - i,
    {
        assert(ms.take(i + 1).drop_last() =~= ms.take(i as int));
        assert(ms.take(i + 1).last() == all@[i as int]@);
        if !text::same(all[i].name.as_str(), me) {
            let ghost before = r@;
            r.push(copy_worker(&all[i]));
            assert(worker_models(r@) =~= worker_models(before).push(all@[i as int]@));
        }
        i += 1;
    }
    assert(ms.take(i as int) =~= ms);
    r
}

fn table_text(mates: &Vec<WorkerConfig>) -> (r: String)
    ensures
        r@ == mate_table(worker_models(mates@)),
{
    if mates.len() == 0 {
        return "_(no other workers configured)_\n".to_owned();
    }
    let ghost ms = worker_models(mates@);
    let mut rows = String::new();
    let mut i: usize = 0;
    assert(ms.take(0) =~= Seq::<WorkerModel>::empty());
    assert(rows@ =~= mate_rows(ms.take(0)));
    while i < mates.len()
        invariant
            i <= mates@.len(),
            ms == worker_models(mates@),
            rows@ == mate_rows(ms.take(i as int)),
        decreases mates@.len() - i,
    {
        assert(ms.take(i + 1).drop_last() =~= ms.take(i as int));
        assert(ms.take(i + 1).last() == mates@[i as int]@);
        rows.append("| `");
        rows.append(mates[i].name.as_str());
        rows.append("` | ");
        rows.append(mates[i].role.as_str());
        rows.append(" |\n");
        i += 1;
    }
    assert(ms.take(i as int) =~= ms);
    text::glue("| Instance | Role |\n|----------|------|\n", rows.as_str())
}

fn list_text(mates: &Vec<WorkerConfig>) -> (r: String)
    ensures
        r@ == mate_list(worker_models(mates@)),
{
    if mates.len() == 0 {
        return "_(solo)_".to_owned();
    }
    let ghost want = mate_names(worker_models(mates@));
    let mut names: Vec<String> = Vec::new();
    let mut i: usize = 0;
    while i < mates.len()
        invariant
            i <= mates@.len(),
            want == mate_names(worker_models(mates@)),
            names@.len() == i,
            forall|k: int| 0 <= k < i ==> (#[trigger] names@[k])@ == want[k],
        decreases mates@.len() - i,
    {
        names.push(text::glue3("`", mates[i].name.as_str(), "`"));
        i += 1;
    }
    assert(text::texts(names@) =~= want);
    text::join(&names, ", ")
}

fn dirs_text(mates: &Vec<WorkerConfig>, root: &str) -> (r: String)
    ensures
        r@ == text::joined(mate_dirs(worker_models(mates@), root@), "\n"@),
{
    let ghost want = mate_dirs(worker_models(mates@), root@);
    let mut dirs: Vec<String> = Vec::new();
    let mut i: usize = 0;
    while i < mates.len()
        invariant
            i <= mates@.len(),
            want == mate_dirs(worker_models(mates@), root@),
            dirs@.len() == i,
            forall|k: int| 0 <= k < i ==> (#[trigger] dirs@[k])@ == want[k],
        decreases mates@.len() - i,
    {
        let mut d = text::glue3("  ", root, "/");
        d.append(mates[i].name.as_str());
        d.append("/");
        dirs.push(d);
        i += 1;
    }
    assert(text::texts(dirs@) =~= want);
    text::join(&dirs, "\n")
}

/// What is said of the tasks of a worker.
pub fn tasks_text(tasks: &Option<String>) -> (r: String)
    ensures
        r@ == tasks_section(text::opt_text(*tasks)),
{
    match tasks {
        Some(t) => text::glue3("## Your Tasks\n\n", text::trim(t.as_str()).as_str(), "\n\n"),
        None => {
            let r = String::new();
            assert(r@ =~= Seq::<char>::empty());
            r
        },
    }
}

fn data_text(
    mates: &Vec<WorkerConfig>,
    name: &str,
    shared: &Option<String>,
    output_dir: &str,
) -> (r: String)
    ensures
        r@ == data_section(worker_models(mates@), name@, text::opt_text(*shared), output_dir@),
{
    let root = match shared {
        Some(s) => s.as_str(),
        None => output_dir,
    };
    let mut r = text::glue3(DATA_HEAD, root, "/");
    r.append(name);
    r.append("/`\n\nSibling worker data:\n");
    if mates.len() == 0 {
        r.append("  _(no other workers)_");
    } else {
        r.append(dirs_text(mates, root).as_str());
    }
    r.append(DATA_FALLBACK);
    r.append(output_dir);
    r.append("/`.\n\n");
    r
}

/// What a worker is told.
pub fn render_claude_md(
    worker: &WorkerConfig,
    all: &Vec<WorkerConfig>,
    server: &str,
    codebase_path: &Option<String>,
    model: &str,
    shared_data_dir: &Option<String>,
    output_dir: &str,
) -> (r: String)
    ensures
        r@ == claude_md(
            worker@,
            others(worker_models(all@), worker@.name),
            server@,
            text::opt_text(*codebase_path),
            model@,
            text::opt_text(*shared_data_dir),
            output_dir@,
        ),
{
    let mates = mates_of(all, worker.name.as_str());
    let list = list_text(&mates);
    let table = table_text(&mates);
    let tasks = tasks_text(&worker.tasks);
    let data = data_text(&mates, worker.name.as_str(), shared_data_dir, output_dir);
    let workdir = match codebase_path {
        Some(p) => p.as_str(),
        None => "<path-to-shared-codebase>",
    };
    let mut command = text::glue3("collab worker --workdir ", workdir, " --model ");
    command.append(model);
    let mut r = String::new();
    assert(r@ + "# "@ =~= "# "@);
    r.append("# ");
    r.append(worker.name.as_str());
    r.append(IDENTITY);
    r.append(worker.name.as_str());
    r.append(COLLABORATION);
    r.append(worker.role.as_str());
    r.append("\n\n**Your teammates:** ");
    r.append(list.as_str());
    r.append(SETUP);
    r.append(worker.name.as_str());
    r.append("\nexport COLLAB_SERVER=");
    r.append(server);
    r.append(TOKEN_HELP);
    r.append(table.as_str());
    r.append(SESSION_START);
    r.append(command.as_str());
    r.append(AFTER_START);
    r.append(worker.role.as_str());
    r.append(OUTPUT_RULES);
    r.append(tasks.as_str());
    r.append(TASK_QUEUE);
    r.append(data.as_str());
    r.append(RULES);
    r
}

// ── What is recorded ────────────────────────────────────────────────────────
/// The command template of a worker that names none and whose project names none.
pub const MANIFEST_CLI_TEMPLATE: &'static str = "{agent} -p {prompt} --model {model}";

/// What is one's own, else what is common, else nothing to say.
pub open spec fn own_or_none(own: Option<Seq<char>>, common: Option<Seq<char>>) -> Seq<char> {
    match team::own_or(own, common) {
        Some(x) => x,
        None => Seq::empty(),
    }
}

fn own_or_common(own: &Option<String>, common: &Option<String>) -> (r: Option<String>)
    ensures
        text::opt_text(r) == team::own_or(text::opt_text(*own), text::opt_text(*common)),
{
    if own.is_some() {
        text::copy_opt(own)
    } else {
        text::copy_opt(common)
    }
}

fn or_empty(o: Option<String>) -> (r: String)
    ensures
        r@ == (match text::opt_text(o) {
            Some(x) => x,
            None => Seq::empty(),
        }),
{
    match o {
        Some(x) => x,
        None => {
            let r = String::new();
            assert(r@ =~= Seq::<char>::empty());
            r
        },
    }
}

/// Where everything is written where nobody says otherwise.
pub const WORKERS_DIR: &'static str = "./workers";

/// Where everything is written: where the caller says, else where the manifest says, else below
/// the directory for workers here.
pub open spec fn base_dir(given: Option<Seq<char>>, configured: Option<Seq<char>>) -> Seq<char> {
    match team::own_or(given, configured) {
        Some(d) => d,
        None => WORKERS_DIR@,
    }
}

/// The directory of a worker, as seen from the directory `cwd`.
pub open spec fn worker_dir(base: Seq<char>, name: Seq<char>, cwd: Option<Seq<char>>) -> Seq<char> {
    let clean = match text::after_prefix(base, "./"@) {
        Some(rest) => rest,
        None => base,
    };
    let rel = paths::below(clean, name);
    match cwd {
        Some(d) => paths::below(d, rel),
        None => rel,
    }
}

/// What is recorded of a worker.
pub open spec fn entry_of(
    c: ProjectModel,
    w: WorkerModel,
    base: Seq<char>,
    cwd: Option<Seq<char>>,
) -> lifecycle::EntryModel {
    lifecycle::EntryModel {
        name: w.name,
        role: w.role,
        codebase_path: match team::own_or(c.codebase_path, cwd) {
            Some(p) => p,
            None => "."@,
        },
        model: own_or_none(w.model, c.model),
        output_dir: worker_dir(base, w.name, cwd),
        cli_template: match team::own_or(w.cli_template, c.cli_template) {
            Some(t) => Some(t),
            None => Some(MANIFEST_CLI_TEMPLATE@),
        },
        cli_template_light: team::own_or(w.cli_template_light, c.cli_template_light),
        reports_to: w.reports_to,
        works_with: w.works_with,
        hands_off_to: w.hands_off_to,
        shared_data_dir: match c.shared_data_dir {
            Some(d) => Some(d),
            None => Some(base),
        },
    }
}

/// What is recorded of the workers of a project.
pub fn worker_manifest(config: &ProjectConfig, base: &str, cwd: &Option<String>) -> (r: Vec<
    WorkerManifestEntry,
>)
    ensures
        r@.len() == config.workers@.len(),
        forall|i: int|
            0 <= i < r@.len() ==> (#[trigger] r@[i])@ == entry_of(
                config@,
                config@.workers[i],
                base@,
                text::opt_text(*cwd),
            ),
{
    let mut r: Vec<WorkerManifestEntry> = Vec::new();
    let mut i: usize = 0;
    while i < config.workers.len()
        invariant
            i <= config.workers@.len(),
            r@.len() == i,
            forall|k: int|
                0 <= k < i ==> (#[trigger] r@[k])@ == entry_of(
                    config@,
                    config@.workers[k],
                    base@,
                    text::opt_text(*cwd),
                ),
        decreases config.workers@.len() - i,
    {
        let w = &config.workers[i];
        let codebase_path = match own_or_common(&config.codebase_path, cwd) {
            Some(p) => p,
            None => ".".to_owned(),
        };
        let cli_template = match own_or_common(&w.cli_template, &config.cli_template) {
            Some(t) => Some(t),
            None => Some(MANIFEST_CLI_TEMPLATE.to_owned()),
        };
        let clean = match text::strip_prefix(base, "./") {
            Some(rest) => rest,
            None => base.to_owned(),
        };
        let rel = paths::join(clean.as_str(), w.name.as_str());
        let output_dir = match cwd {
            Some(d) => paths::join(d.as_str(), rel.as_str()),
            None => rel,
        };
        let shared_data_dir = match &config.shared_data_dir {
            Some(d) => Some(d.clone()),
            None => Some(base.to_owned()),
        };
        let e = WorkerManifestEntry {
            name: w.name.clone(),
            role: w.role.clone(),
            codebase_path,
            model: or_empty(own_or_common(&w.model, &config.model)),
            output_dir,
            cli_template,
            cli_template_light: own_or_common(&w.cli_template_light, &config.cli_template_light),
            reports_to: text::copy_opt(&w.reports_to),
            works_with: text::copy_list(&w.works_with),
            hands_off_to: text::copy_list(&w.hands_off_to),
            shared_data_dir,
        };
        assert(config@.workers[i as int] == w@);
        assert(e@ =~= entry_of(config@, w@, base@, text::opt_text(*cwd)));
        r.push(e);
        i += 1;
    }
    r
}

/// How many accent colours there are.
pub const COLORS: usize = 5;

/// What the dashboard is told of a worker: the style of its picture and its colour, which goes by
/// its place where it names none.
pub open spec fn dashboard_entry(w: WorkerModel, place: int) -> Seq<char> {
    "    "@ + outside::json_quoted(w.name) + ": {\"avatar\": \""@ + (match w.avatar {
        Some(a) => a,
        None => "neutral"@,
    }) + "\", \"color\": "@ + text::decimal(
        match w.color {
            Some(c) => c as nat,
            None => (place % COLORS as int) as nat,
        },
    ) + "}"@
}

/// What the dashboard is told of the workers.
pub open spec fn dashboard_entries(ws: Seq<WorkerModel>) -> Seq<Seq<char>> {
    Seq::new(ws.len(), |i: int| dashboard_entry(ws[i], i))
}

/// What the dashboard is told of a project.
pub open spec fn dashboard(ws: Seq<WorkerModel>) -> Seq<char> {
    "{\n  \"workers\": {\n"@ + text::joined(dashboard_entries(ws), ",\n"@) + "\n  }\n}\n"@
}

/// What the dashboard is told of a project.
pub fn dashboard_config(workers: &Vec<WorkerConfig>) -> (r: String)
    ensures
        r@ == dashboard(worker_models(workers@)),
{
    let ghost want = dashboard_entries(worker_models(workers@));
    let mut entries: Vec<String> = Vec::new();
    let mut i: usize = 0;
    while i < workers.len()
        invariant
            i <= workers@.len(),
            want == dashboard_entries(worker_models(workers@)),
            entries@.len() == i,
            forall|k: int| 0 <= k < i ==> (#[trigger] entries@[k])@ == want[k],
        decreases workers@.len() - i,
    {
        let w = &workers[i];
        let mut e = text::glue3(
            "    ",
            outside::json_quote(w.name.as_str()).as_str(),
            ": {\"avatar\": \"",
        );
        match &w.avatar {
            Some(a) => {
                e.append(a.as_str());
            },
            None => {
                e.append("neutral");
            },
        }
        e.append("\", \"color\": ");
        match w.color {
            Some(c) => {
                e.append(text::number(c as u64).as_str());
            },
            None => {
                e.append(text::count(i % COLORS).as_str());
            },
        }
        e.append("}");
        assert(want[i as int] == dashboard_entry(w@, i as int));
        assert(e@ == dashboard_entry(w@, i as int));
        entries.push(e);
        i += 1;
    }
    assert(text::texts(entries@) =~= want);
    text::glue3(
        "{\n  \"workers\": {\n",
        text::join(&entries, ",\n").as_str(),
        "\n  }\n}\n",
    )
}

/// A file to be written.
pub struct NewFile {
    pub path: String,
    pub contents: String,
}

/// What is written for a project.
pub struct ProjectPlan {
    pub base: String,
    /// What each worker is told.
    pub agents: Vec<NewFile>,
    /// What is recorded for starting and stopping.
    pub manifest: Vec<WorkerManifestEntry>,
    /// Where that is recorded: here, wherever everything else is written.
    pub manifest_path: String,
    /// What the dashboard is told.
    pub dashboard: NewFile,
}

/// The file that tells a worker what to do.
pub const AGENT_FILE: &'static str = "AGENT.md";

/// Where the workers of a project are recorded.
pub const MANIFEST_PATH: &'static str = ".collab/workers.json";

/// Decides what is written for a project: below the directory `output_dir`, where one is given,
/// and with `cwd` as the directory that the caller is in.
pub fn generate(config: &ProjectConfig, output_dir: &Option<String>, cwd: &Option<String>) -> (r:
    ProjectPlan)
    ensures
        r.base@ == base_dir(text::opt_text(*output_dir), config@.output_dir),
        r.agents@.len() == config@.workers.len(),
        forall|i: int|
            0 <= i < r.agents@.len() ==> (#[trigger] r.agents@[i]).path@ == paths::below(
                paths::below(r.base@, config@.workers[i].name),
                AGENT_FILE@,
            ) && r.agents@[i].contents@ == claude_md(
                config@.workers[i],
                others(config@.workers, config@.workers[i].name),
                config@.server,
                config@.codebase_path,
                own_or_none(config@.workers[i].model, config@.model),
                config@.shared_data_dir,
                r.base@,
            ),
        r.manifest@.len() == config@.workers.len(),
        forall|i: int|
            0 <= i < r.manifest@.len() ==> (#[trigger] r.manifest@[i])@ == entry_of(
                config@,
                config@.workers[i],
                r.base@,
                text::opt_text(*cwd),
            ),
        r.manifest_path@ == MANIFEST_PATH@,
        r.dashboard.path@ == paths::below(r.base@, "dashboard-config.json"@),
        r.dashboard.contents@ == dashboard(config@.workers),
{
    let base = match own_or_common(output_dir, &config.output_dir) {
        Some(d) => d,
        None => WORKERS_DIR.to_owned(),
    };
    let mut agents: Vec<NewFile> = Vec::new();
    let mut i: usize = 0;
    while i < config.workers.len()
        invariant
            i <= config.workers@.len(),
            agents@.len() == i,
            forall|k: int|
                0 <= k < i ==> (#[trigger] agents@[k]).path@ == paths::below(
                    paths::below(base@, config@.workers[k].name),
                    AGENT_FILE@,
                ) && agents@[k].contents@ == claude_md(
                    config@.workers[k],
                    others(config@.workers, config@.workers[k].name),
                    config@.server,
                    config@.codebase_path,
                    own_or_none(config@.workers[k].model, config@.model),
                    config@.shared_data_dir,
                    base@,
                ),
        decreases config.workers@.len() - i,
    {
        let w = &config.workers[i];
        assert(config@.workers[i as int] == w@);
        let dir = paths::join(base.as_str(), w.name.as_str());
        let model = or_empty(own_or_common(&w.model, &config.model));
        let contents = render_claude_md(
            w,
            &config.workers,
            config.server.as_str(),
            &config.codebase_path,
            model.as_str(),
            &config.shared_data_dir,
            base.as_str(),
        );
        agents.push(NewFile { path: paths::join(dir.as_str(), AGENT_FILE), contents });
        i += 1;
    }
    let manifest = worker_manifest(config, base.as_str(), cwd);
    let dashboard = NewFile {
        path: paths::join(base.as_str(), "dashboard-config.json"),
        contents: dashboard_config(&config.workers),
    };
    ProjectPlan { base, agents, manifest, manifest_path: MANIFEST_PATH.to_owned(), dashboard }
}

// ── Laws ────────────────────────────────────────────────────────────────────
/// The others are exactly the workers with another name, in their order.
pub proof fn others_are_the_rest(ws: Seq<WorkerModel>, me: Seq<char>, w: WorkerModel)
    ensures
        others(ws, me).contains(w) <==> ws.contains(w) && w.name != me,
    decreases ws.len(),
{
    if ws.len() > 0 {
        let init = ws.drop_last();
        let r = others(init, me);
        let all = others(ws, me);
        others_are_the_rest(init, me, w);
        if all.contains(w) {
            let i = choose|i: int| 0 <= i < all.len() && all[i] == w;
            if i < r.len() {
                assert(r[i] == w);
                assert(r.contains(w));
                let j = choose|j: int| 0 <= j < init.len() && init[j] == w;
                assert(ws[j] == w);
            } else {
                assert(ws[ws.len() - 1] == w);
            }
        }
        if ws.contains(w) && w.name != me {
            let i = choose|i: int| 0 <= i < ws.len() && ws[i] == w;
            if i < init.len() {
                assert(init[i] == w);
                let j = choose|j: int| 0 <= j < r.len() && r[j] == w;
                assert(all[j] == w);
            } else {
                assert(all[all.len() - 1] == w);
            }
        }
    }
}

/// Everybody but the worker itself is a teammate, in the order of the manifest.
pub proof fn each_teammate_is_listed_alone(
    a: Seq<WorkerModel>,
    b: Seq<WorkerModel>,
    x: WorkerModel,
    me: Seq<char>,
)
    ensures
        others(a + b, me) == others(a, me) + others(b, me),
        others(seq![x], me) == (if x.name == me {
            Seq::empty()
        } else {
            seq![x]
        }),
    decreases b.len(),
{
    let one = seq![x];
    assert(one.drop_last() =~= Seq::<WorkerModel>::empty());
    assert(others(one.drop_last(), me).len() == 0);
    assert(others(one, me) =~= (if x.name == me {
            Seq::empty()
        } else {
            seq![x]
        }));
    if b.len() == 0 {
        assert(a + b =~= a);
        assert(others(a, me) + others(b, me) =~= others(a, me));
    } else {
        each_teammate_is_listed_alone(a, b.drop_last(), x, me);
        assert((a + b).drop_last() =~= a + b.drop_last());
        assert((a + b).last() == b.last());
        assert(others(a + b, me) =~= others(a, me) + others(b, me));
    }
}

/// Every teammate has its row: its name and its role.
pub proof fn each_teammate_has_its_row(a: Seq<WorkerModel>, b: Seq<WorkerModel>, x: WorkerModel)
    ensures
        mate_rows(a + b) == mate_rows(a) + mate_rows(b),
        mate_rows(seq![x]) == ("| `"@ + x.name + "` | "@ + x.role + " |\n"@),
    decreases b.len(),
{
    let one = seq![x];
    assert(one.drop_last() =~= Seq::<WorkerModel>::empty());
    assert(mate_rows(one.drop_last()).len() == 0);
    assert(mate_rows(one) =~= ("| `"@ + x.name + "` | "@ + x.role + " |\n"@));
    if b.len() == 0 {
        assert(a + b =~= a);
        assert(mate_rows(a) + mate_rows(b) =~= mate_rows(a));
    } else {
        each_teammate_has_its_row(a, b.drop_last(), x);
        assert((a + b).drop_last() =~= a + b.drop_last());
        assert((a + b).last() == b.last());
        assert(mate_rows(a + b) =~= mate_rows(a) + mate_rows(b));
    }
}

/// Every teammate is named in the list and has its row in the table; without teammates both say so.
pub proof fn teammates_are_named(mates: Seq<WorkerModel>, root: Seq<char>, i: int)
    ensures
        mates.len() == 0 ==> mate_list(mates) == "_(solo)_"@ && mate_table(mates)
            == "_(no other workers configured)_\n"@,
        mates.len() > 0 ==> mate_rows(mates).is_suffix_of(mate_table(mates)),
        0 <= i < mates.len() ==> text::holds(mate_list(mates), "`"@ + mates[i].name + "`"@),
        0 <= i < mates.len() ==> mate_dirs(mates, root)[i] == "  "@ + root + "/"@ + mates[i].name
            + "/"@,
        mate_dirs(mates, root).len() == mates.len(),
{
    if 0 <= i < mates.len() {
        text::joined_texts_are_held(mate_names(mates), ", "@, i);
    }
    if mates.len() > 0 {
        let r = mate_rows(mates);
        let all = mate_table(mates);
        assert(r =~= all.subrange(all.len() - r.len(), all.len() as int));
    }
}

/// Data stand in the shared directory where there is one, else in the output directory; the worker's
/// own and its teammates' are named.
pub proof fn data_have_their_place(
    mates: Seq<WorkerModel>,
    name: Seq<char>,
    shared: Option<Seq<char>>,
    output_dir: Seq<char>,
    i: int,
)
    ensures
        shared is Some ==> data_root(shared, output_dir) == shared->0,
        shared is None ==> data_root(shared, output_dir) == output_dir,
        0 <= i < mates.len() ==> text::holds(
            data_section(mates, name, shared, output_dir),
            "  "@ + data_root(shared, output_dir) + "/"@ + mates[i].name + "/"@,
        ),
        (DATA_HEAD@ + data_root(shared, output_dir) + "/"@ + name).is_prefix_of(
            data_section(mates, name, shared, output_dir),
        ),
{
    let root = data_root(shared, output_dir);
    let whole = data_section(mates, name, shared, output_dir);
    let list = if mates.len() == 0 {
        "  _(no other workers)_"@
    } else {
        text::joined(mate_dirs(mates, root), "\n"@)
    };
    let a = DATA_HEAD@ + root + "/"@ + name;
    let b = a + "/`\n\nSibling worker data:\n"@;
    let c = b + list;
    let d = c + DATA_FALLBACK@;
    let e = d + output_dir;
    text::whole_is_front(whole);
    assert(whole == e + "/`.\n\n"@);
    text::front_of_front(e, "/`.\n\n"@, whole);
    text::front_of_front(d, output_dir, whole);
    text::front_of_front(c, DATA_FALLBACK@, whole);
    text::part_of_front(b, list, whole);
    text::front_of_front(b, list, whole);
    text::front_of_front(a, "/`\n\nSibling worker data:\n"@, whole);
    if 0 <= i < mates.len() {
        text::joined_texts_are_held(mate_dirs(mates, root), "\n"@, i);
        text::held_through(whole, list, "  "@ + root + "/"@ + mates[i].name + "/"@);
    }
}

/// Tasks are told without the blanks round them, and only where there are any.
pub proof fn tasks_are_told(tasks: Option<Seq<char>>)
    ensures
        tasks is None ==> tasks_section(tasks).len() == 0,
        tasks matches Some(t) ==> text::holds(tasks_section(tasks), text::trimmed(t)),
{
    if let Some(t) = tasks {
        text::middle_is_held("## Your Tasks\n\n"@, text::trimmed(t), "\n\n"@);
    }
}

/// A worker is started in the codebase where one is configured, with its model.
pub proof fn commands_say_where_and_what(codebase: Option<Seq<char>>, model: Seq<char>)
    ensures
        codebase matches Some(p) ==> worker_command(codebase, model) == "collab worker --workdir "@
            + p + " --model "@ + model,
        (" --model "@ + model).is_suffix_of(worker_command(codebase, model)),
{
    let w = worker_command(codebase, model);
    let e = " --model "@ + model;
    assert(e =~= w.subrange(w.len() - e.len(), w.len() as int));
}

/// A worker's instructions tell its name, its role, its teammates, the server, how to start, its tasks
/// and where data stand.
pub proof fn instructions_are_whole(
    w: WorkerModel,
    mates: Seq<WorkerModel>,
    server: Seq<char>,
    codebase: Option<Seq<char>>,
    model: Seq<char>,
    shared: Option<Seq<char>>,
    output_dir: Seq<char>,
)
    ensures
        text::holds(claude_md(w, mates, server, codebase, model, shared, output_dir), w.name),
        text::holds(claude_md(w, mates, server, codebase, model, shared, output_dir), w.role),
        text::holds(claude_md(w, mates, server, codebase, model, shared, output_dir), mate_list(mates)),
        text::holds(claude_md(w, mates, server, codebase, model, shared, output_dir), server),
        text::holds(claude_md(w, mates, server, codebase, model, shared, output_dir), mate_table(mates)),
        text::holds(claude_md(w, mates, server, codebase, model, shared, output_dir), worker_command(codebase, model)),
        text::holds(claude_md(w, mates, server, codebase, model, shared, output_dir), tasks_section(w.tasks)),
        text::holds(claude_md(w, mates, server, codebase, model, shared, output_dir), data_section(mates, w.name, shared, output_dir)),
{
    let whole = claude_md(w, mates, server, codebase, model, shared, output_dir);
    let a0 = "# "@;
    let a1 = a0 + w.name;
    let a2 = a1 + IDENTITY@;
    let a3 = a2 + w.name;
    let a4 = a3 + COLLABORATION@;
    let a5 = a4 + w.role;
    let a6 = a5 + "\n\n**Your teammates:** "@;
    let a7 = a6 + mate_list(mates);
    let a8 = a7 + SETUP@;
    let a9 = a8 + w.name;
    let a10 = a9 + "\nexport COLLAB_SERVER="@;
    let a11 = a10 + server;
    let a12 = a11 + TOKEN_HELP@;
    let a13 = a12 + mate_table(mates);
    let a14 = a13 + SESSION_START@;
    let a15 = a14 + worker_command(codebase, model);
    let a16 = a15 + AFTER_START@;
    let a17 = a16 + w.role;
    let a18 = a17 + OUTPUT_RULES@;
    let a19 = a18 + tasks_section(w.tasks);
    let a20 = a19 + TASK_QUEUE@;
    let a21 = a20 + data_section(mates, w.name, shared, output_dir);
    let a22 = a21 + RULES@;
    text::whole_is_front(whole);
    assert(whole == a22);
    text::front_of_front(a21, RULES@, whole);
    text::front_of_front(a20, data_section(mates, w.name, shared, output_dir), whole);
    text::front_of_front(a19, TASK_QUEUE@, whole);
    text::front_of_front(a18, tasks_section(w.tasks), whole);
    text::front_of_front(a17, OUTPUT_RULES@, whole);
    text::front_of_front(a16, w.role, whole);
    text::front_of_front(a15, AFTER_START@, whole);
    text::front_of_front(a14, worker_command(codebase, model), whole);
    text::front_of_front(a13, SESSION_START@, whole);
    text::front_of_front(a12, mate_table(mates), whole);
    text::front_of_front(a11, TOKEN_HELP@, whole);
    text::front_of_front(a10, server, whole);
    text::front_of_front(a9, "\nexport COLLAB_SERVER="@, whole);
    text::front_of_front(a8, w.name, whole);
    text::front_of_front(a7, SETUP@, whole);
    text::front_of_front(a6, mate_list(mates), whole);
    text::front_of_front(a5, "\n\n**Your teammates:** "@, whole);
    text::front_of_front(a4, w.role, whole);
    text::front_of_front(a3, COLLABORATION@, whole);
    text::front_of_front(a2, w.name, whole);
    text::front_of_front(a1, IDENTITY@, whole);
    text::part_of_front(a0, w.name, whole);
    text::part_of_front(a4, w.role, whole);
    text::part_of_front(a6, mate_list(mates), whole);
    text::part_of_front(a10, server, whole);
    text::part_of_front(a12, mate_table(mates), whole);
    text::part_of_front(a14, worker_command(codebase, model), whole);
    text::part_of_front(a18, tasks_section(w.tasks), whole);
    text::part_of_front(a20, data_section(mates, w.name, shared, output_dir), whole);
}

/// What is given counts before what is configured, and that before the usual directory.
pub proof fn directories_are_chosen(
    given: Option<Seq<char>>,
    configured: Option<Seq<char>>,
    own: Option<Seq<char>>,
    common: Option<Seq<char>>,
)
    ensures
        given matches Some(d) ==> base_dir(given, configured) == d,
        given is None && configured is Some ==> base_dir(given, configured) == configured->0,
        given is None && configured is None ==> base_dir(given, configured) == "./workers"@,
        own matches Some(x) ==> own_or_none(own, common) == x,
        own is None && common is Some ==> own_or_none(own, common) == common->0,
        own is None && common is None ==> own_or_none(own, common).len() == 0,
{
}

/// A worker's directory bears its name and stands in the base, which stands in the current directory.
pub proof fn workers_have_their_directory(rest: Seq<char>, name: Seq<char>, cwd: Seq<char>)
    ensures
        worker_dir("./"@ + rest, name, Some(cwd)) == paths::below(cwd, paths::below(rest, name)),
        worker_dir("./"@ + rest, name, None) == paths::below(rest, name),
        !"./"@.is_prefix_of(rest) ==> worker_dir(rest, name, Some(cwd)) == paths::below(
            cwd,
            paths::below(rest, name),
        ),
{
    let p = "./"@;
    let s = p + rest;
    assert(p =~= s.subrange(0, p.len() as int));
    assert(s.skip(p.len() as int) =~= rest);
}

/// An entry of the manifest is that of its worker: its own settings where it has them, the project's
/// otherwise.
pub proof fn entries_are_exact(
    c: ProjectModel,
    w: WorkerModel,
    base: Seq<char>,
    cwd: Option<Seq<char>>,
)
    ensures
        ({
            let e = entry_of(c, w, base, cwd);
            &&& e.name == w.name && e.role == w.role
            &&& e.reports_to == w.reports_to && e.works_with == w.works_with
            &&& e.hands_off_to == w.hands_off_to
            &&& c.codebase_path matches Some(p) ==> e.codebase_path == p
            &&& c.codebase_path is None && cwd is Some ==> e.codebase_path == cwd->0
            &&& c.codebase_path is None && cwd is None ==> e.codebase_path == "."@
            &&& w.model matches Some(m) ==> e.model == m
            &&& w.model is None && c.model is Some ==> e.model == c.model->0
            &&& w.cli_template is Some ==> e.cli_template == w.cli_template
            &&& w.cli_template is None && c.cli_template is Some ==> e.cli_template == c.cli_template
            &&& w.cli_template is None && c.cli_template is None ==> e.cli_template == Some(
                MANIFEST_CLI_TEMPLATE@,
            )
            &&& e.cli_template_light == (if w.cli_template_light is Some {
                w.cli_template_light
            } else {
                c.cli_template_light
            })
            &&& e.shared_data_dir == (if c.shared_data_dir is Some {
                c.shared_data_dir
            } else {
                Some(base)
            })
            &&& e.output_dir == worker_dir(base, w.name, cwd)
        }),
{
}

/// Every worker has its entry in the dashboard: its name, its avatar or the usual one, and its color
/// or one of five in turn.
pub proof fn dashboards_show_everybody(ws: Seq<WorkerModel>, i: int)
    requires
        0 <= i < ws.len(),
    ensures
        dashboard_entries(ws).len() == ws.len(),
        text::holds(dashboard(ws), dashboard_entries(ws)[i]),
        text::holds(dashboard_entries(ws)[i], outside::json_quoted(ws[i].name)),
        ws[i].avatar matches Some(a) ==> text::holds(dashboard_entries(ws)[i], a),
        ws[i].avatar is None ==> text::holds(dashboard_entries(ws)[i], "neutral"@),
        ws[i].color matches Some(c) ==> (text::decimal(c as nat) + "}"@).is_suffix_of(
            dashboard_entries(ws)[i],
        ),
        ws[i].color is None ==> (text::decimal((i % 5) as nat) + "}"@).is_suffix_of(
            dashboard_entries(ws)[i],
        ),
{
    let all = dashboard_entries(ws);
    let e = all[i];
    let list = text::joined(all, ",\n"@);
    text::joined_texts_are_held(all, ",\n"@, i);
    text::held_in_part("{\n  \"workers\": {\n"@, list, "\n  }\n}\n"@, e);
    let w = ws[i];
    let p0 = "    "@;
    let p1 = outside::json_quoted(w.name);
    let p2 = ": {\"avatar\": \""@;
    let p3 = match w.avatar {
        Some(a) => a,
        None => "neutral"@,
    };
    let p4 = "\", \"color\": "@;
    let p5 = text::decimal(
        match w.color {
            Some(c) => c as nat,
            None => (i % COLORS as int) as nat,
        },
    );
    let p6 = "}"@;
    text::end_is_held(p0, p1);
    text::held_with_more(p0 + p1, p2, p1);
    text::held_with_more(p0 + p1 + p2, p3, p1);
    text::held_with_more(p0 + p1 + p2 + p3, p4, p1);
    text::held_with_more(p0 + p1 + p2 + p3 + p4, p5, p1);
    text::held_with_more(p0 + p1 + p2 + p3 + p4 + p5, p6, p1);
    text::end_is_held(p0 + p1 + p2, p3);
    text::held_with_more(p0 + p1 + p2 + p3, p4, p3);
    text::held_with_more(p0 + p1 + p2 + p3 + p4, p5, p3);
    text::held_with_more(p0 + p1 + p2 + p3 + p4 + p5, p6, p3);
    let z = p5 + p6;
    assert(z =~= e.subrange(e.len() - z.len(), e.len() as int));
}

} // verus!
