//! Starting and stopping workers: what is recorded of them, which ones are meant, and what is
//! handed to their processes.
use crate::clock;
use crate::clock::Timestamp;
use crate::outside;
use crate::server;
use crate::sorting;
use crate::text;
use vstd::prelude::*;

verus! {

/// What is recorded of a running worker.
pub struct WorkerState {
    pub pid: u32,
    pub started_at: String,
    pub command: String,
}

/// What is recorded of a worker that can be started.
pub struct WorkerManifestEntry {
    pub name: String,
    pub role: String,
    pub codebase_path: String,
    pub model: String,
    pub output_dir: String,
    pub cli_template: Option<String>,
    pub cli_template_light: Option<String>,
    pub reports_to: Option<String>,
    pub works_with: Vec<String>,
    pub hands_off_to: Vec<String>,
    pub shared_data_dir: Option<String>,
}

/// The model of a [`WorkerManifestEntry`].
#[verifier::ext_equal]
pub struct EntryModel {
    pub name: Seq<char>,
    pub role: Seq<char>,
    pub codebase_path: Seq<char>,
    pub model: Seq<char>,
    pub output_dir: Seq<char>,
    pub cli_template: Option<Seq<char>>,
    pub cli_template_light: Option<Seq<char>>,
    pub reports_to: Option<Seq<char>>,
    pub works_with: Seq<Seq<char>>,
    pub hands_off_to: Seq<Seq<char>>,
    pub shared_data_dir: Option<Seq<char>>,
}

impl View for WorkerManifestEntry {
    type V = EntryModel;

    open spec fn view(&self) -> EntryModel {
        EntryModel {
            name: self.name@,
            role: self.role@,
            codebase_path: self.codebase_path@,
            model: self.model@,
            output_dir: self.output_dir@,
            cli_template: text::opt_text(self.cli_template),
            cli_template_light: text::opt_text(self.cli_template_light),
            reports_to: text::opt_text(self.reports_to),
            works_with: text::texts(self.works_with@),
            hands_off_to: text::texts(self.hands_off_to@),
            shared_data_dir: text::opt_text(self.shared_data_dir),
        }
    }
}

/// The models of a manifest.
pub open spec fn entry_models(v: Seq<WorkerManifestEntry>) -> Seq<EntryModel> {
    Seq::new(v.len(), |i: int| v[i]@)
}

// ── What a process is started with ──────────────────────────────────────────
/// What was found where a worker is to run.
pub enum Workdir {
    Unreachable(String),
    /// It is somewhere, but nothing can be learned of it.
    Unknown(String, String),
    File(String),
    Dir(String),
}

/// The directory that a worker runs in.
pub fn validate_workdir(path: &str, found: Workdir) -> (r: Result<String, String>)
    ensures
        match found {
            Workdir::Unreachable(e) => r matches Err(m) && m@ == "Cannot access workdir '"@ + path@
                + "': "@ + e@,
            Workdir::Unknown(p, e) => r matches Err(m) && m@ == "Cannot stat '"@ + p@ + "': "@ + e@,
            Workdir::File(p) => r matches Err(m) && m@ == "'"@ + p@ + "' is not a directory"@,
            Workdir::Dir(p) => r == Ok::<String, String>(p),
        },
{
    match found {
        Workdir::Unreachable(e) => {
            let mut m = text::glue3("Cannot access workdir '", path, "': ");
            m.append(e.as_str());
            Err(m)
        },
        Workdir::Unknown(p, e) => {
            let mut m = text::glue3("Cannot stat '", p.as_str(), "': ");
            m.append(e.as_str());
            Err(m)
        },
        Workdir::File(p) => Err(text::glue3("'", p.as_str(), "' is not a directory")),
        Workdir::Dir(p) => Ok(p),
    }
}

/// How long the name of a model may be, in characters.
pub const MAX_MODEL_LEN: usize = 20;

/// The name of a model that may be handed to a process.
pub open spec fn model_name(s: Seq<char>) -> bool {
    server::name_chars(s) && s.len() <= MAX_MODEL_LEN
}

/// What a worker's process is started with.
pub struct Launch {
    pub args: Vec<String>,
    pub env: Vec<(String, String)>,
}

/// The arguments of a worker's process.
pub open spec fn launch_args(
    workdir: Seq<char>,
    model: Seq<char>,
    template: Option<Seq<char>>,
) -> Seq<
    Seq<char>,
> {
    let base = seq!["worker"@, "--workdir"@, workdir, "--model"@, model];
    match template {
        Some(t) => base + seq!["--cli-template"@, t],
        None => base,
    }
}

/// A variable that is there or not.
pub open spec fn maybe(name: Seq<char>, value: Option<Seq<char>>) -> Seq<(Seq<char>, Seq<char>)> {
    match value {
        Some(v) => seq![(name, v)],
        None => Seq::empty(),
    }
}

/// All the variables that a worker's process sees.
pub open spec fn launch_env(
    instance: Seq<char>,
    server: Seq<char>,
    token: Option<Seq<char>>,
    path: Option<Seq<char>>,
    home: Option<Seq<char>>,
) -> Seq<(Seq<char>, Seq<char>)> {
    seq![("COLLAB_INSTANCE"@, instance), ("COLLAB_SERVER"@, server)] + maybe(
        "COLLAB_TOKEN"@,
        token,
    ) + maybe("PATH"@, path) + maybe("HOME"@, home)
}

fn add_pair(v: &mut Vec<(String, String)>, name: &str, value: &Option<String>)
    ensures
        text::pair_texts(final(v)@) == text::pair_texts(old(v)@) + maybe(name@, text::opt_text(*value)),
{
    let ghost before = v@;
    if let Some(x) = value {
        v.push((name.to_owned(), x.clone()));
        assert(text::pair_texts(v@) =~= text::pair_texts(before) + seq![(name@, x@)]);
    } else {
        assert(text::pair_texts(v@) =~= text::pair_texts(before) + Seq::<(Seq<char>, Seq<char>)>::empty());
    }
}

/// All the variables that a worker's process sees: who it is, whom it talks to, and what it needs
/// to find programs.
pub fn build_worker_env(
    instance: &str,
    server: &str,
    token: &Option<String>,
    path: &Option<String>,
    home: &Option<String>,
) -> (r: Vec<(String, String)>)
    ensures
        text::pair_texts(r@) == launch_env(
            instance@,
            server@,
            text::opt_text(*token),
            text::opt_text(*path),
            text::opt_text(*home),
        ),
{
    let mut r: Vec<(String, String)> = Vec::new();
    r.push(("COLLAB_INSTANCE".to_owned(), instance.to_owned()));
    r.push(("COLLAB_SERVER".to_owned(), server.to_owned()));
    assert(text::pair_texts(r@) =~= seq![("COLLAB_INSTANCE"@, instance@), ("COLLAB_SERVER"@, server@)]);
    add_pair(&mut r, "COLLAB_TOKEN", token);
    add_pair(&mut r, "PATH", path);
    add_pair(&mut r, "HOME", home);
    r
}

/// What a worker's process is started with, in the directory `workdir` that was found usable. A
/// model or an instance whose name could be taken for something else is refused.
pub fn spawn_worker(
    workdir: &str,
    model: &str,
    instance: &str,
    server: &str,
    token: &Option<String>,
    cli_template: &Option<String>,
    path: &Option<String>,
    home: &Option<String>,
) -> (r: Result<Launch, String>)
    ensures
        if !model_name(model@) {
            r matches Err(m) && m@ == "Invalid model name: '"@ + model@ + "'"@
        } else if !server::name_chars(instance@) {
            r matches Err(m) && m@ == "Invalid instance name: '"@ + instance@ + "'"@
        } else {
            r matches Ok(l) && text::texts(l.args@) == launch_args(
                workdir@,
                model@,
                text::opt_text(*cli_template),
            ) && text::pair_texts(l.env@) == launch_env(
                instance@,
                server@,
                text::opt_text(*token),
                text::opt_text(*path),
                text::opt_text(*home),
            )
        },
{
    if !server::has_name_chars(model) || text::chars_of(model).len() > MAX_MODEL_LEN {
        return Err(text::glue3("Invalid model name: '", model, "'"));
    }
    if !server::has_name_chars(instance) {
        return Err(text::glue3("Invalid instance name: '", instance, "'"));
    }
    let mut args: Vec<String> = Vec::new();
    args.push("worker".to_owned());
    args.push("--workdir".to_owned());
    args.push(workdir.to_owned());
    args.push("--model".to_owned());
    args.push(model.to_owned());
    if let Some(t) = cli_template {
        args.push("--cli-template".to_owned());
        args.push(t.clone());
    }
    assert(text::texts(args@) =~= launch_args(workdir@, model@, text::opt_text(*cli_template)));
    let env = build_worker_env(instance, server, token, path, home);
    Ok(Launch { args, env })
}

/// The command that is recorded of a worker that was started.
pub open spec fn recorded_command(e: EntryModel) -> Seq<char> {
    "collab worker --workdir "@ + e.output_dir + " --model "@ + e.model + (match e.cli_template {
        Some(t) => " --cli-template "@ + outside::debug_quoted(t),
        None => Seq::empty(),
    })
}

/// The command that is recorded of a worker that was started.
pub fn command_of(e: &WorkerManifestEntry) -> (r: String)
    ensures
        r@ == recorded_command(e@),
{
    let mut r = text::glue3("collab worker --workdir ", e.output_dir.as_str(), " --model ");
    r.append(e.model.as_str());
    match &e.cli_template {
        Some(t) => {
            let q = text::glue(" --cli-template ", outside::debug_quote(t.as_str()).as_str());
            r.append(q.as_str());
        },
        None => {
            assert(r@ + Seq::<char>::empty() =~= r@);
        },
    }
    r
}

// ── The manifest file ───────────────────────────────────────────────────────
/// What was found where a manifest should be.
pub enum ManifestFile {
    Missing,
    Unreadable(String),
    /// It holds no manifest.
    Invalid(String),
    Entries(Vec<WorkerManifestEntry>),
}

/// The workers of a manifest.
pub fn read_manifest(path: &str, found: ManifestFile) -> (r: Result<Vec<WorkerManifestEntry>, String>)
    ensures
        match found {
            ManifestFile::Missing => r matches Err(m) && m@ == "Manifest not found: "@ + path@
                + "\nRun 'collab init workers.yml' first"@,
            ManifestFile::Unreadable(e) => r matches Err(m) && m@ == "Cannot read manifest "@
                + path@ + ": "@ + e@,
            ManifestFile::Invalid(e) => r matches Err(m) && m@ == "Invalid JSON in manifest "@
                + path@ + ": "@ + e@,
            ManifestFile::Entries(v) => r == Ok::<Vec<WorkerManifestEntry>, String>(v),
        },
{
    match found {
        ManifestFile::Missing => Err(
            text::glue3("Manifest not found: ", path, "\nRun 'collab init workers.yml' first"),
        ),
        ManifestFile::Unreadable(e) => {
            let mut m = text::glue3("Cannot read manifest ", path, ": ");
            m.append(e.as_str());
            Err(m)
        },
        ManifestFile::Invalid(e) => {
            let mut m = text::glue3("Invalid JSON in manifest ", path, ": ");
            m.append(e.as_str());
            Err(m)
        },
        ManifestFile::Entries(v) => Ok(v),
    }
}

/// What somebody is told whose manifest others can read, given the mode of the file.
pub fn manifest_warning(path: &str, mode: u32) -> (r: Option<String>)
    ensures
        r is Some <==> mode & 0o044 != 0,
        r matches Some(m) ==> m@ == "\u{26a0} Warning: "@ + path@
            + " has group/other read permissions"@,
{
    if mode & 0o044 != 0 {
        Some(text::glue3("\u{26a0} Warning: ", path, " has group/other read permissions"))
    } else {
        None
    }
}

// ── Running workers ─────────────────────────────────────────────────────────
/// A running worker.
pub struct PidEntry {
    pub name: String,
    pub state: WorkerState,
}

/// The model of a [`PidEntry`].
#[verifier::ext_equal]
pub struct PidModel {
    pub name: Seq<char>,
    pub pid: u32,
    pub started_at: Seq<char>,
    pub command: Seq<char>,
}

impl View for PidEntry {
    type V = PidModel;

    open spec fn view(&self) -> PidModel {
        PidModel {
            name: self.name@,
            pid: self.state.pid,
            started_at: self.state.started_at@,
            command: self.state.command@,
        }
    }
}

/// The models of the running workers.
pub open spec fn pid_models(v: Seq<PidEntry>) -> Seq<PidModel> {
    Seq::new(v.len(), |i: int| v[i]@)
}

/// The running workers without one of them.
pub open spec fn without(v: Seq<PidModel>, name: Seq<char>) -> Seq<PidModel>
    decreases v.len(),
{
    if v.len() == 0 {
        Seq::empty()
    } else if v.last().name == name {
        without(v.drop_last(), name)
    } else {
        without(v.drop_last(), name).push(v.last())
    }
}

/// One of the running workers has the name.
pub open spec fn runs(v: Seq<PidModel>, name: Seq<char>) -> bool {
    exists|i: int| 0 <= i < v.len() && (#[trigger] v[i]).name == name
}

/// No name stands twice.
pub open spec fn distinct(v: Seq<PidModel>) -> bool {
    forall|i: int, j: int|
        0 <= i < j < v.len() ==> (#[trigger] v[i]).name != (#[trigger] v[j]).name
}

/// The running workers.
pub struct PidTable {
    pub entries: Vec<PidEntry>,
}

impl View for PidTable {
    type V = Seq<PidModel>;

    open spec fn view(&self) -> Seq<PidModel> {
        pid_models(self.entries@)
    }
}

impl PidTable {
    /// Nobody.
    pub fn new() -> (t: PidTable)
        ensures
            t@ == Seq::<PidModel>::empty(),
    {
        let t = PidTable { entries: Vec::new() };
        assert(t@ =~= Seq::<PidModel>::empty());
        t
    }

    fn drop_name(&mut self, name: &str)
        ensures
            final(self)@ == without(old(self)@, name@),
    {
        let ghost all = self.entries@;
        let ghost models = self@;
        let mut rest: Vec<PidEntry> = Vec::new();
        rest.append(&mut self.entries);
        let mut kept: Vec<PidEntry> = Vec::new();
        let ghost mut n: int = 0;
        assert(rest@ =~= all.skip(0));
        assert(pid_models(kept@) =~= without(models.take(0), name@));
        while rest.len() > 0
            invariant
                0 <= n <= all.len(),
                rest@ == all.skip(n),
                models == pid_models(all),
                pid_models(kept@) == without(models.take(n), name@),
            decreases rest@.len(),
        {
            let e = rest.remove(0);
            proof {
                assert(e == all[n]);
                assert(models.take(n + 1).drop_last() =~= models.take(n));
                assert(models.take(n + 1).last() == e@);
                assert(all.skip(n).remove(0) =~= all.skip(n + 1));
                n = n + 1;
            }
            if !text::same(e.name.as_str(), name) {
                let ghost before = kept@;
                let ghost m = e@;
                kept.push(e);
                assert(pid_models(kept@) =~= pid_models(before).push(m));
            }
        }
        assert(models.take(n) =~= models);
        self.entries = kept;
    }

    /// Records a worker that was started, in place of what was recorded under its name.
    pub fn save_worker_pid(&mut self, name: &str, pid: u32, command: &str, now: Timestamp)
        requires
            now.valid(),
        ensures
            final(self)@ == without(old(self)@, name@).push(
                PidModel { name: name@, pid, started_at: now.text(), command: command@ },
            ),
    {
        self.drop_name(name);
        let ghost before = self@;
        let e = PidEntry {
            name: name.to_owned(),
            state: WorkerState { pid, started_at: now.to_rfc3339(), command: command.to_owned() },
        };
        let ghost m = e@;
        self.entries.push(e);
        assert(self@ =~= before.push(m));
    }

    /// Forgets a worker, and says whether none is left, so that the file can go.
    pub fn remove_worker_pid(&mut self, name: &str) -> (empty: bool)
        ensures
            final(self)@ == without(old(self)@, name@),
            empty == (final(self)@.len() == 0),
    {
        self.drop_name(name);
        assert(self@.len() == self.entries@.len());
        self.entries.len() == 0
    }

    /// Forgets the workers whose processes are gone, and says which they were; `alive` says for
    /// each worker whether its process exists.
    pub fn clean_up(&mut self, alive: &Vec<bool>) -> (r: Vec<String>)
        requires
            alive@.len() == old(self)@.len(),
        ensures
            final(self)@ == living(old(self)@, alive@),
            text::texts(r@) == obituaries(old(self)@, alive@),
    {
        let ghost all = self.entries@;
        let ghost models = self@;
        let mut rest: Vec<PidEntry> = Vec::new();
        rest.append(&mut self.entries);
        let mut kept: Vec<PidEntry> = Vec::new();
        let mut r: Vec<String> = Vec::new();
        let mut n: usize = 0;
        assert(rest@ =~= all.skip(0));
        assert(pid_models(kept@) =~= living(models.take(0), alive@.take(0)));
        assert(text::texts(r@) =~= obituaries(models.take(0), alive@.take(0)));
        while rest.len() > 0
            invariant
                n <= all.len(),
                rest@ == all.skip(n as int),
                rest.len() == all.len() - n,
                models == pid_models(all),
                alive.len() == all.len(),
                pid_models(kept@) == living(models.take(n as int), alive@.take(n as int)),
                text::texts(r@) == obituaries(models.take(n as int), alive@.take(n as int)),
            decreases rest@.len(),
        {
            let e = rest.remove(0);
            let ghost m = e@;
            proof {
                assert(e == all[n as int]);
                assert(models.take(n + 1).drop_last() =~= models.take(n as int));
                assert(models.take(n + 1).last() == m);
                assert(alive@.take(n + 1).drop_last() =~= alive@.take(n as int));
                assert(alive@.take(n + 1).last() == alive@[n as int]);
                assert(all.skip(n as int).remove(0) =~= all.skip(n + 1));
            }
            if alive[n] {
                let ghost before = kept@;
                kept.push(e);
                assert(pid_models(kept@) =~= pid_models(before).push(m));
            } else {
                let mut s = text::glue3(
                    "\u{26a0} Cleaning up stale PID for ",
                    e.name.as_str(),
                    " (PID ",
                );
                s.append(text::number(e.state.pid as u64).as_str());
                s.append(" no longer running)");
                let ghost before = r@;
                let ghost t = s@;
                r.push(s);
                assert(t == obituary(m));
                assert(text::texts(r@) =~= text::texts(before).push(t));
            }
            n += 1;
        }
        assert(models.take(n as int) =~= models);
        assert(alive@.take(n as int) =~= alive@);
        self.entries = kept;
        r
    }

    /// The workers that are to be stopped.
    pub fn to_stop(&self, targets: &Vec<String>) -> (r: Vec<String>)
        ensures
            text::texts(r@) == stopping(self@, text::texts(targets@)),
    {
        let ghost ts = text::texts(targets@);
        let mut r: Vec<String> = Vec::new();
        if targets.len() > 0 && text::same(targets[0].as_str(), "all") {
            assert(ts[0] == "all"@);
            let mut i: usize = 0;
            while i < self.entries.len()
                invariant
                    i <= self.entries@.len(),
                    r@.len() == i,
                    forall|k: int| 0 <= k < i ==> (#[trigger] r@[k])@ == self@[k].name,
                decreases self.entries@.len() - i,
            {
                r.push(self.entries[i].name.clone());
                i += 1;
            }
            assert(text::texts(r@) =~= stopping(self@, ts));
            return r;
        }
        let mut i: usize = 0;
        assert(text::texts(r@) =~= running_of(self@, ts.take(0)));
        while i < targets.len()
            invariant
                i <= targets@.len(),
                ts == text::texts(targets@),
                text::texts(r@) == running_of(self@, ts.take(i as int)),
            decreases targets@.len() - i,
        {
            assert(ts.take(i + 1).drop_last() =~= ts.take(i as int));
            assert(ts.take(i + 1).last() == targets@[i as int]@);
            if self.has(targets[i].as_str()) {
                let ghost before = r@;
                r.push(targets[i].clone());
                assert(text::texts(r@) =~= text::texts(before).push(targets@[i as int]@));
            }
            i += 1;
        }
        assert(ts.take(i as int) =~= ts);
        r
    }

    fn has(&self, name: &str) -> (r: bool)
        ensures
            r == runs(self@, name@),
    {
        let mut i: usize = 0;
        while i < self.entries.len()
            invariant
                i <= self.entries@.len(),
                forall|k: int| 0 <= k < i ==> (#[trigger] self@[k]).name != name@,
            decreases self.entries@.len() - i,
        {
            assert(self@[i as int] == self.entries@[i as int]@);
            if text::same(self.entries[i].name.as_str(), name) {
                return true;
            }
            i += 1;
        }
        false
    }

    /// What is shown of the running workers.
    pub fn status(&self) -> (r: String)
        ensures
            r@ == "Running workers:"@ + status_lines(self@),
    {
        let ghost all = self@;
        let mut r = "Running workers:".to_owned();
        let mut i: usize = 0;
        assert(r@ =~= "Running workers:"@ + status_lines(all.take(0)));
        while i < self.entries.len()
            invariant
                i <= self.entries@.len(),
                all == self@,
                r@ == "Running workers:"@ + status_lines(all.take(i as int)),
            decreases self.entries@.len() - i,
        {
            assert(all.take(i + 1).drop_last() =~= all.take(i as int));
            let e = &self.entries[i];
            assert(all.take(i + 1).last() == e@);
            let ghost before = r@;
            r.append("\n  ");
            r.append(e.name.as_str());
            r.append(" (PID: ");
            r.append(text::number(e.state.pid as u64).as_str());
            r.append(")\n    Started: ");
            r.append(e.state.started_at.as_str());
            r.append("\n    Command: ");
            r.append(e.state.command.as_str());
            assert(r@ =~= before + status_line(e@));
            assert(before + status_line(e@) =~= "Running workers:"@ + (status_lines(
                all.take(i as int),
            ) + status_line(e@)));
            i += 1;
        }
        assert(all.take(i as int) =~= all);
        r
    }
}

/// What is shown of a running worker.
pub open spec fn status_line(e: PidModel) -> Seq<char> {
    "\n  "@ + e.name + " (PID: "@ + text::decimal(e.pid as nat) + ")\n    Started: "@ + e.started_at
        + "\n    Command: "@ + e.command
}

/// What is shown of the running workers, one after the other.
pub open spec fn status_lines(v: Seq<PidModel>) -> Seq<char>
    decreases v.len(),
{
    if v.len() == 0 {
        Seq::empty()
    } else {
        status_lines(v.drop_last()) + status_line(v.last())
    }
}

/// The workers whose processes exist.
pub open spec fn living(v: Seq<PidModel>, alive: Seq<bool>) -> Seq<PidModel>
    decreases v.len(),
{
    if v.len() == 0 {
        Seq::empty()
    } else if alive.last() {
        living(v.drop_last(), alive.drop_last()).push(v.last())
    } else {
        living(v.drop_last(), alive.drop_last())
    }
}

/// What is said of a worker whose process is gone.
pub open spec fn obituary(e: PidModel) -> Seq<char> {
    "\u{26a0} Cleaning up stale PID for "@ + e.name + " (PID "@ + text::decimal(e.pid as nat)
        + " no longer running)"@
}

/// What is said of the workers whose processes are gone.
pub open spec fn obituaries(v: Seq<PidModel>, alive: Seq<bool>) -> Seq<Seq<char>>
    decreases v.len(),
{
    if v.len() == 0 {
        Seq::empty()
    } else if alive.last() {
        obituaries(v.drop_last(), alive.drop_last())
    } else {
        obituaries(v.drop_last(), alive.drop_last()).push(obituary(v.last()))
    }
}

/// Those of the names that run.
pub open spec fn running_of(v: Seq<PidModel>, names: Seq<Seq<char>>) -> Seq<Seq<char>>
    decreases names.len(),
{
    if names.len() == 0 {
        Seq::empty()
    } else if runs(v, names.last()) {
        running_of(v, names.drop_last()).push(names.last())
    } else {
        running_of(v, names.drop_last())
    }
}

/// The workers that are to be stopped: all that run, or those of the targets that do.
pub open spec fn stopping(v: Seq<PidModel>, targets: Seq<Seq<char>>) -> Seq<Seq<char>> {
    if targets.len() > 0 && targets[0] == "all"@ {
        Seq::new(v.len(), |i: int| v[i].name)
    } else {
        running_of(v, targets)
    }
}

/// How far stopping a process has come.
#[derive(Clone, Copy, PartialEq, Eq, Structural, Debug)]
pub enum KillStage {
    Asked,
    Terminated,
    Forced,
}

/// What is done next to stop a process.
#[derive(Clone, Copy, PartialEq, Eq, Structural, Debug)]
pub enum KillStep {
    /// There was no such process.
    NotFound,
    /// Ask it to end, and wait.
    Terminate,
    /// End it.
    Kill,
    /// It is stopped.
    Stopped,
}

/// What is done next to stop a process, given whether it exists: it is asked to end first, and
/// ended where it does not.
pub fn kill_step(stage: KillStage, exists: bool) -> (r: KillStep)
    ensures
        r == (match stage {
            KillStage::Asked => if exists {
                KillStep::Terminate
            } else {
                KillStep::NotFound
            },
            KillStage::Terminated => if exists {
                KillStep::Kill
            } else {
                KillStep::Stopped
            },
            KillStage::Forced => KillStep::Stopped,
        }),
{
    match stage {
        KillStage::Asked => if exists {
            KillStep::Terminate
        } else {
            KillStep::NotFound
        },
        KillStage::Terminated => if exists {
            KillStep::Kill
        } else {
            KillStep::Stopped
        },
        KillStage::Forced => KillStep::Stopped,
    }
}

// ── Which workers are meant ─────────────────────────────────────────────────
/// The workers that a target names, or why it names none.
pub open spec fn target_names(target: Seq<char>) -> Result<Seq<Seq<char>>, Seq<char>> {
    let t = text::trimmed(target);
    if t == "all"@ {
        Ok(seq!["all"@])
    } else if t.len() > 0 && t[0] == '@' {
        let name = t.drop_first();
        if server::name_chars(name) {
            Ok(seq![name])
        } else {
            Err("Invalid instance name: "@ + name)
        }
    } else if server::name_chars(t) {
        Ok(seq![t])
    } else {
        Err("Invalid target: "@ + t)
    }
}

fn one(s: String) -> (r: Vec<String>)
    ensures
        text::texts(r@) == seq![s@],
{
    let ghost m = s@;
    let mut r: Vec<String> = Vec::new();
    r.push(s);
    assert(text::texts(r@) =~= seq![m]);
    r
}

/// The workers that a target names.
pub fn parse_target(target: &str) -> (r: Result<Vec<String>, String>)
    ensures
        match target_names(target@) {
            Ok(names) => r matches Ok(v) && text::texts(v@) == names,
            Err(e) => r matches Err(m) && m@ == e,
        },
{
    let t = text::trim(target);
    if text::same(t.as_str(), "all") {
        return Ok(one("all".to_owned()));
    }
    let v = text::chars_of(t.as_str());
    if v.len() > 0 && v[0] == '@' {
        let name = text::slice_of(&v, 1, v.len());
        assert(name@ =~= t@.drop_first());
        if server::has_name_chars(name.as_str()) {
            Ok(one(name))
        } else {
            Err(text::glue("Invalid instance name: ", name.as_str()))
        }
    } else if server::has_name_chars(t.as_str()) {
        Ok(one(t))
    } else {
        Err(text::glue("Invalid target: ", t.as_str()))
    }
}

/// The entries of a manifest that the targets name.
pub open spec fn chosen(manifest: Seq<EntryModel>, targets: Seq<Seq<char>>) -> Seq<EntryModel>
    decreases manifest.len(),
{
    if targets.len() > 0 && targets[0] == "all"@ {
        manifest
    } else if manifest.len() == 0 {
        Seq::empty()
    } else if targets.contains(manifest.last().name) {
        chosen(manifest.drop_last(), targets).push(manifest.last())
    } else {
        chosen(manifest.drop_last(), targets)
    }
}

/// The entries of a manifest that the targets name.
pub fn to_start(manifest: Vec<WorkerManifestEntry>, targets: &Vec<String>) -> (r: Vec<
    WorkerManifestEntry,
>)
    ensures
        entry_models(r@) == chosen(entry_models(manifest@), text::texts(targets@)),
{
    let ghost ts = text::texts(targets@);
    if targets.len() > 0 && text::same(targets[0].as_str(), "all") {
        assert(ts[0] == "all"@);
        return manifest;
    }
    assert(!(ts.len() > 0 && ts[0] == "all"@));
    let ghost all = manifest@;
    let ghost ms = entry_models(all);
    let mut rest = manifest;
    let mut r: Vec<WorkerManifestEntry> = Vec::new();
    let ghost mut n: int = 0;
    assert(rest@ =~= all.skip(0));
    assert(entry_models(r@) =~= chosen(ms.take(0), ts));
    while rest.len() > 0
        invariant
            0 <= n <= all.len(),
            rest@ == all.skip(n),
            ms == entry_models(all),
            ts == text::texts(targets@),
            !(ts.len() > 0 && ts[0] == "all"@),
            entry_models(r@) == chosen(ms.take(n), ts),
        decreases rest@.len(),
    {
        let e = rest.remove(0);
        let ghost m = e@;
        proof {
            assert(e == all[n]);
            assert(ms.take(n + 1).drop_last() =~= ms.take(n));
            assert(ms.take(n + 1).last() == m);
            assert(all.skip(n).remove(0) =~= all.skip(n + 1));
            n = n + 1;
        }
        if text::list_has(targets, e.name.as_str()) {
            let ghost before = r@;
            r.push(e);
            assert(entry_models(r@) =~= entry_models(before).push(m));
        }
    }
    assert(ms.take(n) =~= ms);
    r
}

/// A worker that was seen within so many seconds is running.
pub const LIVENESS_WINDOW_SECS: i64 = 30;

/// Somebody on the roster of the server.
pub struct Sighting {
    pub instance_id: String,
    /// When, as the server writes it.
    pub last_seen: String,
}

/// Somebody was seen just now.
pub open spec fn is_fresh(s: Sighting, now: Timestamp) -> bool {
    match clock::time_of(s.last_seen@) {
        Some(t) => now.total() - t.total() < LIVENESS_WINDOW_SECS * 1_000_000_000,
        None => false,
    }
}

/// A name that was seen just now.
pub open spec fn seen_now(roster: Seq<Sighting>, now: Timestamp, name: Seq<char>) -> bool {
    exists|i: int|
        0 <= i < roster.len() && (#[trigger] roster[i]).instance_id@ == name && is_fresh(
            roster[i],
            now,
        )
}

/// A worker that was meant and runs already.
pub open spec fn is_blocked(
    workers: Seq<EntryModel>,
    roster: Seq<Sighting>,
    now: Timestamp,
    name: Seq<char>,
) -> bool {
    &&& exists|i: int| 0 <= i < workers.len() && (#[trigger] workers[i]).name == name
    &&& seen_now(roster, now, name)
}

fn was_seen(roster: &Vec<Sighting>, now: Timestamp, name: &str) -> (r: bool)
    ensures
        r == seen_now(roster@, now, name@),
{
    let mut i: usize = 0;
    while i < roster.len()
        invariant
            i <= roster@.len(),
            forall|k: int|
                0 <= k < i ==> !((#[trigger] roster@[k]).instance_id@ == name@ && is_fresh(
                    roster@[k],
                    now,
                )),
        decreases roster@.len() - i,
    {
        if text::same(roster[i].instance_id.as_str(), name) {
            if let Some(t) = clock::parse_time(roster[i].last_seen.as_str()) {
                if now.nanoseconds() - t.nanoseconds() < 30_000_000_000 {
                    assert(is_fresh(roster@[i as int], now));
                    return true;
                }
            }
        }
        i += 1;
    }
    false
}

/// The workers that were meant and run already, in the order of their names.
pub fn blocked(workers: &Vec<WorkerManifestEntry>, roster: &Vec<Sighting>, now: Timestamp) -> (r: Vec<
    String,
>)
    ensures
        sorting::in_order(text::texts(r@)),
        forall|name: Seq<char>| #[trigger]
            text::texts(r@).contains(name) <==> is_blocked(
                entry_models(workers@),
                roster@,
                now,
                name,
            ),
{
    let ghost ms = entry_models(workers@);
    let mut found: Vec<String> = Vec::new();
    let mut i: usize = 0;
    while i < workers.len()
        invariant
            i <= workers@.len(),
            ms == entry_models(workers@),
            forall|k: int|
                0 <= k < found@.len() ==> is_blocked(ms, roster@, now, (#[trigger] found@[k])@),
            forall|k: int|
                0 <= k < i && seen_now(roster@, now, (#[trigger] ms[k]).name) ==> text::texts(
                    found@,
                ).contains(ms[k].name),
        decreases workers@.len() - i,
    {
        assert(ms[i as int].name == workers@[i as int].name@);
        if was_seen(roster, now, workers[i].name.as_str()) {
            let ghost before = found@;
            found.push(workers[i].name.clone());
            assert forall|k: int| 0 <= k < i + 1 && seen_now(
                roster@,
                now,
                (#[trigger] ms[k]).name,
            ) implies text::texts(found@).contains(ms[k].name) by {
                if k < i {
                    assert(text::texts(before).contains(ms[k].name));
                    let j = choose|j: int|
                        0 <= j < before.len() && text::texts(before)[j] == ms[k].name;
                    assert(text::texts(found@)[j] == ms[k].name);
                } else {
                    assert(text::texts(found@)[before.len() as int] == ms[k].name);
                }
            }
        }
        i += 1;
    }
    proof {
        let f = text::texts(found@);
        assert forall|name: Seq<char>| #[trigger] f.contains(name) <==> is_blocked(
            ms,
            roster@,
            now,
            name,
        ) by {
            if f.contains(name) {
                let k = choose|k: int| 0 <= k < f.len() && f[k] == name;
                assert(found@[k]@ == name);
            }
            if is_blocked(ms, roster@, now, name) {
                let k = choose|k: int| 0 <= k < ms.len() && (#[trigger] ms[k]).name == name;
                assert(f.contains(ms[k].name));
            }
        }
    }
    let r = sorting::sorted_names(&found);
    assert forall|name: Seq<char>| #[trigger] text::texts(r@).contains(name) <==> is_blocked(
        ms,
        roster@,
        now,
        name,
    ) by {
        assert(text::texts(found@).contains(name) <==> is_blocked(ms, roster@, now, name));
    }
    r
}

/// Names with a sign before each.
pub open spec fn at_names(names: Seq<Seq<char>>) -> Seq<Seq<char>> {
    Seq::new(names.len(), |i: int| "@"@ + names[i])
}

/// Names with a sign before each and commas between.
pub fn at_list(names: &Vec<String>) -> (r: String)
    ensures
        r@ == text::joined(at_names(text::texts(names@)), ", "@),
{
    let ghost want = at_names(text::texts(names@));
    let mut v: Vec<String> = Vec::new();
    let mut i: usize = 0;
    while i < names.len()
        invariant
            i <= names@.len(),
            want == at_names(text::texts(names@)),
            v@.len() == i,
            forall|k: int| 0 <= k < i ==> (#[trigger] v@[k])@ == want[k],
        decreases names@.len() - i,
    {
        v.push(text::glue("@", names[i].as_str()));
        i += 1;
    }
    assert(text::texts(v@) =~= want);
    text::join(&v, ", ")
}

/// What somebody is told who starts workers that run already.
pub open spec fn refusal_to_start(names: Seq<Seq<char>>) -> Seq<char> {
    "Refusing to start \u{2014} these workers are already heartbeating on the server: "@
        + text::joined(at_names(names), ", "@) + ". Run `collab stop "@ + names[0]
        + "` first, or start workers individually by name."@
}

/// Whether workers may be started; those that run already must not be started again.
pub fn check_start(workers: &Vec<WorkerManifestEntry>, roster: &Vec<Sighting>, now: Timestamp) -> (r:
    Result<(), String>)
    ensures
        r is Ok <==> forall|name: Seq<char>|
            !(#[trigger] is_blocked(entry_models(workers@), roster@, now, name)),
        r matches Err(m) ==> exists|names: Seq<Seq<char>>|
            #![trigger refusal_to_start(names)]
            names.len() > 0 && sorting::in_order(names) && (forall|name: Seq<char>| #[trigger]
                names.contains(name) <==> is_blocked(entry_models(workers@), roster@, now, name))
                && m@ == refusal_to_start(names),
{
    let names = blocked(workers, roster, now);
    let ghost ns = text::texts(names@);
    if names.len() == 0 {
        assert forall|name: Seq<char>| !(#[trigger] is_blocked(
            entry_models(workers@),
            roster@,
            now,
            name,
        )) by {
            assert(!ns.contains(name));
        }
        return Ok(());
    }
    assert(ns.contains(ns[0]));
    assert(is_blocked(entry_models(workers@), roster@, now, ns[0]));
    let mut m = text::glue3(
        "Refusing to start \u{2014} these workers are already heartbeating on the server: ",
        at_list(&names).as_str(),
        ". Run `collab stop ",
    );
    m.append(names[0].as_str());
    m.append("` first, or start workers individually by name.");
    assert(m@ == refusal_to_start(ns));
    Err(m)
}

// ── Laws ────────────────────────────────────────────────────────────────────
proof fn without_meaning(v: Seq<PidModel>, name: Seq<char>)
    ensures
        forall|i: int| 0 <= i < without(v, name).len() ==> (#[trigger] without(v, name)[i]).name != name,
        forall|e: PidModel| #[trigger]
            without(v, name).contains(e) <==> v.contains(e) && e.name != name,
        distinct(v) ==> distinct(without(v, name)),
    decreases v.len(),
{
    if v.len() > 0 {
        let init = v.drop_last();
        let r = without(init, name);
        let all = without(v, name);
        without_meaning(init, name);
        assert forall|i: int| 0 <= i < all.len() implies (#[trigger] all[i]).name != name by {
            if i < r.len() {
                assert(all[i] == r[i]);
            }
        }
        assert forall|e: PidModel| #[trigger] all.contains(e) <==> v.contains(e) && e.name != name by {
            assert(r.contains(e) <==> init.contains(e) && e.name != name);
            if all.contains(e) {
                let i = choose|i: int| 0 <= i < all.len() && all[i] == e;
                if i < r.len() {
                    assert(r[i] == e);
                    let j = choose|j: int| 0 <= j < init.len() && init[j] == e;
                    assert(v[j] == e);
                } else {
                    assert(v[v.len() - 1] == e);
                }
            }
            if v.contains(e) && e.name != name {
                let i = choose|i: int| 0 <= i < v.len() && v[i] == e;
                if i < init.len() {
                    assert(init[i] == e);
                    let j = choose|j: int| 0 <= j < r.len() && r[j] == e;
                    assert(all[j] == e);
                } else {
                    assert(all[all.len() - 1] == e);
                }
            }
        }
        if distinct(v) {
            assert forall|i: int, j: int| 0 <= i < j < init.len() implies (#[trigger] init[i]).name
                != (#[trigger] init[j]).name by {
                assert(v[i].name != v[j].name);
            }
            assert forall|i: int, j: int| 0 <= i < j < all.len() implies (#[trigger] all[i]).name
                != (#[trigger] all[j]).name by {
                assert(all[i] == r[i]);
                if j < r.len() {
                    assert(all[j] == r[j]);
                } else {
                    assert(r.contains(r[i]));
                    let k = choose|k: int| 0 <= k < init.len() && init[k] == r[i];
                    assert(v[k].name != v[v.len() - 1].name);
                }
            }
        }
    }
}

/// What is recorded of a worker replaces what was recorded of it before, and nothing else changes.
pub proof fn recording_replaces(v: Seq<PidModel>, e: PidModel, other: PidModel)
    requires
        distinct(v),
    ensures
        distinct(without(v, e.name).push(e)),
        without(v, e.name).push(e).contains(e),
        other.name != e.name ==> (without(v, e.name).push(e).contains(other) <==> v.contains(
            other,
        )),
{
    let w = without(v, e.name);
    let r = w.push(e);
    without_meaning(v, e.name);
    assert(r[w.len() as int] == e);
    if other.name != e.name {
        assert(w.contains(other) <==> v.contains(other));
        if r.contains(other) {
            let i = choose|i: int| 0 <= i < r.len() && r[i] == other;
            assert(w[i] == other);
        }
        if w.contains(other) {
            let i = choose|i: int| 0 <= i < w.len() && w[i] == other;
            assert(r[i] == other);
        }
    }
}

/// A worker that was forgotten is not running, and every other one still is.
pub proof fn forgetting_is_exact(v: Seq<PidModel>, name: Seq<char>, other: PidModel)
    ensures
        !runs(without(v, name), name),
        other.name != name ==> (without(v, name).contains(other) <==> v.contains(other)),
{
    without_meaning(v, name);
    assert(without(v, name).contains(other) <==> v.contains(other) && other.name != name);
}

/// A worker's process sees no variable but these five.
pub proof fn processes_see_little(
    instance: Seq<char>,
    server: Seq<char>,
    token: Option<Seq<char>>,
    path: Option<Seq<char>>,
    home: Option<Seq<char>>,
    i: int,
)
    requires
        0 <= i < launch_env(instance, server, token, path, home).len(),
    ensures
        ({
            let key = launch_env(instance, server, token, path, home)[i].0;
            key == "COLLAB_INSTANCE"@ || key == "COLLAB_SERVER"@ || key == "COLLAB_TOKEN"@ || key
                == "PATH"@ || key == "HOME"@
        }),
{
}

/// A target never names anything that holds a character that a name cannot hold.
pub proof fn targets_are_names(target: Seq<char>)
    ensures
        target_names(target) matches Ok(names) ==> names.len() == 1 && (names[0] == "all"@
            || server::name_chars(names[0])),
{
}

/// Forgetting a name drops its entries and no other, and the rest stays in order.
pub proof fn each_entry_is_dropped_alone(
    a: Seq<PidModel>,
    b: Seq<PidModel>,
    x: PidModel,
    name: Seq<char>,
)
    ensures
        without(a + b, name) == without(a, name) + without(b, name),
        without(seq![x], name) == (if x.name == name {
            Seq::empty()
        } else {
            seq![x]
        }),
    decreases b.len(),
{
    let one = seq![x];
    assert(one.drop_last() =~= Seq::<PidModel>::empty());
    assert(without(one.drop_last(), name).len() == 0);
    assert(without(one, name) =~= (if x.name == name {
            Seq::empty()
        } else {
            seq![x]
        }));
    if b.len() == 0 {
        assert(a + b =~= a);
        assert(without(a, name) + without(b, name) =~= without(a, name));
    } else {
        each_entry_is_dropped_alone(a, b.drop_last(), x, name);
        assert((a + b).drop_last() =~= a + b.drop_last());
        assert((a + b).last() == b.last());
        assert(without(a + b, name) =~= without(a, name) + without(b, name));
    }
}

/// Every running worker is told of, in order: its name, its process, since when and by which command.
pub proof fn each_process_is_told(a: Seq<PidModel>, b: Seq<PidModel>, x: PidModel)
    ensures
        status_lines(a + b) == status_lines(a) + status_lines(b),
        status_lines(seq![x]) == ("\n  "@ + x.name + " (PID: "@ + text::decimal(x.pid as nat) + ")\n    Started: "@
            + x.started_at + "\n    Command: "@ + x.command),
    decreases b.len(),
{
    let one = seq![x];
    assert(one.drop_last() =~= Seq::<PidModel>::empty());
    assert(status_lines(one.drop_last()).len() == 0);
    assert(status_lines(one) =~= ("\n  "@ + x.name + " (PID: "@ + text::decimal(x.pid as nat) + ")\n    Started: "@
            + x.started_at + "\n    Command: "@ + x.command));
    if b.len() == 0 {
        assert(a + b =~= a);
        assert(status_lines(a) + status_lines(b) =~= status_lines(a));
    } else {
        each_process_is_told(a, b.drop_last(), x);
        assert((a + b).drop_last() =~= a + b.drop_last());
        assert((a + b).last() == b.last());
        assert(status_lines(a + b) =~= status_lines(a) + status_lines(b));
    }
}

/// Of the entries those whose process lives stay, in order, and each of the others is told of.
pub proof fn each_process_lives_alone(
    a: Seq<PidModel>,
    x: Seq<bool>,
    b: Seq<PidModel>,
    y: Seq<bool>,
    e: PidModel,
    alive: bool,
)
    requires
        a.len() == x.len(),
        b.len() == y.len(),
    ensures
        living(a + b, x + y) == living(a, x) + living(b, y),
        obituaries(a + b, x + y) == obituaries(a, x) + obituaries(b, y),
        living(seq![e], seq![alive]) == (if alive {
            seq![e]
        } else {
            Seq::empty()
        }),
        obituaries(seq![e], seq![alive]) == (if alive {
            Seq::empty()
        } else {
            seq![obituary(e)]
        }),
    decreases b.len(),
{
    assert(seq![e].drop_last() =~= Seq::<PidModel>::empty());
    assert(seq![alive].drop_last() =~= Seq::<bool>::empty());
    assert(living(seq![e].drop_last(), seq![alive].drop_last()).len() == 0);
    assert(obituaries(seq![e].drop_last(), seq![alive].drop_last()).len() == 0);
    assert(living(seq![e], seq![alive]) =~= (if alive {
        seq![e]
    } else {
        Seq::empty()
    }));
    assert(obituaries(seq![e], seq![alive]) =~= (if alive {
        Seq::empty()
    } else {
        seq![obituary(e)]
    }));
    if b.len() == 0 {
        assert(a + b =~= a);
        assert(x + y =~= x);
        assert(living(a, x) + living(b, y) =~= living(a, x));
        assert(obituaries(a, x) + obituaries(b, y) =~= obituaries(a, x));
    } else {
        each_process_lives_alone(a, x, b.drop_last(), y.drop_last(), e, alive);
        assert((a + b).drop_last() =~= a + b.drop_last());
        assert((x + y).drop_last() =~= x + y.drop_last());
        assert((a + b).last() == b.last() && (x + y).last() == y.last());
        assert(living(a + b, x + y) =~= living(a, x) + living(b, y));
        assert(obituaries(a + b, x + y) =~= obituaries(a, x) + obituaries(b, y));
    }
}

/// What is told of a dead process names the worker and the process.
pub proof fn obituaries_name_the_dead(e: PidModel)
    ensures
        text::holds(obituary(e), e.name + " (PID "@ + text::decimal(e.pid as nat)),
{
    let p = e.name + " (PID "@ + text::decimal(e.pid as nat);
    let a = "\u{26a0} Cleaning up stale PID for "@;
    let z = " no longer running)"@;
    text::middle_is_held(a, p, z);
    assert(a + p + z =~= obituary(e));
}

/// Of the names those that run are stopped, in order, or everything that runs where all are meant.
pub proof fn each_target_is_stopped_alone(
    v: Seq<PidModel>,
    a: Seq<Seq<char>>,
    b: Seq<Seq<char>>,
    x: Seq<char>,
)
    ensures
        running_of(v, a + b) == running_of(v, a) + running_of(v, b),
        running_of(v, seq![x]) == (if exists|i: int| 0 <= i < v.len() && (#[trigger] v[i]).name == x {
            seq![x]
        } else {
            Seq::empty()
        }),
        a.len() > 0 && a[0] == "all"@ ==> stopping(v, a).len() == v.len() && forall|i: int|
            0 <= i < v.len() ==> #[trigger] stopping(v, a)[i] == v[i].name,
        a.len() > 0 && a[0] != "all"@ ==> stopping(v, a) == running_of(v, a),
    decreases b.len(),
{
    let one = seq![x];
    assert(one.drop_last() =~= Seq::<Seq<char>>::empty());
    assert(running_of(v, one.drop_last()).len() == 0);
    assert(running_of(v, one) =~= (if runs(v, x) {
        seq![x]
    } else {
        Seq::empty()
    }));
    if b.len() == 0 {
        assert(a + b =~= a);
        assert(running_of(v, a) + running_of(v, b) =~= running_of(v, a));
    } else {
        each_target_is_stopped_alone(v, a, b.drop_last(), x);
        assert((a + b).drop_last() =~= a + b.drop_last());
        assert((a + b).last() == b.last());
        assert(running_of(v, a + b) =~= running_of(v, a) + running_of(v, b));
    }
}

/// What a target means: everybody, or a worker by its name with or without the sign; blanks round it
/// do not count, and what is no name is refused.
pub proof fn targets_are_exact(target: Seq<char>, name: Seq<char>)
    ensures
        text::trimmed(target) == "all"@ ==> target_names(target) == Ok::<Seq<Seq<char>>, Seq<char>>(
            seq!["all"@],
        ),
        text::trimmed(target) == seq!['@'] + name && server::name_chars(name) ==> target_names(
            target,
        ) == Ok::<Seq<Seq<char>>, Seq<char>>(seq![name]),
        text::trimmed(target) == name && name != "all"@ && server::name_chars(name) && (name.len()
            == 0 || name[0] != '@') ==> target_names(target) == Ok::<Seq<Seq<char>>, Seq<char>>(
            seq![name],
        ),
        text::trimmed(target) == seq!['@'] + name && !server::name_chars(name) ==> target_names(
            target,
        ) is Err,
{
    reveal_strlit("all");
    let t = seq!['@'] + name;
    assert(t.drop_first() =~= name);
    assert(t[0] == '@');
}

/// A worker is started exactly where all are meant or it is named.
pub proof fn starts_are_exact(manifest: Seq<EntryModel>, targets: Seq<Seq<char>>, e: EntryModel)
    ensures
        chosen(manifest, targets).contains(e) <==> manifest.contains(e) && (targets.contains(e.name)
            || (targets.len() > 0 && targets[0] == "all"@)),
    decreases manifest.len(),
{
    if !(targets.len() > 0 && targets[0] == "all"@) && manifest.len() > 0 {
        let init = manifest.drop_last();
        let r = chosen(init, targets);
        let all = chosen(manifest, targets);
        starts_are_exact(init, targets, e);
        if all.contains(e) {
            let k = choose|k: int| 0 <= k < all.len() && all[k] == e;
            if k < r.len() {
                assert(r[k] == e);
                let i = choose|i: int| 0 <= i < init.len() && init[i] == e;
                assert(manifest[i] == e);
            } else {
                assert(manifest[manifest.len() - 1] == e);
            }
        }
        if manifest.contains(e) && targets.contains(e.name) {
            let i = choose|i: int| 0 <= i < manifest.len() && manifest[i] == e;
            if i < init.len() {
                assert(init[i] == e);
                let k = choose|k: int| 0 <= k < r.len() && r[k] == e;
                assert(all[k] == e);
            } else {
                assert(all[r.len() as int] == e);
            }
        }
    }
}

/// The order of the manifest is that of starting.
pub proof fn each_worker_is_started_alone(
    a: Seq<EntryModel>,
    b: Seq<EntryModel>,
    targets: Seq<Seq<char>>,
)
    ensures
        chosen(a + b, targets) == chosen(a, targets) + chosen(b, targets),
    decreases b.len(),
{
    if b.len() == 0 {
        assert(a + b =~= a);
        assert(chosen(a, targets) + chosen(b, targets) =~= chosen(a, targets));
    } else {
        each_worker_is_started_alone(a, b.drop_last(), targets);
        assert((a + b).drop_last() =~= a + b.drop_last());
        assert((a + b).last() == b.last());
        assert(chosen(a + b, targets) =~= chosen(a, targets) + chosen(b, targets));
    }
}

/// A started worker is told where to work, with which model and, where one is configured, by which
/// command.
pub proof fn launches_say_what_to_run(
    workdir: Seq<char>,
    model: Seq<char>,
    template: Option<Seq<char>>,
)
    ensures
        ({
            let a = launch_args(workdir, model, template);
            &&& a[0] == "worker"@
            &&& a[1] == "--workdir"@ && a[2] == workdir
            &&& a[3] == "--model"@ && a[4] == model
            &&& template matches Some(t) ==> a.len() == 7 && a[5] == "--cli-template"@ && a[6] == t
            &&& template is None ==> a.len() == 5
        }),
{
}

/// A started worker knows its name, its server and, where there is one, its token.
pub proof fn launches_say_who_and_where(
    instance: Seq<char>,
    server: Seq<char>,
    token: Option<Seq<char>>,
    path: Option<Seq<char>>,
    home: Option<Seq<char>>,
)
    ensures
        ({
            let e = launch_env(instance, server, token, path, home);
            &&& e.contains(("COLLAB_INSTANCE"@, instance))
            &&& e.contains(("COLLAB_SERVER"@, server))
            &&& token matches Some(t) ==> e.contains(("COLLAB_TOKEN"@, t))
            &&& path matches Some(p) ==> e.contains(("PATH"@, p))
            &&& home matches Some(h) ==> e.contains(("HOME"@, h))
            &&& e.len() == 2 + (if token is Some {
                1int
            } else {
                0
            }) + (if path is Some {
                1int
            } else {
                0
            }) + (if home is Some {
                1int
            } else {
                0
            })
        }),
{
    let e = launch_env(instance, server, token, path, home);
    assert(e[0] == ("COLLAB_INSTANCE"@, instance));
    assert(e[1] == ("COLLAB_SERVER"@, server));
    let n: int = 2;
    let m = n + maybe("COLLAB_TOKEN"@, token).len();
    let k = m + maybe("PATH"@, path).len();
    if token is Some {
        assert(e[n] == ("COLLAB_TOKEN"@, token->0));
    }
    if path is Some {
        assert(e[m] == ("PATH"@, path->0));
    }
    if home is Some {
        assert(e[k] == ("HOME"@, home->0));
    }
}

/// A worker stands in the way of a start exactly where it is to be started and was seen less than
/// thirty seconds ago; a name of a model has at most twenty characters.
pub proof fn blocking_is_exact(
    workers: Seq<EntryModel>,
    roster: Seq<Sighting>,
    now: Timestamp,
    name: Seq<char>,
)
    ensures
        is_blocked(workers, roster, now, name) <==> {
            &&& exists|i: int| 0 <= i < workers.len() && (#[trigger] workers[i]).name == name
            &&& exists|i: int|
                0 <= i < roster.len() && (#[trigger] roster[i]).instance_id@ == name
                    && clock::time_of(roster[i].last_seen@) is Some && now.total() - clock::time_of(
                    roster[i].last_seen@,
                )->0.total() < 30 * 1_000_000_000
        },
        model_name(name) <==> name.len() <= 20 && server::name_chars(name),
{
    if seen_now(roster, now, name) {
        let i = choose|i: int|
            0 <= i < roster.len() && (#[trigger] roster[i]).instance_id@ == name && is_fresh(
                roster[i],
                now,
            );
        assert(roster[i].instance_id@ == name);
    }
    if exists|i: int|
        0 <= i < roster.len() && (#[trigger] roster[i]).instance_id@ == name && clock::time_of(
            roster[i].last_seen@,
        ) is Some && now.total() - clock::time_of(roster[i].last_seen@)->0.total()
            < 30 * 1_000_000_000 {
        let i = choose|i: int|
            0 <= i < roster.len() && (#[trigger] roster[i]).instance_id@ == name && clock::time_of(
                roster[i].last_seen@,
            ) is Some && now.total() - clock::time_of(roster[i].last_seen@)->0.total()
                < 30 * 1_000_000_000;
        assert(is_fresh(roster[i], now));
    }
}

/// A refusal to start names every worker that stands in the way.
pub proof fn refusals_name_everybody(names: Seq<Seq<char>>, i: int)
    requires
        0 <= i < names.len(),
    ensures
        text::holds(refusal_to_start(names), "@"@ + names[i]),
        at_names(names).len() == names.len(),
{
    let all = at_names(names);
    text::joined_texts_are_held(all, ", "@, i);
    let p0 = "Refusing to start \u{2014} these workers are already heartbeating on the server: "@;
    let p1 = text::joined(all, ", "@);
    let p2 = ". Run `collab stop "@;
    let p3 = names[0];
    let p4 = "` first, or start workers individually by name."@;
    text::end_is_held(p0, p1);
    text::held_with_more(p0 + p1, p2, p1);
    text::held_with_more(p0 + p1 + p2, p3, p1);
    text::held_with_more(p0 + p1 + p2 + p3, p4, p1);
    text::held_through(refusal_to_start(names), p1, "@"@ + names[i]);
}

/// What is recorded of a worker tells where it works, with which model and by which command.
pub proof fn records_tell_the_command(e: EntryModel)
    ensures
        ("collab worker --workdir "@ + e.output_dir + " --model "@ + e.model).is_prefix_of(
            recorded_command(e),
        ),
        e.cli_template matches Some(t) ==> (" --cli-template "@ + outside::debug_quoted(
            t,
        )).is_suffix_of(recorded_command(e)),
{
    let r = recorded_command(e);
    let a = "collab worker --workdir "@ + e.output_dir + " --model "@ + e.model;
    assert(a =~= r.subrange(0, a.len() as int));
    if e.cli_template is Some {
        let b = " --cli-template "@ + outside::debug_quoted(e.cli_template->0);
        assert(b =~= r.subrange(r.len() - b.len(), r.len() as int));
    }
}

} // verus!
