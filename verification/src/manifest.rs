//! Which manifest governs a directory, and what it says of a worker.
use crate::config;
use crate::init;
use crate::init::ProjectConfig;
use crate::lifecycle;
use crate::lifecycle::WorkerManifestEntry;
use crate::paths;
use crate::team;
use crate::team::{TeamConfig, TeamManagedMarker, TeamWorker};
use crate::text;
use vstd::prelude::*;

verus! {

// ── Project manifests ───────────────────────────────────────────────────────
/// Where the manifest of a directory stands.
pub open spec fn manifest_in(dir: Seq<char>) -> Seq<char> {
    paths::below(paths::below(dir, ".collab"@), "workers.json"@)
}

/// Where a manifest is looked for, from `start` upward.
pub fn manifest_candidates(start: &str) -> (r: Vec<String>)
    ensures
        r@.len() == paths::upward(start@).len(),
        forall|i: int|
            0 <= i < r@.len() ==> (#[trigger] r@[i])@ == manifest_in(paths::upward(start@)[i]),
{
    let dirs = paths::ancestors(start);
    let ghost up = paths::upward(start@);
    assert(up.len() == dirs@.len());
    let mut r: Vec<String> = Vec::new();
    let mut i: usize = 0;
    while i < dirs.len()
        invariant
            i <= dirs@.len(),
            up == text::texts(dirs@),
            r@.len() == i,
            forall|k: int| 0 <= k < i ==> (#[trigger] r@[k])@ == manifest_in(up[k]),
        decreases dirs@.len() - i,
    {
        let collab = paths::join(dirs[i].as_str(), ".collab");
        r.push(paths::join(collab.as_str(), "workers.json"));
        i += 1;
    }
    r
}

/// The directory `.collab` with the nearest manifest at or above `start`; `found` says of each
/// place where one is looked for whether it is there.
pub fn find_collab_dir_from(start: &str, found: &Vec<bool>) -> (r: Option<String>)
    ensures
        text::opt_text(r) == (match config::first_hit(paths::upward(start@), found@) {
            Some(d) => Some(paths::below(d, ".collab"@)),
            None => None,
        }),
{
    let dirs = paths::ancestors(start);
    match config::first_found(&dirs, found) {
        Some(d) => Some(paths::join(d.as_str(), ".collab")),
        None => None,
    }
}

/// What somebody is told who has a team manifest that was not put to use.
pub const TEAM_YML_END: &'static str =
    "\n\nThat writes AGENT.md + .collab/team-managed markers into each worker's codebase_path, which is what `collab start` / `ps` / `stop` look for.";

/// What somebody is told who has no manifest.
pub const NO_MANIFEST: &'static str =
    "Manifest not found. Either:\n- run `collab init <path>/team.yml`  (multi-codebase team)\n- run `collab init <path>/workers.yml`  (single-repo, legacy)\nfrom the directory that contains the manifest.";

/// Why there is no manifest for a directory.
pub open spec fn missing_text(
    cwd: Seq<char>,
    has_team_yml: bool,
    has_workers_yml: bool,
) -> Seq<char> {
    if has_team_yml {
        "No manifest found, but there's a team.yml here. Run this first:\n\n    collab init "@
            + paths::below(cwd, "team.yml"@) + TEAM_YML_END@
    } else if has_workers_yml {
        "No manifest found, but there's a workers.yml here. Run:\n\n    collab init "@
            + paths::below(cwd, "workers.yml"@) + "\n"@
    } else {
        NO_MANIFEST@
    }
}

/// The manifest for the directory `cwd`, given the directory `.collab` that was found, or what to
/// do to get one.
pub fn find_manifest(
    cwd: &str,
    collab_dir: &Option<String>,
    has_team_yml: bool,
    has_workers_yml: bool,
) -> (r: Result<String, String>)
    ensures
        match text::opt_text(*collab_dir) {
            Some(d) => r matches Ok(p) && p@ == paths::below(d, "workers.json"@),
            None => r matches Err(m) && m@ == missing_text(cwd@, has_team_yml, has_workers_yml),
        },
{
    if let Some(d) = collab_dir {
        return Ok(paths::join(d.as_str(), "workers.json"));
    }
    if has_team_yml {
        return Err(
            text::glue3(
                "No manifest found, but there's a team.yml here. Run this first:\n\n    collab init ",
                paths::join(cwd, "team.yml").as_str(),
                TEAM_YML_END,
            ),
        );
    }
    if has_workers_yml {
        return Err(
            text::glue3(
                "No manifest found, but there's a workers.yml here. Run:\n\n    collab init ",
                paths::join(cwd, "workers.yml").as_str(),
                "\n",
            ),
        );
    }
    Err(NO_MANIFEST.to_owned())
}

// ── Team manifests ──────────────────────────────────────────────────────────
/// A worker of a team as it can be started.
pub open spec fn startable(c: team::ConfigModel, w: team::WorkerModel) -> lifecycle::EntryModel {
    lifecycle::EntryModel {
        name: w.name,
        role: w.role,
        codebase_path: w.codebase_path,
        model: init::own_or_none(w.model, c.model),
        output_dir: w.codebase_path,
        cli_template: team::own_or(w.cli_template, c.cli_template),
        cli_template_light: None,
        reports_to: w.reports_to,
        works_with: w.works_with,
        hands_off_to: w.hands_off_to,
        shared_data_dir: c.shared_data_dir,
    }
}

/// The workers of a team as they can be started; each runs in its own codebase.
pub fn team_entries(cfg: &TeamConfig) -> (r: Vec<WorkerManifestEntry>)
    ensures
        r@.len() == cfg@.workers.len(),
        forall|i: int|
            0 <= i < r@.len() ==> (#[trigger] r@[i])@ == startable(cfg@, cfg@.workers[i]),
{
    let mut r: Vec<WorkerManifestEntry> = Vec::new();
    let mut i: usize = 0;
    while i < cfg.workers.len()
        invariant
            i <= cfg.workers@.len(),
            r@.len() == i,
            forall|k: int| 0 <= k < i ==> (#[trigger] r@[k])@ == startable(cfg@, cfg@.workers[k]),
        decreases cfg.workers@.len() - i,
    {
        let w = &cfg.workers[i];
        assert(cfg@.workers[i as int] == w@);
        let model = match cfg.resolved_model(w) {
            Some(m) => m,
            None => {
                let e = String::new();
                assert(e@ =~= Seq::<char>::empty());
                e
            },
        };
        let e = WorkerManifestEntry {
            name: w.name.clone(),
            role: w.role.clone(),
            codebase_path: w.codebase_path.clone(),
            model,
            output_dir: w.codebase_path.clone(),
            cli_template: cfg.resolved_cli_template(w),
            cli_template_light: None,
            reports_to: text::copy_opt(&w.reports_to),
            works_with: text::copy_list(&w.works_with),
            hands_off_to: text::copy_list(&w.hands_off_to),
            shared_data_dir: text::copy_opt(&cfg.shared_data_dir),
        };
        assert(e@ =~= startable(cfg@, w@));
        r.push(e);
        i += 1;
    }
    r
}

/// Where the running workers of a team are recorded: below the home directory, so that they are
/// found from every codebase.
pub fn team_pids_file_path(home: &Option<String>, team: &str) -> (r: Result<String, String>)
    ensures
        match text::opt_text(*home) {
            Some(h) => r matches Ok(p) && p@ == paths::below(
                paths::below(paths::below(paths::below(h, ".collab"@), "teams"@), team@),
                "workers.pids"@,
            ),
            None => r matches Err(m) && m@ == "HOME not set"@,
        },
{
    match home {
        Some(h) => {
            let collab = paths::join(h.as_str(), ".collab");
            let teams = paths::join(collab.as_str(), "teams");
            let dir = paths::join(teams.as_str(), team);
            Ok(paths::join(dir.as_str(), "workers.pids"))
        },
        None => Err("HOME not set".to_owned()),
    }
}

/// What somebody is told whose codebase belongs to a team, and who uses a project manifest in it.
pub fn refuse_project(marker: &TeamManagedMarker) -> (r: String)
    ensures
        r@ == "Refusing to init a workers.yml in a codebase managed by team '"@ + marker.team@
            + "' (source: "@ + marker.source@
            + "). Edit the team manifest and re-run `collab init "@ + marker.source@
            + "` instead."@,
{
    let mut r = text::glue3(
        "Refusing to init a workers.yml in a codebase managed by team '",
        marker.team.as_str(),
        "' (source: ",
    );
    r.append(marker.source.as_str());
    r.append("). Edit the team manifest and re-run `collab init ");
    r.append(marker.source.as_str());
    r.append("` instead.");
    r
}

// ── What a manifest says of a worker ────────────────────────────────────────
/// What a manifest says of a worker.
pub struct WorkerManifestLookup {
    pub reports_to: Option<String>,
    pub works_with: Vec<String>,
    /// Everybody's name and role.
    pub teammates: Vec<(String, String)>,
    pub cli_template: Option<String>,
    pub codebase_path: Option<String>,
    pub model: Option<String>,
}

/// The model of a [`WorkerManifestLookup`].
#[verifier::ext_equal]
pub struct LookupModel {
    pub reports_to: Option<Seq<char>>,
    pub works_with: Seq<Seq<char>>,
    pub teammates: Seq<(Seq<char>, Seq<char>)>,
    pub cli_template: Option<Seq<char>>,
    pub codebase_path: Option<Seq<char>>,
    pub model: Option<Seq<char>>,
}

impl View for WorkerManifestLookup {
    type V = LookupModel;

    open spec fn view(&self) -> LookupModel {
        LookupModel {
            reports_to: text::opt_text(self.reports_to),
            works_with: text::texts(self.works_with@),
            teammates: text::pair_texts(self.teammates@),
            cli_template: text::opt_text(self.cli_template),
            codebase_path: text::opt_text(self.codebase_path),
            model: text::opt_text(self.model),
        }
    }
}

/// The first worker of a team with the name.
pub open spec fn member(ws: Seq<team::WorkerModel>, name: Seq<char>) -> Option<team::WorkerModel>
    decreases ws.len(),
{
    if ws.len() == 0 {
        None
    } else if ws[0].name == name {
        Some(ws[0])
    } else {
        member(ws.drop_first(), name)
    }
}

/// What the manifest of a team says of a worker.
pub open spec fn team_lookup(c: team::ConfigModel, name: Seq<char>) -> LookupModel {
    let mates = Seq::new(c.workers.len(), |i: int| (c.workers[i].name, c.workers[i].role));
    match member(c.workers, name) {
        Some(w) => LookupModel {
            reports_to: w.reports_to,
            works_with: w.works_with,
            teammates: mates,
            cli_template: team::own_or(w.cli_template, c.cli_template),
            codebase_path: Some(w.codebase_path),
            model: team::own_or(w.model, c.model),
        },
        None => LookupModel {
            reports_to: None,
            works_with: Seq::empty(),
            teammates: mates,
            cli_template: None,
            codebase_path: None,
            model: None,
        },
    }
}

/// The first entry of a project with the name.
pub open spec fn entry(v: Seq<lifecycle::EntryModel>, name: Seq<char>) -> Option<
    lifecycle::EntryModel,
>
    decreases v.len(),
{
    if v.len() == 0 {
        None
    } else if v[0].name == name {
        Some(v[0])
    } else {
        entry(v.drop_first(), name)
    }
}

/// The entry says itself whom the worker reports to or works with.
pub open spec fn says_who(e: lifecycle::EntryModel) -> bool {
    e.reports_to is Some || e.works_with.len() > 0
}

/// What the manifest of a project says of a worker. Where an entry has only the older field, that
/// is split up as in a team's manifest.
pub open spec fn project_lookup(v: Seq<lifecycle::EntryModel>, name: Seq<char>) -> LookupModel {
    let mates = Seq::new(v.len(), |i: int| (v[i].name, v[i].role));
    match entry(v, name) {
        Some(e) => LookupModel {
            reports_to: if !says_who(e) && e.hands_off_to.len() > 0 {
                Some(e.hands_off_to[0])
            } else {
                e.reports_to
            },
            works_with: if !says_who(e) && e.hands_off_to.len() > 0 {
                e.hands_off_to.drop_first()
            } else {
                e.works_with
            },
            teammates: mates,
            cli_template: e.cli_template,
            codebase_path: Some(e.codebase_path),
            model: if e.model.len() > 0 {
                Some(e.model)
            } else {
                None
            },
        },
        None => LookupModel {
            reports_to: None,
            works_with: Seq::empty(),
            teammates: mates,
            cli_template: None,
            codebase_path: None,
            model: None,
        },
    }
}

/// What no manifest says.
pub open spec fn no_lookup() -> LookupModel {
    LookupModel {
        reports_to: None,
        works_with: Seq::empty(),
        teammates: Seq::empty(),
        cli_template: None,
        codebase_path: None,
        model: None,
    }
}

fn find_member(cfg: &TeamConfig, name: &str) -> (r: Option<usize>)
    ensures
        match r {
            Some(i) => i < cfg.workers@.len() && member(cfg@.workers, name@) == Some(
                cfg.workers@[i as int]@,
            ),
            None => member(cfg@.workers, name@) is None,
        },
{
    let ghost ws = cfg@.workers;
    let mut i: usize = 0;
    assert(ws.skip(0) =~= ws);
    while i < cfg.workers.len()
        invariant
            i <= cfg.workers@.len(),
            ws == cfg@.workers,
            member(ws, name@) == member(ws.skip(i as int), name@),
        decreases cfg.workers@.len() - i,
    {
        assert(ws.skip(i as int).drop_first() =~= ws.skip(i + 1));
        assert(ws.skip(i as int)[0] == cfg.workers@[i as int]@);
        if text::same(cfg.workers[i].name.as_str(), name) {
            return Some(i);
        }
        i += 1;
    }
    None
}

fn lookup_in_team(cfg: &TeamConfig, name: &str) -> (r: WorkerManifestLookup)
    ensures
        r@ == team_lookup(cfg@, name@),
{
    let ghost mates = Seq::new(
        cfg@.workers.len(),
        |i: int| (cfg@.workers[i].name, cfg@.workers[i].role),
    );
    let mut teammates: Vec<(String, String)> = Vec::new();
    let mut i: usize = 0;
    while i < cfg.workers.len()
        invariant
            i <= cfg.workers@.len(),
            teammates@.len() == i,
            forall|k: int|
                0 <= k < i ==> ((#[trigger] teammates@[k]).0@, teammates@[k].1@) == (
                    cfg@.workers[k].name,
                    cfg@.workers[k].role,
                ),
        decreases cfg.workers@.len() - i,
    {
        teammates.push((cfg.workers[i].name.clone(), cfg.workers[i].role.clone()));
        i += 1;
    }
    assert(text::pair_texts(teammates@) =~= mates);
    let r = match find_member(cfg, name) {
        Some(k) => {
            let w = &cfg.workers[k];
            WorkerManifestLookup {
                reports_to: text::copy_opt(&w.reports_to),
                works_with: text::copy_list(&w.works_with),
                teammates,
                cli_template: cfg.resolved_cli_template(w),
                codebase_path: Some(w.codebase_path.clone()),
                model: cfg.resolved_model(w),
            }
        },
        None => WorkerManifestLookup {
            reports_to: None,
            works_with: Vec::new(),
            teammates,
            cli_template: None,
            codebase_path: None,
            model: None,
        },
    };
    assert(r@ =~= team_lookup(cfg@, name@));
    r
}

fn find_entry(v: &Vec<WorkerManifestEntry>, name: &str) -> (r: Option<usize>)
    ensures
        match r {
            Some(i) => i < v@.len() && entry(lifecycle::entry_models(v@), name@) == Some(
                v@[i as int]@,
            ),
            None => entry(lifecycle::entry_models(v@), name@) is None,
        },
{
    let ghost all = lifecycle::entry_models(v@);
    let mut i: usize = 0;
    assert(all.skip(0) =~= all);
    while i < v.len()
        invariant
            i <= v@.len(),
            all == lifecycle::entry_models(v@),
            entry(all, name@) == entry(all.skip(i as int), name@),
        decreases v@.len() - i,
    {
        assert(all.skip(i as int).drop_first() =~= all.skip(i + 1));
        assert(all.skip(i as int)[0] == v@[i as int]@);
        if text::same(v[i].name.as_str(), name) {
            return Some(i);
        }
        i += 1;
    }
    None
}

fn lookup_in_project(v: &Vec<WorkerManifestEntry>, name: &str) -> (r: WorkerManifestLookup)
    ensures
        r@ == project_lookup(lifecycle::entry_models(v@), name@),
{
    let ghost all = lifecycle::entry_models(v@);
    let ghost mates = Seq::new(all.len(), |i: int| (all[i].name, all[i].role));
    let mut teammates: Vec<(String, String)> = Vec::new();
    let mut i: usize = 0;
    while i < v.len()
        invariant
            i <= v@.len(),
            all == lifecycle::entry_models(v@),
            teammates@.len() == i,
            forall|k: int|
                0 <= k < i ==> ((#[trigger] teammates@[k]).0@, teammates@[k].1@) == (
                    all[k].name,
                    all[k].role,
                ),
        decreases v@.len() - i,
    {
        teammates.push((v[i].name.clone(), v[i].role.clone()));
        i += 1;
    }
    assert(text::pair_texts(teammates@) =~= mates);
    let mut reports_to: Option<String> = None;
    let mut works_with: Vec<String> = Vec::new();
    let mut cli_template: Option<String> = None;
    let mut codebase_path: Option<String> = None;
    let mut model: Option<String> = None;
    assert(text::texts(works_with@) =~= Seq::<Seq<char>>::empty());
    if let Some(k) = find_entry(v, name) {
        let e = &v[k];
        if e.reports_to.is_some() || e.works_with.len() > 0 || e.hands_off_to.len() == 0 {
            reports_to = text::copy_opt(&e.reports_to);
            works_with = text::copy_list(&e.works_with);
        } else {
            let mut rest = text::copy_list(&e.hands_off_to);
            let ghost names = rest@;
            let first = rest.remove(0);
            proof {
                assert(names.remove(0) =~= names.drop_first());
                assert(text::texts(rest@) =~= e@.hands_off_to.drop_first());
                assert(text::texts(names)[0] == first@);
            }
            reports_to = Some(first);
            works_with = rest;
        }
        cli_template = text::copy_opt(&e.cli_template);
        codebase_path = Some(e.codebase_path.clone());
        if !e.model.as_str().is_empty() {
            model = Some(e.model.clone());
        }
    }
    let r = WorkerManifestLookup {
        reports_to,
        works_with,
        teammates,
        cli_template,
        codebase_path,
        model,
    };
    assert(r@ =~= project_lookup(all, name@));
    r
}

/// What the manifests say of a worker: that of its team, else that of its project, else nothing.
pub fn resolve_worker_manifest(
    team: &Option<TeamConfig>,
    project: &Option<Vec<WorkerManifestEntry>>,
    name: &str,
) -> (r: WorkerManifestLookup)
    ensures
        r@ == (match *team {
            Some(c) => team_lookup(c@, name@),
            None => match *project {
                Some(v) => project_lookup(lifecycle::entry_models(v@), name@),
                None => no_lookup(),
            },
        }),
{
    if let Some(c) = team {
        return lookup_in_team(c, name);
    }
    if let Some(v) = project {
        return lookup_in_project(v, name);
    }
    let r = WorkerManifestLookup {
        reports_to: None,
        works_with: Vec::new(),
        teammates: Vec::new(),
        cli_template: None,
        codebase_path: None,
        model: None,
    };
    assert(r@ =~= no_lookup());
    r
}

/// What somebody is told whose codebase names a team manifest that cannot be used.
pub fn fallback_warning(source: &str, why: &str) -> (r: String)
    ensures
        r@ == "warning: .collab/team-managed points at "@ + source@ + " but it failed to load: "@
            + why@ + ". Falling back to legacy manifest resolution."@,
{
    let mut r = text::glue3(
        "warning: .collab/team-managed points at ",
        source,
        " but it failed to load: ",
    );
    r.append(why);
    r.append(". Falling back to legacy manifest resolution.");
    r
}

/// How a worker runs.
pub struct Resolved {
    pub workdir: String,
    pub model: String,
    pub cli_template: Option<String>,
}

/// How a worker runs: flags come before what the manifest says, and `here` is the directory that
/// the caller is in.
pub fn resolve_worker(
    workdir: Option<String>,
    model: Option<String>,
    cli_template: Option<String>,
    found: &WorkerManifestLookup,
    here: &str,
) -> (r: Resolved)
    ensures
        r.workdir@ == (match team::own_or(text::opt_text(workdir), found@.codebase_path) {
            Some(d) => d,
            None => here@,
        }),
        r.model@ == init::own_or_none(text::opt_text(model), found@.model),
        text::opt_text(r.cli_template) == team::own_or(
            text::opt_text(cli_template),
            found@.cli_template,
        ),
{
    let workdir = match workdir {
        Some(d) => d,
        None => match &found.codebase_path {
            Some(d) => d.clone(),
            None => here.to_owned(),
        },
    };
    let model = match model {
        Some(m) => m,
        None => match &found.model {
            Some(m) => m.clone(),
            None => {
                let e = String::new();
                assert(e@ =~= Seq::<char>::empty());
                e
            },
        },
    };
    let cli_template = match cli_template {
        Some(t) => Some(t),
        None => text::copy_opt(&found.cli_template),
    };
    Resolved { workdir, model, cli_template }
}

// ── The role of a worker ────────────────────────────────────────────────────
/// The manifest that governs a codebase, and where it stands.
pub enum Governing {
    Team(TeamConfig, String),
    /// The project manifest as it was parsed.
    Legacy(Result<ProjectConfig, String>, String),
    Nothing,
}

/// The directory whose marker names the manifest that governs `from`: the nearest marked one at or
/// above it. `found` says of each of them whether it is marked.
pub fn governing_dir(from: &str, found: &Vec<bool>) -> (r: Option<String>)
    ensures
        text::opt_text(r) == config::first_hit(paths::upward(from@), found@),
{
    config::first_found(&paths::ancestors(from), found)
}

/// Decides which manifest governs a codebase, given that of its team and that of its project,
/// each with where it stands and what parsing it gave. That of a team comes first.
pub fn govern(
    team: Option<(String, Result<TeamConfig, String>)>,
    project: Option<(String, Result<ProjectConfig, String>)>,
) -> (r: Result<Governing, String>)
    ensures
        match team {
            Some((source, Ok(c))) => r == Ok::<Governing, String>(Governing::Team(c, source)),
            Some((source, Err(e))) => r matches Err(m) && m@ == "loading team.yml at "@ + source@
                + ": "@ + e@,
            None => r == Ok::<Governing, String>(
                match project {
                    Some((source, parsed)) => Governing::Legacy(parsed, source),
                    None => Governing::Nothing,
                },
            ),
        },
{
    match team {
        Some((source, Ok(c))) => Ok(Governing::Team(c, source)),
        Some((source, Err(e))) => {
            let mut m = text::glue3("loading team.yml at ", source.as_str(), ": ");
            m.append(e.as_str());
            Err(m)
        },
        None => match project {
            Some((source, parsed)) => Ok(Governing::Legacy(parsed, source)),
            None => Ok(Governing::Nothing),
        },
    }
}

/// A line where there is something to say.
pub open spec fn maybe_line(label: Seq<char>, value: Option<Seq<char>>) -> Seq<char> {
    match value {
        Some(v) => label + v,
        None => Seq::empty(),
    }
}

/// A line with names where there are any.
pub open spec fn names_line(label: Seq<char>, names: Seq<Seq<char>>) -> Seq<char> {
    if names.len() == 0 {
        Seq::empty()
    } else {
        label + text::joined(lifecycle::at_names(names), ", "@)
    }
}

/// The tasks where there are any.
pub open spec fn task_lines(tasks: Option<Seq<char>>) -> Seq<char> {
    match tasks {
        Some(t) => "\n\ntasks:\n"@ + text::trimmed(t),
        None => Seq::empty(),
    }
}

/// What is shown of the role of a worker of a team.
pub open spec fn team_role(
    c: team::ConfigModel,
    w: team::WorkerModel,
    source: Seq<char>,
) -> Seq<char> {
    "role (from team.yml: "@ + source + ")\n  team:            "@ + c.team + "\n  name:            "@
        + w.name + "\n  role:            "@ + w.role + "\n  codebase_path:   "@ + w.codebase_path
        + maybe_line("\n  model:           "@, team::own_or(w.model, c.model)) + maybe_line(
        "\n  cli_template:    "@,
        team::own_or(w.cli_template, c.cli_template),
    ) + maybe_line("\n  reports_to:      @"@, w.reports_to) + names_line(
        "\n  works_with:      "@,
        w.works_with,
    ) + task_lines(w.tasks)
}

/// What is shown of the role of a worker of a project.
pub open spec fn project_role(
    c: init::ProjectModel,
    w: init::WorkerModel,
    source: Seq<char>,
) -> Seq<
    char,
> {
    "role (from workers.yml: "@ + source + ")\n  name:            "@ + w.name
        + "\n  role:            "@ + w.role + maybe_line(
        "\n  model:           "@,
        team::own_or(w.model, c.model),
    ) + maybe_line("\n  cli_template:    "@, team::own_or(w.cli_template, c.cli_template))
        + names_line("\n  hands_off_to:    "@, w.hands_off_to) + task_lines(w.tasks)
}

/// The first worker of a project with the name.
pub open spec fn project_member(ws: Seq<init::WorkerModel>, name: Seq<char>) -> Option<
    init::WorkerModel,
>
    decreases ws.len(),
{
    if ws.len() == 0 {
        None
    } else if ws[0].name == name {
        Some(ws[0])
    } else {
        project_member(ws.drop_first(), name)
    }
}

/// What somebody is told who does not say who they are.
pub const NO_INSTANCE: &'static str =
    "Set $COLLAB_INSTANCE (or --instance) so we know which role entry to print";

/// What somebody is told whose codebase no manifest governs.
pub const NO_GOVERNING: &'static str =
    "No governing manifest found. Looked for .collab/team-managed and workers.yml. Run `collab init` against a team.yml or workers.yml first.";

/// What somebody is told who would change a role where no manifest governs.
pub const NOTHING_TO_EDIT: &'static str =
    "Nothing to edit: no team.yml or workers.yml governs this codebase.";

/// What is shown of a role, or why nothing is.
pub open spec fn role_shown(
    g: Governing,
    instance: Option<Seq<char>>,
) -> Result<Seq<char>, Seq<char>> {
    match instance {
        None => Err(NO_INSTANCE@),
        Some(me) => match g {
            Governing::Team(c, source) => match member(c@.workers, me) {
                Some(w) => Ok(team_role(c@, w, source@)),
                None => Err(
                    "No entry for @"@ + me + " in "@ + source@
                        + ". Add it or check $COLLAB_INSTANCE."@,
                ),
            },
            Governing::Legacy(parsed, source) => match parsed {
                Err(e) => Err("parsing "@ + source@ + ": "@ + e@),
                Ok(c) => match project_member(c@.workers, me) {
                    Some(w) => Ok(project_role(c@, w, source@)),
                    None => Err("No entry for @"@ + me + " in "@ + source@ + "."@),
                },
            },
            Governing::Nothing => Err(NO_GOVERNING@),
        },
    }
}

fn add_line(r: &mut String, label: &str, value: &Option<String>)
    ensures
        final(r)@ == old(r)@ + maybe_line(label@, text::opt_text(*value)),
{
    let ghost before = r@;
    match value {
        Some(v) => {
            r.append(text::glue(label, v.as_str()).as_str());
        },
        None => {
            assert(before + Seq::<char>::empty() =~= before);
        },
    }
}

fn add_names(r: &mut String, label: &str, names: &Vec<String>)
    ensures
        final(r)@ == old(r)@ + names_line(label@, text::texts(names@)),
{
    let ghost before = r@;
    if names.len() == 0 {
        assert(before + Seq::<char>::empty() =~= before);
    } else {
        r.append(text::glue(label, lifecycle::at_list(names).as_str()).as_str());
    }
}

fn add_tasks(r: &mut String, tasks: &Option<String>)
    ensures
        final(r)@ == old(r)@ + task_lines(text::opt_text(*tasks)),
{
    let ghost before = r@;
    match tasks {
        Some(t) => {
            r.append(
                text::glue("\n\ntasks:\n", text::trim(t.as_str()).as_str()).as_str(),
            );
        },
        None => {
            assert(before + Seq::<char>::empty() =~= before);
        },
    }
}

fn team_role_text(c: &TeamConfig, w: &TeamWorker, source: &str) -> (r: String)
    ensures
        r@ == team_role(c@, w@, source@),
{
    let mut r = text::glue3("role (from team.yml: ", source, ")\n  team:            ");
    r.append(c.team.as_str());
    r.append("\n  name:            ");
    r.append(w.name.as_str());
    r.append("\n  role:            ");
    r.append(w.role.as_str());
    r.append("\n  codebase_path:   ");
    r.append(w.codebase_path.as_str());
    let model = c.resolved_model(w);
    add_line(&mut r, "\n  model:           ", &model);
    let template = c.resolved_cli_template(w);
    add_line(&mut r, "\n  cli_template:    ", &template);
    add_line(&mut r, "\n  reports_to:      @", &w.reports_to);
    add_names(&mut r, "\n  works_with:      ", &w.works_with);
    add_tasks(&mut r, &w.tasks);
    r
}

fn project_role_text(c: &ProjectConfig, w: &init::WorkerConfig, source: &str) -> (r: String)
    ensures
        r@ == project_role(c@, w@, source@),
{
    let mut r = text::glue3("role (from workers.yml: ", source, ")\n  name:            ");
    r.append(w.name.as_str());
    r.append("\n  role:            ");
    r.append(w.role.as_str());
    if w.model.is_some() {
        add_line(&mut r, "\n  model:           ", &w.model);
    } else {
        add_line(&mut r, "\n  model:           ", &c.model);
    }
    if w.cli_template.is_some() {
        add_line(&mut r, "\n  cli_template:    ", &w.cli_template);
    } else {
        add_line(&mut r, "\n  cli_template:    ", &c.cli_template);
    }
    add_names(&mut r, "\n  hands_off_to:    ", &w.hands_off_to);
    add_tasks(&mut r, &w.tasks);
    r
}

fn find_project_member(c: &ProjectConfig, name: &str) -> (r: Option<usize>)
    ensures
        match r {
            Some(i) => i < c.workers@.len() && project_member(c@.workers, name@) == Some(
                c.workers@[i as int]@,
            ),
            None => project_member(c@.workers, name@) is None,
        },
{
    let ghost ws = c@.workers;
    let mut i: usize = 0;
    assert(ws.skip(0) =~= ws);
    while i < c.workers.len()
        invariant
            i <= c.workers@.len(),
            ws == c@.workers,
            project_member(ws, name@) == project_member(ws.skip(i as int), name@),
        decreases c.workers@.len() - i,
    {
        assert(ws.skip(i as int).drop_first() =~= ws.skip(i + 1));
        assert(ws.skip(i as int)[0] == c.workers@[i as int]@);
        if text::same(c.workers[i].name.as_str(), name) {
            return Some(i);
        }
        i += 1;
    }
    None
}

/// What is shown of the role of a worker.
pub fn role_show(g: &Governing, instance: &Option<String>) -> (r: Result<String, String>)
    ensures
        match role_shown(*g, text::opt_text(*instance)) {
            Ok(t) => r matches Ok(s) && s@ == t,
            Err(e) => r matches Err(m) && m@ == e,
        },
{
    let me = match instance {
        Some(me) => me.as_str(),
        None => {
            return Err(NO_INSTANCE.to_owned());
        },
    };
    match g {
        Governing::Team(c, source) => match find_member(c, me) {
            Some(i) => Ok(team_role_text(c, &c.workers[i], source.as_str())),
            None => {
                let mut m = text::glue3("No entry for @", me, " in ");
                m.append(source.as_str());
                m.append(". Add it or check $COLLAB_INSTANCE.");
                Err(m)
            },
        },
        Governing::Legacy(parsed, source) => match parsed {
            Err(e) => {
                let mut m = text::glue3("parsing ", source.as_str(), ": ");
                m.append(e.as_str());
                Err(m)
            },
            Ok(c) => match find_project_member(c, me) {
                Some(i) => Ok(project_role_text(c, &c.workers[i], source.as_str())),
                None => {
                    let mut m = text::glue3("No entry for @", me, " in ");
                    m.append(source.as_str());
                    m.append(".");
                    Err(m)
                },
            },
        },
        Governing::Nothing => Err(NO_GOVERNING.to_owned()),
    }
}

/// The file in which a role is changed.
pub fn role_source(g: &Governing) -> (r: Result<String, String>)
    ensures
        match *g {
            Governing::Team(_, source) => r matches Ok(s) && s@ == source@,
            Governing::Legacy(_, source) => r matches Ok(s) && s@ == source@,
            Governing::Nothing => r matches Err(m) && m@ == NOTHING_TO_EDIT@,
        },
{
    match g {
        Governing::Team(_, source) => Ok(source.clone()),
        Governing::Legacy(_, source) => Ok(source.clone()),
        Governing::Nothing => Err(NOTHING_TO_EDIT.to_owned()),
    }
}

// ── Laws ────────────────────────────────────────────────────────────────────
/// A worker is found exactly where one has the name.
pub proof fn members_are_found(ws: Seq<team::WorkerModel>, name: Seq<char>)
    ensures
        member(ws, name) is Some <==> team::named(ws, name),
        member(ws, name) matches Some(w) ==> ws.contains(w) && w.name == name,
    decreases ws.len(),
{
    if ws.len() > 0 {
        let rest = ws.drop_first();
        members_are_found(rest, name);
        if ws[0].name == name {
            assert(ws.contains(ws[0]));
        } else {
            if team::named(ws, name) {
                let i = choose|i: int| 0 <= i < ws.len() && (#[trigger] ws[i]).name == name;
                assert(rest[i - 1] == ws[i]);
            }
            if member(rest, name) is Some {
                let w = member(rest, name)->0;
                let i = choose|i: int| 0 <= i < rest.len() && rest[i] == w;
                assert(ws[i + 1] == w);
            }
        }
    }
}

/// The same is said by a project's manifest as by a team's: what a worker of a project is looked
/// up as is what it is once it has been adopted and brought up to date.
pub proof fn lookups_agree(e: lifecycle::EntryModel, w: team::WorkerModel)
    requires
        w.hands_off_to == e.hands_off_to,
        w.reports_to == e.reports_to,
        w.works_with == e.works_with,
    ensures
        ({
            let l = project_lookup(seq![e], e.name);
            team::migrated(w).reports_to == l.reports_to && team::migrated(w).works_with
                == l.works_with
        }),
{
    assert(entry(seq![e], e.name) == Some(e));
}

/// The first member of a name is the one.
pub proof fn the_first_member_counts(
    a: Seq<team::WorkerModel>,
    b: Seq<team::WorkerModel>,
    x: team::WorkerModel,
    name: Seq<char>,
)
    ensures
        member(a + b, name) == (if member(a, name) is Some {
            member(a, name)
        } else {
            member(b, name)
        }),
        member(seq![x], name) == (if x.name == name {
            Some(x)
        } else {
            None
        }),
    decreases a.len(),
{
    let one = seq![x];
    assert(one.drop_first() =~= Seq::<team::WorkerModel>::empty());
    assert(member(one.drop_first(), name) is None);
    if a.len() == 0 {
        assert(a + b =~= b);
    } else {
        the_first_member_counts(a.drop_first(), b, x, name);
        assert((a + b).drop_first() =~= a.drop_first() + b);
        assert((a + b)[0] == a[0]);
    }
}

/// The first entry of a name is the one.
pub proof fn the_first_entry_counts(
    a: Seq<lifecycle::EntryModel>,
    b: Seq<lifecycle::EntryModel>,
    x: lifecycle::EntryModel,
    name: Seq<char>,
)
    ensures
        entry(a + b, name) == (if entry(a, name) is Some {
            entry(a, name)
        } else {
            entry(b, name)
        }),
        entry(seq![x], name) == (if x.name == name {
            Some(x)
        } else {
            None
        }),
    decreases a.len(),
{
    let one = seq![x];
    assert(one.drop_first() =~= Seq::<lifecycle::EntryModel>::empty());
    assert(entry(one.drop_first(), name) is None);
    if a.len() == 0 {
        assert(a + b =~= b);
    } else {
        the_first_entry_counts(a.drop_first(), b, x, name);
        assert((a + b).drop_first() =~= a.drop_first() + b);
        assert((a + b)[0] == a[0]);
    }
}

/// The first member of a project with a name is the one.
pub proof fn the_first_project_member_counts(
    a: Seq<init::WorkerModel>,
    b: Seq<init::WorkerModel>,
    x: init::WorkerModel,
    name: Seq<char>,
)
    ensures
        project_member(a + b, name) == (if project_member(a, name) is Some {
            project_member(a, name)
        } else {
            project_member(b, name)
        }),
        project_member(seq![x], name) == (if x.name == name {
            Some(x)
        } else {
            None
        }),
    decreases a.len(),
{
    let one = seq![x];
    assert(one.drop_first() =~= Seq::<init::WorkerModel>::empty());
    assert(project_member(one.drop_first(), name) is None);
    if a.len() == 0 {
        assert(a + b =~= b);
    } else {
        the_first_project_member_counts(a.drop_first(), b, x, name);
        assert((a + b).drop_first() =~= a.drop_first() + b);
        assert((a + b)[0] == a[0]);
    }
}

/// The manifest of a directory stands in its own directory there.
pub proof fn manifests_have_their_place(dir: Seq<char>)
    requires
        dir.len() > 0,
        dir.last() != '/',
    ensures
        manifest_in(dir) == dir + "/.collab/workers.json"@,
{
    reveal_strlit("/.collab/workers.json");
    reveal_strlit(".collab");
    reveal_strlit("workers.json");
    paths::paths_are_joined(dir, ".collab"@);
    let d = paths::below(dir, ".collab"@);
    paths::paths_are_joined(d, "workers.json"@);
    assert(manifest_in(dir) =~= dir + "/.collab/workers.json"@);
}

/// Without a manifest one is told how to make it: from the team's file where there is one, else from
/// the workers' file.
pub proof fn missing_manifests_are_explained(
    cwd: Seq<char>,
    has_team_yml: bool,
    has_workers_yml: bool,
)
    ensures
        has_team_yml ==> text::holds(
            missing_text(cwd, has_team_yml, has_workers_yml),
            "collab init "@ + paths::below(cwd, "team.yml"@),
        ),
        !has_team_yml && has_workers_yml ==> text::holds(
            missing_text(cwd, has_team_yml, has_workers_yml),
            "collab init "@ + paths::below(cwd, "workers.yml"@),
        ),
        !has_team_yml && !has_workers_yml ==> missing_text(cwd, has_team_yml, has_workers_yml)
            == NO_MANIFEST@,
{
    let c = "collab init "@;
    let a = "No manifest found, but there's a team.yml here. Run this first:\n\n    collab init "@;
    let b = "No manifest found, but there's a workers.yml here. Run:\n\n    collab init "@;
    reveal_strlit("collab init ");
    reveal_strlit("No manifest found, but there's a team.yml here. Run this first:\n\n    collab init ");
    reveal_strlit("No manifest found, but there's a workers.yml here. Run:\n\n    collab init ");
    let x = paths::below(cwd, "team.yml"@);
    let y = paths::below(cwd, "workers.yml"@);
    let la = a.take(a.len() - c.len());
    let lb = b.take(b.len() - c.len());
    assert(a =~= la + c);
    assert(b =~= lb + c);
    text::middle_is_held(la, c + x, TEAM_YML_END@);
    text::middle_is_held(lb, c + y, "\n"@);
    assert(la + (c + x) + TEAM_YML_END@ =~= a + x + TEAM_YML_END@);
    assert(lb + (c + y) + "\n"@ =~= b + y + "\n"@);
}

/// A worker of a team is started in its codebase, by its own model and command where it has them and
/// the team's otherwise.
pub proof fn team_workers_start_at_home(c: team::ConfigModel, w: team::WorkerModel)
    ensures
        ({
            let e = startable(c, w);
            &&& e.name == w.name && e.role == w.role
            &&& e.codebase_path == w.codebase_path && e.output_dir == w.codebase_path
            &&& e.reports_to == w.reports_to && e.works_with == w.works_with
            &&& e.hands_off_to == w.hands_off_to && e.shared_data_dir == c.shared_data_dir
            &&& w.model matches Some(m) ==> e.model == m
            &&& w.model is None && c.model is Some ==> e.model == c.model->0
            &&& w.cli_template is Some ==> e.cli_template == w.cli_template
            &&& w.cli_template is None ==> e.cli_template == c.cli_template
        }),
{
}

/// A worker is found with its own entry; whether it is or not, everybody of the manifest is a
/// teammate.
pub proof fn lookups_are_exact(
    c: team::ConfigModel,
    v: Seq<lifecycle::EntryModel>,
    name: Seq<char>,
    i: int,
)
    ensures
        ({
            let l = team_lookup(c, name);
            &&& l.teammates.len() == c.workers.len()
            &&& 0 <= i < c.workers.len() ==> l.teammates[i] == (c.workers[i].name, c.workers[i].role)
            &&& member(c.workers, name) is None ==> l.reports_to is None && l.works_with.len() == 0
                && l.cli_template is None && l.codebase_path is None && l.model is None
            &&& member(c.workers, name) matches Some(w) ==> {
                &&& l.reports_to == w.reports_to && l.works_with == w.works_with
                &&& l.codebase_path == Some(w.codebase_path)
                &&& l.model == (if w.model is Some {
                    w.model
                } else {
                    c.model
                })
                &&& l.cli_template == (if w.cli_template is Some {
                    w.cli_template
                } else {
                    c.cli_template
                })
            }
        }),
        ({
            let l = project_lookup(v, name);
            &&& l.teammates.len() == v.len()
            &&& 0 <= i < v.len() ==> l.teammates[i] == (v[i].name, v[i].role)
            &&& entry(v, name) is None ==> l.reports_to is None && l.works_with.len() == 0
                && l.cli_template is None && l.codebase_path is None && l.model is None
            &&& entry(v, name) matches Some(e) ==> {
                &&& l.codebase_path == Some(e.codebase_path) && l.cli_template == e.cli_template
                &&& e.model.len() > 0 ==> l.model == Some(e.model)
                &&& e.model.len() == 0 ==> l.model is None
                &&& e.reports_to is Some || e.works_with.len() > 0 || e.hands_off_to.len() == 0
                    ==> l.reports_to == e.reports_to && l.works_with == e.works_with
                &&& e.reports_to is None && e.works_with.len() == 0 && e.hands_off_to.len() > 0
                    ==> l.reports_to is Some && seq![l.reports_to->0] + l.works_with
                    == e.hands_off_to
            }
        }),
{
    if let Some(e) = entry(v, name) {
        if e.hands_off_to.len() > 0 {
            assert(seq![e.hands_off_to[0]] + e.hands_off_to.drop_first() =~= e.hands_off_to);
        }
    }
}

/// A role is shown exactly where it is known who asks and the manifest can be read and has an entry
/// for them.
pub proof fn roles_are_shown_to_members(g: Governing, instance: Option<Seq<char>>)
    ensures
        role_shown(g, instance) is Ok <==> instance is Some && match g {
            Governing::Team(c, _) => member(c@.workers, instance->0) is Some,
            Governing::Legacy(p, _) => p is Ok && project_member(p->Ok_0@.workers, instance->0) is Some,
            Governing::Nothing => false,
        },
{
}

/// What is shown of a worker of a team tells the team, its name, its role and its codebase, and what
/// else is configured.
pub proof fn team_roles_are_whole(c: team::ConfigModel, w: team::WorkerModel, source: Seq<char>)
    ensures
        text::holds(team_role(c, w, source), source),
        text::holds(team_role(c, w, source), c.team),
        text::holds(team_role(c, w, source), w.name),
        text::holds(team_role(c, w, source), w.role),
        text::holds(team_role(c, w, source), w.codebase_path),
        text::holds(team_role(c, w, source), maybe_line("\n  model:           "@, team::own_or(w.model, c.model))),
        text::holds(team_role(c, w, source), maybe_line("\n  cli_template:    "@, team::own_or(w.cli_template, c.cli_template))),
        text::holds(team_role(c, w, source), maybe_line("\n  reports_to:      @"@, w.reports_to)),
        text::holds(team_role(c, w, source), names_line("\n  works_with:      "@, w.works_with)),
        text::holds(team_role(c, w, source), task_lines(w.tasks)),
{
    let p0 = "role (from team.yml: "@;
    let p1 = source;
    let p2 = ")\n  team:            "@;
    let p3 = c.team;
    let p4 = "\n  name:            "@;
    let p5 = w.name;
    let p6 = "\n  role:            "@;
    let p7 = w.role;
    let p8 = "\n  codebase_path:   "@;
    let p9 = w.codebase_path;
    let p10 = maybe_line("\n  model:           "@, team::own_or(w.model, c.model));
    let p11 = maybe_line("\n  cli_template:    "@, team::own_or(w.cli_template, c.cli_template));
    let p12 = maybe_line("\n  reports_to:      @"@, w.reports_to);
    let p13 = names_line("\n  works_with:      "@, w.works_with);
    let p14 = task_lines(w.tasks);
    text::end_is_held(p0, p1);
    text::held_with_more(p0 + p1, p2, p1);
    text::held_with_more(p0 + p1 + p2, p3, p1);
    text::held_with_more(p0 + p1 + p2 + p3, p4, p1);
    text::held_with_more(p0 + p1 + p2 + p3 + p4, p5, p1);
    text::held_with_more(p0 + p1 + p2 + p3 + p4 + p5, p6, p1);
    text::held_with_more(p0 + p1 + p2 + p3 + p4 + p5 + p6, p7, p1);
    text::held_with_more(p0 + p1 + p2 + p3 + p4 + p5 + p6 + p7, p8, p1);
    text::held_with_more(p0 + p1 + p2 + p3 + p4 + p5 + p6 + p7 + p8, p9, p1);
    text::held_with_more(p0 + p1 + p2 + p3 + p4 + p5 + p6 + p7 + p8 + p9, p10, p1);
    text::held_with_more(p0 + p1 + p2 + p3 + p4 + p5 + p6 + p7 + p8 + p9 + p10, p11, p1);
    text::held_with_more(p0 + p1 + p2 + p3 + p4 + p5 + p6 + p7 + p8 + p9 + p10 + p11, p12, p1);
    text::held_with_more(p0 + p1 + p2 + p3 + p4 + p5 + p6 + p7 + p8 + p9 + p10 + p11 + p12, p13, p1);
    text::held_with_more(p0 + p1 + p2 + p3 + p4 + p5 + p6 + p7 + p8 + p9 + p10 + p11 + p12 + p13, p14, p1);
    text::end_is_held(p0 + p1 + p2, p3);
    text::held_with_more(p0 + p1 + p2 + p3, p4, p3);
    text::held_with_more(p0 + p1 + p2 + p3 + p4, p5, p3);
    text::held_with_more(p0 + p1 + p2 + p3 + p4 + p5, p6, p3);
    text::held_with_more(p0 + p1 + p2 + p3 + p4 + p5 + p6, p7, p3);
    text::held_with_more(p0 + p1 + p2 + p3 + p4 + p5 + p6 + p7, p8, p3);
    text::held_with_more(p0 + p1 + p2 + p3 + p4 + p5 + p6 + p7 + p8, p9, p3);
    text::held_with_more(p0 + p1 + p2 + p3 + p4 + p5 + p6 + p7 + p8 + p9, p10, p3);
    text::held_with_more(p0 + p1 + p2 + p3 + p4 + p5 + p6 + p7 + p8 + p9 + p10, p11, p3);
    text::held_with_more(p0 + p1 + p2 + p3 + p4 + p5 + p6 + p7 + p8 + p9 + p10 + p11, p12, p3);
    text::held_with_more(p0 + p1 + p2 + p3 + p4 + p5 + p6 + p7 + p8 + p9 + p10 + p11 + p12, p13, p3);
    text::held_with_more(p0 + p1 + p2 + p3 + p4 + p5 + p6 + p7 + p8 + p9 + p10 + p11 + p12 + p13, p14, p3);
    text::end_is_held(p0 + p1 + p2 + p3 + p4, p5);
    text::held_with_more(p0 + p1 + p2 + p3 + p4 + p5, p6, p5);
    text::held_with_more(p0 + p1 + p2 + p3 + p4 + p5 + p6, p7, p5);
    text::held_with_more(p0 + p1 + p2 + p3 + p4 + p5 + p6 + p7, p8, p5);
    text::held_with_more(p0 + p1 + p2 + p3 + p4 + p5 + p6 + p7 + p8, p9, p5);
    text::held_with_more(p0 + p1 + p2 + p3 + p4 + p5 + p6 + p7 + p8 + p9, p10, p5);
    text::held_with_more(p0 + p1 + p2 + p3 + p4 + p5 + p6 + p7 + p8 + p9 + p10, p11, p5);
    text::held_with_more(p0 + p1 + p2 + p3 + p4 + p5 + p6 + p7 + p8 + p9 + p10 + p11, p12, p5);
    text::held_with_more(p0 + p1 + p2 + p3 + p4 + p5 + p6 + p7 + p8 + p9 + p10 + p11 + p12, p13, p5);
    text::held_with_more(p0 + p1 + p2 + p3 + p4 + p5 + p6 + p7 + p8 + p9 + p10 + p11 + p12 + p13, p14, p5);
    text::end_is_held(p0 + p1 + p2 + p3 + p4 + p5 + p6, p7);
    text::held_with_more(p0 + p1 + p2 + p3 + p4 + p5 + p6 + p7, p8, p7);
    text::held_with_more(p0 + p1 + p2 + p3 + p4 + p5 + p6 + p7 + p8, p9, p7);
    text::held_with_more(p0 + p1 + p2 + p3 + p4 + p5 + p6 + p7 + p8 + p9, p10, p7);
    text::held_with_more(p0 + p1 + p2 + p3 + p4 + p5 + p6 + p7 + p8 + p9 + p10, p11, p7);
    text::held_with_more(p0 + p1 + p2 + p3 + p4 + p5 + p6 + p7 + p8 + p9 + p10 + p11, p12, p7);
    text::held_with_more(p0 + p1 + p2 + p3 + p4 + p5 + p6 + p7 + p8 + p9 + p10 + p11 + p12, p13, p7);
    text::held_with_more(p0 + p1 + p2 + p3 + p4 + p5 + p6 + p7 + p8 + p9 + p10 + p11 + p12 + p13, p14, p7);
    text::end_is_held(p0 + p1 + p2 + p3 + p4 + p5 + p6 + p7 + p8, p9);
    text::held_with_more(p0 + p1 + p2 + p3 + p4 + p5 + p6 + p7 + p8 + p9, p10, p9);
    text::held_with_more(p0 + p1 + p2 + p3 + p4 + p5 + p6 + p7 + p8 + p9 + p10, p11, p9);
    text::held_with_more(p0 + p1 + p2 + p3 + p4 + p5 + p6 + p7 + p8 + p9 + p10 + p11, p12, p9);
    text::held_with_more(p0 + p1 + p2 + p3 + p4 + p5 + p6 + p7 + p8 + p9 + p10 + p11 + p12, p13, p9);
    text::held_with_more(p0 + p1 + p2 + p3 + p4 + p5 + p6 + p7 + p8 + p9 + p10 + p11 + p12 + p13, p14, p9);
    text::end_is_held(p0 + p1 + p2 + p3 + p4 + p5 + p6 + p7 + p8 + p9, p10);
    text::held_with_more(p0 + p1 + p2 + p3 + p4 + p5 + p6 + p7 + p8 + p9 + p10, p11, p10);
    text::held_with_more(p0 + p1 + p2 + p3 + p4 + p5 + p6 + p7 + p8 + p9 + p10 + p11, p12, p10);
    text::held_with_more(p0 + p1 + p2 + p3 + p4 + p5 + p6 + p7 + p8 + p9 + p10 + p11 + p12, p13, p10);
    text::held_with_more(p0 + p1 + p2 + p3 + p4 + p5 + p6 + p7 + p8 + p9 + p10 + p11 + p12 + p13, p14, p10);
    text::end_is_held(p0 + p1 + p2 + p3 + p4 + p5 + p6 + p7 + p8 + p9 + p10, p11);
    text::held_with_more(p0 + p1 + p2 + p3 + p4 + p5 + p6 + p7 + p8 + p9 + p10 + p11, p12, p11);
    text::held_with_more(p0 + p1 + p2 + p3 + p4 + p5 + p6 + p7 + p8 + p9 + p10 + p11 + p12, p13, p11);
    text::held_with_more(p0 + p1 + p2 + p3 + p4 + p5 + p6 + p7 + p8 + p9 + p10 + p11 + p12 + p13, p14, p11);
    text::end_is_held(p0 + p1 + p2 + p3 + p4 + p5 + p6 + p7 + p8 + p9 + p10 + p11, p12);
    text::held_with_more(p0 + p1 + p2 + p3 + p4 + p5 + p6 + p7 + p8 + p9 + p10 + p11 + p12, p13, p12);
    text::held_with_more(p0 + p1 + p2 + p3 + p4 + p5 + p6 + p7 + p8 + p9 + p10 + p11 + p12 + p13, p14, p12);
    text::end_is_held(p0 + p1 + p2 + p3 + p4 + p5 + p6 + p7 + p8 + p9 + p10 + p11 + p12, p13);
    text::held_with_more(p0 + p1 + p2 + p3 + p4 + p5 + p6 + p7 + p8 + p9 + p10 + p11 + p12 + p13, p14, p13);
    text::end_is_held(p0 + p1 + p2 + p3 + p4 + p5 + p6 + p7 + p8 + p9 + p10 + p11 + p12 + p13, p14);
}

/// What is shown of a worker of a project tells its name and its role, and what else is configured.
pub proof fn project_roles_are_whole(c: init::ProjectModel, w: init::WorkerModel, source: Seq<char>)
    ensures
        text::holds(project_role(c, w, source), source),
        text::holds(project_role(c, w, source), w.name),
        text::holds(project_role(c, w, source), w.role),
        text::holds(project_role(c, w, source), maybe_line("\n  model:           "@, team::own_or(w.model, c.model))),
        text::holds(project_role(c, w, source), maybe_line("\n  cli_template:    "@, team::own_or(w.cli_template, c.cli_template))),
        text::holds(project_role(c, w, source), names_line("\n  hands_off_to:    "@, w.hands_off_to)),
        text::holds(project_role(c, w, source), task_lines(w.tasks)),
{
    let p0 = "role (from workers.yml: "@;
    let p1 = source;
    let p2 = ")\n  name:            "@;
    let p3 = w.name;
    let p4 = "\n  role:            "@;
    let p5 = w.role;
    let p6 = maybe_line("\n  model:           "@, team::own_or(w.model, c.model));
    let p7 = maybe_line("\n  cli_template:    "@, team::own_or(w.cli_template, c.cli_template));
    let p8 = names_line("\n  hands_off_to:    "@, w.hands_off_to);
    let p9 = task_lines(w.tasks);
    text::end_is_held(p0, p1);
    text::held_with_more(p0 + p1, p2, p1);
    text::held_with_more(p0 + p1 + p2, p3, p1);
    text::held_with_more(p0 + p1 + p2 + p3, p4, p1);
    text::held_with_more(p0 + p1 + p2 + p3 + p4, p5, p1);
    text::held_with_more(p0 + p1 + p2 + p3 + p4 + p5, p6, p1);
    text::held_with_more(p0 + p1 + p2 + p3 + p4 + p5 + p6, p7, p1);
    text::held_with_more(p0 + p1 + p2 + p3 + p4 + p5 + p6 + p7, p8, p1);
    text::held_with_more(p0 + p1 + p2 + p3 + p4 + p5 + p6 + p7 + p8, p9, p1);
    text::end_is_held(p0 + p1 + p2, p3);
    text::held_with_more(p0 + p1 + p2 + p3, p4, p3);
    text::held_with_more(p0 + p1 + p2 + p3 + p4, p5, p3);
    text::held_with_more(p0 + p1 + p2 + p3 + p4 + p5, p6, p3);
    text::held_with_more(p0 + p1 + p2 + p3 + p4 + p5 + p6, p7, p3);
    text::held_with_more(p0 + p1 + p2 + p3 + p4 + p5 + p6 + p7, p8, p3);
    text::held_with_more(p0 + p1 + p2 + p3 + p4 + p5 + p6 + p7 + p8, p9, p3);
    text::end_is_held(p0 + p1 + p2 + p3 + p4, p5);
    text::held_with_more(p0 + p1 + p2 + p3 + p4 + p5, p6, p5);
    text::held_with_more(p0 + p1 + p2 + p3 + p4 + p5 + p6, p7, p5);
    text::held_with_more(p0 + p1 + p2 + p3 + p4 + p5 + p6 + p7, p8, p5);
    text::held_with_more(p0 + p1 + p2 + p3 + p4 + p5 + p6 + p7 + p8, p9, p5);
    text::end_is_held(p0 + p1 + p2 + p3 + p4 + p5, p6);
    text::held_with_more(p0 + p1 + p2 + p3 + p4 + p5 + p6, p7, p6);
    text::held_with_more(p0 + p1 + p2 + p3 + p4 + p5 + p6 + p7, p8, p6);
    text::held_with_more(p0 + p1 + p2 + p3 + p4 + p5 + p6 + p7 + p8, p9, p6);
    text::end_is_held(p0 + p1 + p2 + p3 + p4 + p5 + p6, p7);
    text::held_with_more(p0 + p1 + p2 + p3 + p4 + p5 + p6 + p7, p8, p7);
    text::held_with_more(p0 + p1 + p2 + p3 + p4 + p5 + p6 + p7 + p8, p9, p7);
    text::end_is_held(p0 + p1 + p2 + p3 + p4 + p5 + p6 + p7, p8);
    text::held_with_more(p0 + p1 + p2 + p3 + p4 + p5 + p6 + p7 + p8, p9, p8);
    text::end_is_held(p0 + p1 + p2 + p3 + p4 + p5 + p6 + p7 + p8, p9);
}

/// A line tells its value exactly where there is one, and names everybody it is about.
pub proof fn lines_tell_their_value(
    label: Seq<char>,
    value: Option<Seq<char>>,
    names: Seq<Seq<char>>,
    i: int,
)
    ensures
        value matches Some(v) ==> maybe_line(label, value) == label + v,
        value is None ==> maybe_line(label, value).len() == 0,
        names.len() == 0 ==> names_line(label, names).len() == 0,
        0 <= i < names.len() ==> text::holds(names_line(label, names), "@"@ + names[i]),
        value matches Some(v) ==> text::trimmed(v).is_suffix_of(task_lines(value)),
        value is None ==> task_lines(value).len() == 0,
{
    if 0 <= i < names.len() {
        let all = lifecycle::at_names(names);
        text::joined_texts_are_held(all, ", "@, i);
        text::end_is_held(label, text::joined(all, ", "@));
        text::held_through(names_line(label, names), text::joined(all, ", "@), "@"@ + names[i]);
    }
    if let Some(v) = value {
        let s = text::trimmed(v);
        let l = task_lines(value);
        assert(s =~= l.subrange(l.len() - s.len(), l.len() as int));
    }
}

/// Without a manifest nothing is known of a worker.
pub proof fn nothing_is_known_without_a_manifest()
    ensures
        no_lookup().reports_to is None,
        no_lookup().works_with.len() == 0,
        no_lookup().teammates.len() == 0,
        no_lookup().cli_template is None,
        no_lookup().codebase_path is None,
        no_lookup().model is None,
{
}

} // verus!
