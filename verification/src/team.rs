//! Team manifests: telling them from older ones, checking them, and bringing them up to date.
use crate::clock::Timestamp;
use crate::paths;
use crate::server;
use crate::text;
use vstd::prelude::*;

verus! {

/// The server of a manifest that names none.
pub const DEFAULT_SERVER: &'static str = "http://localhost:8000";

/// A worker of a team.
pub struct TeamWorker {
    pub name: String,
    pub role: String,
    /// The directory that the worker runs in.
    pub codebase_path: String,
    pub tasks: Option<String>,
    pub avatar: Option<String>,
    pub color: Option<u8>,
    pub model: Option<String>,
    pub cli_template: Option<String>,
    /// Who is told of finished work.
    pub reports_to: Option<String>,
    /// Whom the worker coordinates with.
    pub works_with: Vec<String>,
    /// The older form of the two fields above.
    pub hands_off_to: Vec<String>,
}

/// A team manifest.
pub struct TeamConfig {
    pub team: String,
    pub server: String,
    pub shared_data_dir: Option<String>,
    pub cli_template: Option<String>,
    pub model: Option<String>,
    pub workers: Vec<TeamWorker>,
}

/// The model of a [`TeamWorker`].
#[verifier::ext_equal]
pub struct WorkerModel {
    pub name: Seq<char>,
    pub role: Seq<char>,
    pub codebase_path: Seq<char>,
    pub tasks: Option<Seq<char>>,
    pub avatar: Option<Seq<char>>,
    pub color: Option<u8>,
    pub model: Option<Seq<char>>,
    pub cli_template: Option<Seq<char>>,
    pub reports_to: Option<Seq<char>>,
    pub works_with: Seq<Seq<char>>,
    pub hands_off_to: Seq<Seq<char>>,
}

/// The model of a [`TeamConfig`].
#[verifier::ext_equal]
pub struct ConfigModel {
    pub team: Seq<char>,
    pub server: Seq<char>,
    pub shared_data_dir: Option<Seq<char>>,
    pub cli_template: Option<Seq<char>>,
    pub model: Option<Seq<char>>,
    pub workers: Seq<WorkerModel>,
}

impl View for TeamWorker {
    type V = WorkerModel;

    open spec fn view(&self) -> WorkerModel {
        WorkerModel {
            name: self.name@,
            role: self.role@,
            codebase_path: self.codebase_path@,
            tasks: text::opt_text(self.tasks),
            avatar: text::opt_text(self.avatar),
            color: self.color,
            model: text::opt_text(self.model),
            cli_template: text::opt_text(self.cli_template),
            reports_to: text::opt_text(self.reports_to),
            works_with: text::texts(self.works_with@),
            hands_off_to: text::texts(self.hands_off_to@),
        }
    }
}

/// The models of the workers.
pub open spec fn worker_models(v: Seq<TeamWorker>) -> Seq<WorkerModel> {
    Seq::new(v.len(), |i: int| v[i]@)
}

impl View for TeamConfig {
    type V = ConfigModel;

    open spec fn view(&self) -> ConfigModel {
        ConfigModel {
            team: self.team@,
            server: self.server@,
            shared_data_dir: text::opt_text(self.shared_data_dir),
            cli_template: text::opt_text(self.cli_template),
            model: text::opt_text(self.model),
            workers: worker_models(self.workers@),
        }
    }
}

impl TeamWorker {
    /// The same worker again.
    pub fn copy(&self) -> (r: TeamWorker)
        ensures
            r@ == self@,
    {
        let r = TeamWorker {
            name: self.name.clone(),
            role: self.role.clone(),
            codebase_path: self.codebase_path.clone(),
            tasks: text::copy_opt(&self.tasks),
            avatar: text::copy_opt(&self.avatar),
            color: self.color,
            model: text::copy_opt(&self.model),
            cli_template: text::copy_opt(&self.cli_template),
            reports_to: text::copy_opt(&self.reports_to),
            works_with: text::copy_list(&self.works_with),
            hands_off_to: text::copy_list(&self.hands_off_to),
        };
        assert(r@ =~= self@);
        r
    }
}

// ── Which manifest ──────────────────────────────────────────────────────────
/// A line that says nothing: it is blank or a comment.
pub open spec fn is_remark(line: Seq<char>) -> bool {
    let t = text::trimmed(line);
    t.len() == 0 || t[0] == '#'
}

/// The key that a line begins with.
pub open spec fn key_of(line: Seq<char>) -> Seq<char> {
    let t = text::trimmed(line);
    match text::cut_at(t, ':') {
        Some(kv) => kv.0,
        None => t,
    }
}

/// The first line that says something begins with the key `team`.
pub open spec fn leads_with_team(lines: Seq<Seq<char>>) -> bool
    decreases lines.len(),
{
    if lines.len() == 0 {
        false
    } else if is_remark(lines[0]) {
        leads_with_team(lines.drop_first())
    } else {
        key_of(lines[0]) == "team"@
    }
}

/// Whether a manifest is one of a team, which begins with the key `team`.
pub fn yaml_is_team_config(contents: &str) -> (r: bool)
    ensures
        r == leads_with_team(text::lines_of(contents@)),
{
    let lines = text::lines(contents);
    let ghost all = text::texts(lines@);
    let mut i: usize = 0;
    assert(all.skip(0) =~= all);
    while i < lines.len()
        invariant
            i <= lines@.len(),
            all == text::texts(lines@),
            leads_with_team(all) == leads_with_team(all.skip(i as int)),
            all == text::lines_of(contents@),
        decreases lines@.len() - i,
    {
        assert(all.skip(i as int).drop_first() =~= all.skip(i + 1));
        assert(all.skip(i as int)[0] == lines@[i as int]@);
        let t = text::trim(lines[i].as_str());
        let v = text::chars_of(t.as_str());
        if v.len() > 0 && v[0] != '#' {
            return match text::split_once(t.as_str(), ':') {
                Some(kv) => text::same(kv.0.as_str(), "team"),
                None => text::same(t.as_str(), "team"),
            };
        }
        i += 1;
    }
    false
}

/// A path with `~` at its front replaced by the home directory, where there is one.
pub open spec fn expanded(p: Seq<char>, home: Option<Seq<char>>) -> Seq<char> {
    match home {
        Some(h) => match text::after_prefix(p, "~/"@) {
            Some(rest) => paths::below(h, rest),
            None => if p == "~"@ {
                h
            } else {
                p
            },
        },
        None => p,
    }
}

/// A path with `~` at its front replaced by the home directory.
pub fn expand_tilde(p: &str, home: &Option<String>) -> (r: String)
    ensures
        r@ == expanded(p@, text::opt_text(*home)),
{
    if let Some(h) = home {
        if let Some(rest) = text::strip_prefix(p, "~/") {
            return paths::join(h.as_str(), rest.as_str());
        }
        if text::same(p, "~") {
            return h.clone();
        }
    }
    p.to_owned()
}

// ── What is wrong with a manifest ───────────────────────────────────────────
/// How one worker stands to another.
#[derive(Clone, Copy, PartialEq, Eq, Structural, Debug)]
pub enum Relation {
    ReportsTo,
    WorksWith,
    HandsOffTo,
}

/// What is wrong with a manifest.
pub enum TeamError {
    /// It cannot be parsed.
    Unreadable(String),
    TeamName(String),
    NoWorkers,
    WorkerName(String),
    Duplicate(String),
    NoCodebase(String),
    /// A worker names somebody whose name cannot be one.
    BadTarget(String, Relation, String),
    /// A worker names itself.
    Itself(String, Relation),
    /// A worker names somebody who is not on the team.
    Unknown(String, Relation, String),
}

/// The model of a [`TeamError`].
pub enum Fault {
    Unreadable(Seq<char>),
    TeamName(Seq<char>),
    NoWorkers,
    WorkerName(Seq<char>),
    Duplicate(Seq<char>),
    NoCodebase(Seq<char>),
    BadTarget(Seq<char>, Relation, Seq<char>),
    Itself(Seq<char>, Relation),
    Unknown(Seq<char>, Relation, Seq<char>),
}

impl View for TeamError {
    type V = Fault;

    open spec fn view(&self) -> Fault {
        match *self {
            TeamError::Unreadable(e) => Fault::Unreadable(e@),
            TeamError::TeamName(n) => Fault::TeamName(n@),
            TeamError::NoWorkers => Fault::NoWorkers,
            TeamError::WorkerName(n) => Fault::WorkerName(n@),
            TeamError::Duplicate(n) => Fault::Duplicate(n@),
            TeamError::NoCodebase(n) => Fault::NoCodebase(n@),
            TeamError::BadTarget(n, k, t) => Fault::BadTarget(n@, k, t@),
            TeamError::Itself(n, k) => Fault::Itself(n@, k),
            TeamError::Unknown(n, k, t) => Fault::Unknown(n@, k, t@),
        }
    }
}

/// The field of a relation.
pub open spec fn field_name(k: Relation) -> Seq<char> {
    match k {
        Relation::ReportsTo => "reports_to"@,
        Relation::WorksWith => "works_with"@,
        Relation::HandsOffTo => "hands_off_to"@,
    }
}

/// What a name has to look like.
pub const NAME_RULE: &'static str =
    "' is invalid (must be 1\u{2013}64 chars, alphanumeric + dash/underscore)";

/// What somebody is told of a fault.
pub open spec fn fault_text(f: Fault) -> Seq<char> {
    match f {
        Fault::Unreadable(e) => "Invalid team.yml: "@ + e,
        Fault::TeamName(n) => "team name '"@ + n + NAME_RULE@,
        Fault::NoWorkers => "team.yml has no workers"@,
        Fault::WorkerName(n) => "worker name '"@ + n + NAME_RULE@,
        Fault::Duplicate(n) => "duplicate worker name '"@ + n + "' in team.yml"@,
        Fault::NoCodebase(n) => "worker '"@ + n + "' has empty codebase_path"@,
        Fault::BadTarget(n, k, t) => "worker '"@ + n + "' has invalid "@ + field_name(k) + (
        if k == Relation::WorksWith {
            " entry '"@
        } else {
            " target '"@
        }) + t + "'"@,
        Fault::Itself(n, k) => "worker '"@ + n + "' "@ + field_name(k)
            + " itself \u{2014} a worker can't hand off to itself"@,
        Fault::Unknown(n, k, t) => "worker '"@ + n + "' "@ + field_name(k) + " unknown teammate '"@
            + t + "' (not in team.yml)"@,
    }
}

fn name_of_field(k: Relation) -> (r: String)
    ensures
        r@ == field_name(k),
{
    match k {
        Relation::ReportsTo => "reports_to".to_owned(),
        Relation::WorksWith => "works_with".to_owned(),
        Relation::HandsOffTo => "hands_off_to".to_owned(),
    }
}

impl TeamError {
    /// What somebody is told of the fault.
    pub fn message(&self) -> (r: String)
        ensures
            r@ == fault_text(self@),
    {
        match self {
            TeamError::Unreadable(e) => text::glue("Invalid team.yml: ", e.as_str()),
            TeamError::TeamName(n) => text::glue3("team name '", n.as_str(), NAME_RULE),
            TeamError::NoWorkers => "team.yml has no workers".to_owned(),
            TeamError::WorkerName(n) => text::glue3("worker name '", n.as_str(), NAME_RULE),
            TeamError::Duplicate(n) => text::glue3(
                "duplicate worker name '",
                n.as_str(),
                "' in team.yml",
            ),
            TeamError::NoCodebase(n) => text::glue3(
                "worker '",
                n.as_str(),
                "' has empty codebase_path",
            ),
            TeamError::BadTarget(n, k, t) => {
                let mut r = text::glue3("worker '", n.as_str(), "' has invalid ");
                r.append(name_of_field(*k).as_str());
                if *k == Relation::WorksWith {
                    r.append(" entry '");
                } else {
                    r.append(" target '");
                }
                r.append(t.as_str());
                r.append("'");
                r
            },
            TeamError::Itself(n, k) => {
                let mut r = text::glue3("worker '", n.as_str(), "' ");
                r.append(name_of_field(*k).as_str());
                r.append(" itself \u{2014} a worker can't hand off to itself");
                r
            },
            TeamError::Unknown(n, k, t) => {
                let mut r = text::glue3("worker '", n.as_str(), "' ");
                r.append(name_of_field(*k).as_str());
                r.append(" unknown teammate '");
                r.append(t.as_str());
                r.append("' (not in team.yml)");
                r
            },
        }
    }
}

/// One of the workers has the name.
pub open spec fn named(ws: Seq<WorkerModel>, name: Seq<char>) -> bool {
    exists|i: int| 0 <= i < ws.len() && (#[trigger] ws[i]).name == name
}

/// The first entry that cannot be a name.
pub open spec fn first_bad(v: Seq<Seq<char>>) -> Option<Seq<char>>
    decreases v.len(),
{
    if v.len() == 0 {
        None
    } else if !server::team_name(v[0]) {
        Some(v[0])
    } else {
        first_bad(v.drop_first())
    }
}

/// What is wrong with a worker by itself, behind those that come before.
pub open spec fn worker_fault(earlier: Seq<WorkerModel>, w: WorkerModel) -> Option<Fault> {
    if !server::team_name(w.name) {
        Some(Fault::WorkerName(w.name))
    } else if named(earlier, w.name) {
        Some(Fault::Duplicate(w.name))
    } else if text::trimmed(w.codebase_path).len() == 0 {
        Some(Fault::NoCodebase(w.name))
    } else if let Some(t) = first_bad(w.hands_off_to) {
        Some(Fault::BadTarget(w.name, Relation::HandsOffTo, t))
    } else if w.reports_to is Some && !server::team_name(w.reports_to->0) {
        Some(Fault::BadTarget(w.name, Relation::ReportsTo, w.reports_to->0))
    } else if let Some(t) = first_bad(w.works_with) {
        Some(Fault::BadTarget(w.name, Relation::WorksWith, t))
    } else {
        None
    }
}

/// What is wrong with the first worker that is wrong by itself.
pub open spec fn shape_fault(ws: Seq<WorkerModel>) -> Option<Fault>
    decreases ws.len(),
{
    if ws.len() == 0 {
        None
    } else {
        match shape_fault(ws.drop_last()) {
            Some(f) => Some(f),
            None => worker_fault(ws.drop_last(), ws.last()),
        }
    }
}

/// A worker with the older field split up, where the newer ones are not in use: the first entry
/// becomes the one that is reported to, the others those that are worked with.
pub open spec fn migrated(w: WorkerModel) -> WorkerModel {
    if w.reports_to is Some || w.works_with.len() > 0 || w.hands_off_to.len() == 0 {
        w
    } else {
        WorkerModel {
            reports_to: Some(w.hands_off_to[0]),
            works_with: w.hands_off_to.drop_first(),
            ..w
        }
    }
}

/// The workers with the older field split up.
pub open spec fn all_migrated(ws: Seq<WorkerModel>) -> Seq<WorkerModel> {
    Seq::new(ws.len(), |i: int| migrated(ws[i]))
}

/// What is wrong with one mention of another worker.
pub open spec fn link_fault(
    all: Seq<WorkerModel>,
    me: Seq<char>,
    k: Relation,
    target: Seq<char>,
) -> Option<
    Fault,
> {
    if target == me {
        Some(Fault::Itself(me, k))
    } else if !named(all, target) {
        Some(Fault::Unknown(me, k, target))
    } else {
        None
    }
}

/// What is wrong with the first mention that is wrong.
pub open spec fn links_fault(
    all: Seq<WorkerModel>,
    me: Seq<char>,
    k: Relation,
    targets: Seq<Seq<char>>,
) -> Option<Fault>
    decreases targets.len(),
{
    if targets.len() == 0 {
        None
    } else {
        match link_fault(all, me, k, targets[0]) {
            Some(f) => Some(f),
            None => links_fault(all, me, k, targets.drop_first()),
        }
    }
}

/// Nobody or the one.
pub open spec fn as_list(o: Option<Seq<char>>) -> Seq<Seq<char>> {
    match o {
        Some(x) => seq![x],
        None => Seq::empty(),
    }
}

/// What is wrong with the others that a worker mentions.
pub open spec fn relation_fault(all: Seq<WorkerModel>, w: WorkerModel) -> Option<Fault> {
    match links_fault(all, w.name, Relation::ReportsTo, as_list(w.reports_to)) {
        Some(f) => Some(f),
        None => match links_fault(all, w.name, Relation::WorksWith, w.works_with) {
            Some(f) => Some(f),
            None => links_fault(all, w.name, Relation::HandsOffTo, w.hands_off_to),
        },
    }
}

/// What is wrong with the first worker that mentions the wrong others.
pub open spec fn relations_fault(all: Seq<WorkerModel>, ws: Seq<WorkerModel>) -> Option<Fault>
    decreases ws.len(),
{
    if ws.len() == 0 {
        None
    } else {
        match relations_fault(all, ws.drop_last()) {
            Some(f) => Some(f),
            None => relation_fault(all, ws.last()),
        }
    }
}

/// What is wrong with a manifest before anything is brought up to date.
pub open spec fn form_fault(c: ConfigModel) -> Option<Fault> {
    if !server::team_name(c.team) {
        Some(Fault::TeamName(c.team))
    } else if c.workers.len() == 0 {
        Some(Fault::NoWorkers)
    } else {
        shape_fault(c.workers)
    }
}

/// What is wrong with a manifest.
pub open spec fn fault(c: ConfigModel) -> Option<Fault> {
    match form_fault(c) {
        Some(f) => Some(f),
        None => {
            let ws = all_migrated(c.workers);
            relations_fault(ws, ws)
        },
    }
}

/// A manifest brought up to date.
pub open spec fn up_to_date(c: ConfigModel) -> ConfigModel {
    ConfigModel { workers: all_migrated(c.workers), ..c }
}

fn bad_entry(v: &Vec<String>) -> (r: Option<String>)
    ensures
        text::opt_text(r) == first_bad(text::texts(v@)),
{
    let ghost all = text::texts(v@);
    let mut i: usize = 0;
    assert(all.skip(0) =~= all);
    while i < v.len()
        invariant
            i <= v@.len(),
            all == text::texts(v@),
            first_bad(all) == first_bad(all.skip(i as int)),
        decreases v@.len() - i,
    {
        assert(all.skip(i as int).drop_first() =~= all.skip(i + 1));
        assert(all.skip(i as int)[0] == v@[i as int]@);
        if !server::is_valid_team_name(v[i].as_str()) {
            return Some(v[i].clone());
        }
        i += 1;
    }
    None
}

fn has_worker(ws: &Vec<TeamWorker>, n: usize, name: &str) -> (r: bool)
    requires
        n <= ws@.len(),
    ensures
        r == named(worker_models(ws@).take(n as int), name@),
{
    let ghost all = worker_models(ws@).take(n as int);
    let mut i: usize = 0;
    while i < n
        invariant
            i <= n <= ws@.len(),
            all == worker_models(ws@).take(n as int),
            forall|k: int| 0 <= k < i ==> (#[trigger] all[k]).name != name@,
        decreases n - i,
    {
        assert(all[i as int].name == ws@[i as int].name@);
        if text::same(ws[i].name.as_str(), name) {
            return true;
        }
        i += 1;
    }
    false
}

fn check_worker(ws: &Vec<TeamWorker>, i: usize) -> (r: Option<TeamError>)
    requires
        i < ws@.len(),
    ensures
        (match r {
            Some(e) => Some(e@),
            None => None,
        }) == worker_fault(worker_models(ws@).take(i as int), worker_models(ws@)[i as int]),
{
    let w = &ws[i];
    if !server::is_valid_team_name(w.name.as_str()) {
        return Some(TeamError::WorkerName(w.name.clone()));
    }
    if has_worker(ws, i, w.name.as_str()) {
        return Some(TeamError::Duplicate(w.name.clone()));
    }
    if text::trim(w.codebase_path.as_str()).as_str().is_empty() {
        return Some(TeamError::NoCodebase(w.name.clone()));
    }
    if let Some(t) = bad_entry(&w.hands_off_to) {
        return Some(TeamError::BadTarget(w.name.clone(), Relation::HandsOffTo, t));
    }
    if let Some(t) = &w.reports_to {
        if !server::is_valid_team_name(t.as_str()) {
            return Some(TeamError::BadTarget(w.name.clone(), Relation::ReportsTo, t.clone()));
        }
    }
    if let Some(t) = bad_entry(&w.works_with) {
        return Some(TeamError::BadTarget(w.name.clone(), Relation::WorksWith, t));
    }
    None
}

fn check_link(ws: &Vec<TeamWorker>, me: &str, k: Relation, target: &str) -> (r: Option<TeamError>)
    ensures
        (match r {
            Some(e) => Some(e@),
            None => None,
        }) == link_fault(worker_models(ws@), me@, k, target@),
{
    assert(worker_models(ws@).take(ws@.len() as int) =~= worker_models(ws@));
    if text::same(target, me) {
        Some(TeamError::Itself(me.to_owned(), k))
    } else if !has_worker(ws, ws.len(), target) {
        Some(TeamError::Unknown(me.to_owned(), k, target.to_owned()))
    } else {
        None
    }
}

fn check_links(ws: &Vec<TeamWorker>, me: &str, k: Relation, targets: &Vec<String>) -> (r: Option<
    TeamError,
>)
    ensures
        (match r {
            Some(e) => Some(e@),
            None => None,
        }) == links_fault(worker_models(ws@), me@, k, text::texts(targets@)),
{
    let ghost models = worker_models(ws@);
    let ghost all = text::texts(targets@);
    let mut i: usize = 0;
    assert(all.skip(0) =~= all);
    while i < targets.len()
        invariant
            i <= targets@.len(),
            models == worker_models(ws@),
            all == text::texts(targets@),
            links_fault(models, me@, k, all) == links_fault(models, me@, k, all.skip(i as int)),
        decreases targets@.len() - i,
    {
        assert(all.skip(i as int).drop_first() =~= all.skip(i + 1));
        assert(all.skip(i as int)[0] == targets@[i as int]@);
        let f = check_link(ws, me, k, targets[i].as_str());
        if f.is_some() {
            return f;
        }
        i += 1;
    }
    None
}

fn check_relations(ws: &Vec<TeamWorker>, w: &TeamWorker) -> (r: Option<TeamError>)
    ensures
        (match r {
            Some(e) => Some(e@),
            None => None,
        }) == relation_fault(worker_models(ws@), w@),
{
    let ghost models = worker_models(ws@);
    assert(links_fault(models, w.name@, Relation::ReportsTo, Seq::empty()) is None);
    if let Some(t) = &w.reports_to {
        assert(as_list(w@.reports_to).drop_first() =~= Seq::<Seq<char>>::empty());
        assert(links_fault(models, w.name@, Relation::ReportsTo, as_list(w@.reports_to))
            == link_fault(models, w.name@, Relation::ReportsTo, t@));
        let f = check_link(ws, w.name.as_str(), Relation::ReportsTo, t.as_str());
        if f.is_some() {
            return f;
        }
    }
    let f = check_links(ws, w.name.as_str(), Relation::WorksWith, &w.works_with);
    if f.is_some() {
        return f;
    }
    check_links(ws, w.name.as_str(), Relation::HandsOffTo, &w.hands_off_to)
}

fn migrate(w: TeamWorker) -> (r: TeamWorker)
    ensures
        r@ == migrated(w@),
{
    if w.reports_to.is_some() || w.works_with.len() > 0 || w.hands_off_to.len() == 0 {
        return w;
    }
    let ghost m = w@;
    let mut rest = text::copy_list(&w.hands_off_to);
    let ghost all = rest@;
    let first = rest.remove(0);
    let mut w = w;
    w.reports_to = Some(first);
    w.works_with = rest;
    proof {
        assert(all.remove(0) =~= all.drop_first());
        assert(text::texts(rest@) =~= m.hands_off_to.drop_first());
        assert(text::texts(all)[0] == first@);
        assert(w@ =~= migrated(m));
    }
    w
}

impl TeamConfig {
    fn check_form(&self) -> (r: Option<TeamError>)
        ensures
            (match r {
                Some(e) => Some(e@),
                None => None,
            }) == form_fault(self@),
    {
        if !server::is_valid_team_name(self.team.as_str()) {
            return Some(TeamError::TeamName(self.team.clone()));
        }
        if self.workers.len() == 0 {
            return Some(TeamError::NoWorkers);
        }
        let ghost all = self@.workers;
        let mut i: usize = 0;
        assert(all.take(0) =~= Seq::<WorkerModel>::empty());
        while i < self.workers.len()
            invariant
                i <= self.workers@.len(),
                all == worker_models(self.workers@),
                all == self@.workers,
                server::team_name(self@.team),
                all.len() > 0,
                shape_fault(all.take(i as int)) is None,
            decreases self.workers@.len() - i,
        {
            assert(all.take(i + 1).drop_last() =~= all.take(i as int));
            assert(all.take(i + 1).last() == all[i as int]);
            let f = check_worker(&self.workers, i);
            if f.is_some() {
                proof {
                    shape_fault_stays(all, i + 1);
                }
                return f;
            }
            i += 1;
        }
        assert(all.take(i as int) =~= all);
        None
    }

    /// A manifest that was parsed, checked and brought up to date.
    pub fn from_yaml(parsed: Result<TeamConfig, String>) -> (r: Result<TeamConfig, TeamError>)
        ensures
            match parsed {
                Err(e) => r matches Err(f) && f@ == Fault::Unreadable(e@),
                Ok(c) => match fault(c@) {
                    Some(f) => r matches Err(e) && e@ == f,
                    None => r matches Ok(d) && d@ == up_to_date(c@),
                },
            },
    {
        let mut cfg = match parsed {
            Ok(c) => c,
            Err(e) => {
                return Err(TeamError::Unreadable(e));
            },
        };
        if let Some(e) = cfg.check_form() {
            return Err(e);
        }
        let ghost before = cfg@;
        let ghost all = cfg.workers@;
        let ghost models = before.workers;
        let ghost want = all_migrated(models);
        let mut rest: Vec<TeamWorker> = Vec::new();
        rest.append(&mut cfg.workers);
        let mut done: Vec<TeamWorker> = Vec::new();
        let ghost mut n: int = 0;
        assert(rest@ =~= all.skip(0));
        assert(worker_models(done@) =~= want.take(0));
        while rest.len() > 0
            invariant
                0 <= n <= all.len(),
                rest@ == all.skip(n),
                models == worker_models(all),
                want == all_migrated(models),
                worker_models(done@) == want.take(n),
            decreases rest@.len(),
        {
            let w = rest.remove(0);
            assert(w == all[n]);
            let m = migrate(w);
            let ghost was = done@;
            done.push(m);
            proof {
                assert(all.skip(n).remove(0) =~= all.skip(n + 1));
                assert(worker_models(done@) =~= worker_models(was).push(want[n]));
                assert(want.take(n + 1) =~= want.take(n).push(want[n]));
                n = n + 1;
            }
        }
        assert(want.take(n) =~= want);
        cfg.workers = done;
        assert(cfg@ =~= up_to_date(before));
        let mut i: usize = 0;
        assert(want.take(0) =~= Seq::<WorkerModel>::empty());
        while i < cfg.workers.len()
            invariant
                i <= cfg.workers@.len(),
                want == worker_models(cfg.workers@),
                relations_fault(want, want.take(i as int)) is None,
                fault(before) == relations_fault(want, want),
                parsed matches Ok(c) && c@ == before,
            decreases cfg.workers@.len() - i,
        {
            assert(want.take(i + 1).drop_last() =~= want.take(i as int));
            assert(want.take(i + 1).last() == want[i as int]);
            if let Some(e) = check_relations(&cfg.workers, &cfg.workers[i]) {
                proof {
                    relations_fault_stays(want, want, i + 1);
                }
                return Err(e);
            }
            i += 1;
        }
        assert(want.take(i as int) =~= want);
        Ok(cfg)
    }

    /// The command template of a worker: its own, else that of the team.
    pub fn resolved_cli_template(&self, worker: &TeamWorker) -> (r: Option<String>)
        ensures
            text::opt_text(r) == own_or(worker@.cli_template, self@.cli_template),
    {
        if worker.cli_template.is_some() {
            text::copy_opt(&worker.cli_template)
        } else {
            text::copy_opt(&self.cli_template)
        }
    }

    /// The model of a worker: its own, else that of the team.
    pub fn resolved_model(&self, worker: &TeamWorker) -> (r: Option<String>)
        ensures
            text::opt_text(r) == own_or(worker@.model, self@.model),
    {
        if worker.model.is_some() {
            text::copy_opt(&worker.model)
        } else {
            text::copy_opt(&self.model)
        }
    }

    /// What somebody is told whose manifest still uses the older field for several others.
    pub fn migration_warnings(&self) -> (r: Vec<String>)
        ensures
            text::texts(r@) == (if form_fault(self@) is None {
                warnings(self@.workers)
            } else {
                Seq::empty()
            }),
    {
        let mut r: Vec<String> = Vec::new();
        if self.check_form().is_some() {
            assert(text::texts(r@) =~= Seq::<Seq<char>>::empty());
            return r;
        }
        let ghost all = self@.workers;
        let mut i: usize = 0;
        assert(text::texts(r@) =~= warnings(all.take(0)));
        while i < self.workers.len()
            invariant
                i <= self.workers@.len(),
                all == worker_models(self.workers@),
                text::texts(r@) == warnings(all.take(i as int)),
            decreases self.workers@.len() - i,
        {
            assert(all.take(i + 1).drop_last() =~= all.take(i as int));
            let w = &self.workers[i];
            assert(all.take(i + 1).last() == w@);
            if w.reports_to.is_none() && w.works_with.len() == 0 && w.hands_off_to.len() > 1 {
                let mut s = text::glue3(
                    "warning: worker '",
                    w.name.as_str(),
                    "' uses deprecated `hands_off_to: [",
                );
                s.append(text::join(&w.hands_off_to, ", ").as_str());
                s.append("]` \u{2014} migrated first entry '");
                s.append(w.hands_off_to[0].as_str());
                s.append(WARNING_END);
                let ghost before = r@;
                let ghost t = s@;
                r.push(s);
                assert(t == warning(w@));
                assert(text::texts(r@) =~= text::texts(before).push(t));
            }
            i += 1;
        }
        assert(all.take(i as int) =~= all);
        r
    }
}

/// What is one's own, else what is common.
pub open spec fn own_or(own: Option<Seq<char>>, common: Option<Seq<char>>) -> Option<Seq<char>> {
    if own is Some {
        own
    } else {
        common
    }
}

/// How a warning ends.
pub const WARNING_END: &'static str =
    "' to `reports_to` and the rest to `works_with`. Update team.yml to use the new fields directly.";

/// What somebody is told of one worker that uses the older field for several others.
pub open spec fn warning(w: WorkerModel) -> Seq<char> {
    "warning: worker '"@ + w.name + "' uses deprecated `hands_off_to: ["@ + text::joined(
        w.hands_off_to,
        ", "@,
    ) + "]` \u{2014} migrated first entry '"@ + w.hands_off_to[0] + WARNING_END@
}

/// What somebody is told of the workers that use the older field for several others.
pub open spec fn warnings(ws: Seq<WorkerModel>) -> Seq<Seq<char>>
    decreases ws.len(),
{
    if ws.len() == 0 {
        Seq::empty()
    } else {
        let r = warnings(ws.drop_last());
        let w = ws.last();
        if w.reports_to is None && w.works_with.len() == 0 && w.hands_off_to.len() > 1 {
            r.push(warning(w))
        } else {
            r
        }
    }
}

proof fn shape_fault_stays(ws: Seq<WorkerModel>, n: int)
    requires
        0 <= n <= ws.len(),
        shape_fault(ws.take(n)) is Some,
    ensures
        shape_fault(ws) == shape_fault(ws.take(n)),
    decreases ws.len() - n,
{
    if n < ws.len() {
        assert(ws.take(n + 1).drop_last() =~= ws.take(n));
        shape_fault_stays(ws, n + 1);
    } else {
        assert(ws.take(n) =~= ws);
    }
}

proof fn relations_fault_stays(all: Seq<WorkerModel>, ws: Seq<WorkerModel>, n: int)
    requires
        0 <= n <= ws.len(),
        relations_fault(all, ws.take(n)) is Some,
    ensures
        relations_fault(all, ws) == relations_fault(all, ws.take(n)),
    decreases ws.len() - n,
{
    if n < ws.len() {
        assert(ws.take(n + 1).drop_last() =~= ws.take(n));
        relations_fault_stays(all, ws, n + 1);
    } else {
        assert(ws.take(n) =~= ws);
    }
}

// ── The marker ──────────────────────────────────────────────────────────────
/// Where a codebase says that it belongs to a team.
pub const TEAM_MANAGED_MARKER: &'static str = ".collab/team-managed";

/// What a codebase says that belongs to a team.
pub struct TeamManagedMarker {
    pub team: String,
    /// The manifest of the team.
    pub source: String,
    pub generated_at: String,
}

impl TeamManagedMarker {
    /// The marker of a team.
    pub fn new(team: &str, source: &str, now: Timestamp) -> (m: TeamManagedMarker)
        requires
            now.valid(),
        ensures
            m.team@ == team@,
            m.source@ == source@,
            m.generated_at@ == now.text(),
    {
        TeamManagedMarker {
            team: team.to_owned(),
            source: source.to_owned(),
            generated_at: now.to_rfc3339(),
        }
    }

    /// Where the marker of a codebase stands.
    pub fn path_in(codebase: &str) -> (r: String)
        ensures
            r@ == paths::below(codebase@, TEAM_MANAGED_MARKER@),
    {
        paths::join(codebase, TEAM_MANAGED_MARKER)
    }
}

// ── Laws ────────────────────────────────────────────────────────────────────
/// Everybody that a worker mentions is another worker of the team.
pub open spec fn knows_everybody(all: Seq<WorkerModel>, w: WorkerModel) -> bool {
    &&& w.reports_to matches Some(t) ==> t != w.name && named(all, t)
    &&& forall|i: int|
        0 <= i < w.works_with.len() ==> (#[trigger] w.works_with[i]) != w.name && named(
            all,
            w.works_with[i],
        )
    &&& forall|i: int|
        0 <= i < w.hands_off_to.len() ==> (#[trigger] w.hands_off_to[i]) != w.name && named(
            all,
            w.hands_off_to[i],
        )
}

proof fn links_meaning(all: Seq<WorkerModel>, me: Seq<char>, k: Relation, targets: Seq<Seq<char>>)
    requires
        links_fault(all, me, k, targets) is None,
    ensures
        forall|i: int|
            0 <= i < targets.len() ==> (#[trigger] targets[i]) != me && named(all, targets[i]),
    decreases targets.len(),
{
    if targets.len() > 0 {
        let rest = targets.drop_first();
        links_meaning(all, me, k, rest);
        assert forall|i: int| 0 <= i < targets.len() implies (#[trigger] targets[i]) != me && named(
            all,
            targets[i],
        ) by {
            if i > 0 {
                assert(targets[i] == rest[i - 1]);
            }
        }
    }
}

proof fn relations_meaning(all: Seq<WorkerModel>, ws: Seq<WorkerModel>)
    requires
        relations_fault(all, ws) is None,
    ensures
        forall|i: int| 0 <= i < ws.len() ==> knows_everybody(all, #[trigger] ws[i]),
    decreases ws.len(),
{
    if ws.len() > 0 {
        let init = ws.drop_last();
        let w = ws.last();
        relations_meaning(all, init);
        links_meaning(all, w.name, Relation::ReportsTo, as_list(w.reports_to));
        if w.reports_to is Some {
            let one = as_list(w.reports_to)[0];
            assert(one != w.name && named(all, one));
        }
        links_meaning(all, w.name, Relation::WorksWith, w.works_with);
        links_meaning(all, w.name, Relation::HandsOffTo, w.hands_off_to);
        assert forall|i: int| 0 <= i < ws.len() implies knows_everybody(all, #[trigger] ws[i]) by {
            if i < init.len() {
                assert(ws[i] == init[i]);
            }
        }
    }
}

proof fn shape_meaning(ws: Seq<WorkerModel>)
    requires
        shape_fault(ws) is None,
    ensures
        forall|i: int| 0 <= i < ws.len() ==> worker_fault(ws.take(i), #[trigger] ws[i]) is None,
    decreases ws.len(),
{
    if ws.len() > 0 {
        let init = ws.drop_last();
        shape_meaning(init);
        assert forall|i: int| 0 <= i < ws.len() implies worker_fault(
            ws.take(i),
            #[trigger] ws[i],
        ) is None by {
            if i < init.len() {
                assert(ws[i] == init[i]);
                assert(ws.take(i) =~= init.take(i));
            } else {
                assert(ws.take(i) =~= init);
            }
        }
    }
}

/// In a manifest that was accepted no two workers share a name, every worker has a valid name and
/// a codebase, and everybody that a worker mentions is another worker of the team.
pub proof fn accepted_manifests_are_sound(c: ConfigModel)
    requires
        fault(c) is None,
    ensures
        server::team_name(c.team),
        c.workers.len() > 0,
        forall|i: int|
            0 <= i < c.workers.len() ==> server::team_name((#[trigger] c.workers[i]).name)
                && text::trimmed(c.workers[i].codebase_path).len() > 0,
        forall|i: int, j: int|
            0 <= i < j < c.workers.len() ==> (#[trigger] c.workers[i]).name != (
            #[trigger] c.workers[j]).name,
        forall|i: int|
            0 <= i < c.workers.len() ==> knows_everybody(
                up_to_date(c).workers,
                #[trigger] up_to_date(c).workers[i],
            ),
{
    shape_meaning(c.workers);
    relations_meaning(all_migrated(c.workers), all_migrated(c.workers));
    assert forall|i: int, j: int| 0 <= i < j < c.workers.len() implies (
    #[trigger] c.workers[i]).name != (#[trigger] c.workers[j]).name by {
        assert(worker_fault(c.workers.take(j), c.workers[j]) is None);
        assert(c.workers.take(j)[i] == c.workers[i]);
    }
}

proof fn shape_of_migrated(ws: Seq<WorkerModel>)
    requires
        shape_fault(ws) is None,
    ensures
        shape_fault(all_migrated(ws)) is None,
    decreases ws.len(),
{
    if ws.len() > 0 {
        let init = ws.drop_last();
        let w = ws.last();
        let m = all_migrated(ws);
        shape_of_migrated(init);
        assert(m.drop_last() =~= all_migrated(init));
        assert(m.last() == migrated(w));
        if named(all_migrated(init), w.name) {
            let i = choose|i: int|
                0 <= i < init.len() && (#[trigger] all_migrated(init)[i]).name == w.name;
            assert(init[i].name == w.name);
        }
        if w.hands_off_to.len() > 0 {
            assert(first_bad(w.hands_off_to) is None);
        }
    }
}

/// Reading a manifest again that was accepted and brought up to date changes nothing.
pub proof fn reading_again_changes_nothing(c: ConfigModel)
    requires
        fault(c) is None,
    ensures
        fault(up_to_date(c)) is None,
        up_to_date(up_to_date(c)) == up_to_date(c),
{
    shape_of_migrated(c.workers);
    let ws = all_migrated(c.workers);
    assert forall|i: int| 0 <= i < ws.len() implies migrated(#[trigger] ws[i]) == ws[i] by {
        let w = c.workers[i];
        assert(ws[i] == migrated(w));
    }
    assert(all_migrated(ws) =~= ws);
    assert(up_to_date(up_to_date(c)) =~= up_to_date(c));
}

/// Fields that are in use already are never overwritten from the older one, which stays as it is.
pub proof fn newer_fields_win(w: WorkerModel)
    ensures
        w.reports_to is Some || w.works_with.len() > 0 ==> migrated(w) == w,
        migrated(w).hands_off_to == w.hands_off_to,
        migrated(w).name == w.name,
{
}

/// What stood in the older field alone stands, in the same order, in the newer ones.
pub proof fn nobody_is_lost(w: WorkerModel)
    requires
        w.reports_to is None,
        w.works_with.len() == 0,
    ensures
        as_list(migrated(w).reports_to) + migrated(w).works_with == w.hands_off_to,
{
    if w.hands_off_to.len() > 0 {
        assert(seq![w.hands_off_to[0]] + w.hands_off_to.drop_first() =~= w.hands_off_to);
    } else {
        assert(Seq::<Seq<char>>::empty() + w.works_with =~= w.hands_off_to);
    }
}

/// Paths that do not begin with `~` are left alone.
pub proof fn other_paths_stay(p: Seq<char>, home: Option<Seq<char>>)
    requires
        p.len() == 0 || p[0] != '~',
    ensures
        expanded(p, home) == p,
{
    reveal_strlit("~/");
    reveal_strlit("~");
    if text::after_prefix(p, "~/"@) is Some {
        assert(p.subrange(0, 2)[0] == "~/"@[0]);
    }
    if p == "~"@ {
        assert(p[0] == '~');
    }
}

/// The first name that is none is told of.
pub proof fn the_first_bad_name_is_told(a: Seq<Seq<char>>, b: Seq<Seq<char>>, x: Seq<char>)
    ensures
        first_bad(a + b) == (if first_bad(a) is Some {
            first_bad(a)
        } else {
            first_bad(b)
        }),
        first_bad(seq![x]) == (if 1 <= x.len() <= 64 && server::name_chars(x) {
            None
        } else {
            Some(x)
        }),
    decreases a.len(),
{
    let one = seq![x];
    assert(one.drop_first() =~= Seq::<Seq<char>>::empty());
    assert(first_bad(one.drop_first()) is None);
    if a.len() == 0 {
        assert(a + b =~= b);
    } else {
        the_first_bad_name_is_told(a.drop_first(), b, x);
        assert((a + b).drop_first() =~= a.drop_first() + b);
        assert((a + b)[0] == a[0]);
    }
}

/// A worker is warned of exactly where it hands off to several others and uses neither of the newer
/// fields.
pub proof fn each_worker_is_warned_alone(a: Seq<WorkerModel>, b: Seq<WorkerModel>, x: WorkerModel)
    ensures
        warnings(a + b) == warnings(a) + warnings(b),
        warnings(seq![x]) == (if x.reports_to is None && x.works_with.len() == 0 && x.hands_off_to.len() >= 2 {
            seq![warning(x)]
        } else {
            Seq::empty()
        }),
    decreases b.len(),
{
    let one = seq![x];
    assert(one.drop_last() =~= Seq::<WorkerModel>::empty());
    assert(warnings(one.drop_last()).len() == 0);
    assert(warnings(one) =~= (if x.reports_to is None && x.works_with.len() == 0 && x.hands_off_to.len() >= 2 {
            seq![warning(x)]
        } else {
            Seq::empty()
        }));
    if b.len() == 0 {
        assert(a + b =~= a);
        assert(warnings(a) + warnings(b) =~= warnings(a));
    } else {
        each_worker_is_warned_alone(a, b.drop_last(), x);
        assert((a + b).drop_last() =~= a + b.drop_last());
        assert((a + b).last() == b.last());
        assert(warnings(a + b) =~= warnings(a) + warnings(b));
    }
}

/// What a worker itself configures counts before what the team does.
pub proof fn own_settings_count_first(own: Option<Seq<char>>, common: Option<Seq<char>>)
    ensures
        own is Some ==> own_or(own, common) == own,
        own is None ==> own_or(own, common) == common,
{
}

/// A link is at fault exactly where it leads to the worker itself or to nobody of the team.
pub proof fn links_are_checked(all: Seq<WorkerModel>, me: Seq<char>, k: Relation, target: Seq<char>)
    ensures
        target == me ==> link_fault(all, me, k, target) == Some(Fault::Itself(me, k)),
        target != me && (forall|i: int| 0 <= i < all.len() ==> (#[trigger] all[i]).name != target)
            ==> link_fault(all, me, k, target) == Some(Fault::Unknown(me, k, target)),
        target != me && (exists|i: int| 0 <= i < all.len() && (#[trigger] all[i]).name == target)
            ==> link_fault(all, me, k, target) is None,
{
}

/// Of several links the first at fault is told of.
pub proof fn the_first_bad_link_is_told(
    all: Seq<WorkerModel>,
    me: Seq<char>,
    k: Relation,
    a: Seq<Seq<char>>,
    b: Seq<Seq<char>>,
    x: Seq<char>,
)
    ensures
        links_fault(all, me, k, a + b) == (if links_fault(all, me, k, a) is Some {
            links_fault(all, me, k, a)
        } else {
            links_fault(all, me, k, b)
        }),
        links_fault(all, me, k, seq![x]) == link_fault(all, me, k, x),
    decreases a.len(),
{
    let one = seq![x];
    assert(one.drop_first() =~= Seq::<Seq<char>>::empty());
    assert(links_fault(all, me, k, one.drop_first()) is None);
    if a.len() == 0 {
        assert(a + b =~= b);
    } else {
        the_first_bad_link_is_told(all, me, k, a.drop_first(), b, x);
        assert((a + b).drop_first() =~= a.drop_first() + b);
        assert((a + b)[0] == a[0]);
    }
}

/// What is wrong with a worker: its name, that it is taken, that it has no codebase, or a name in one
/// of its links, in this order.
pub proof fn worker_faults_are_exact(earlier: Seq<WorkerModel>, w: WorkerModel)
    ensures
        ({
            let f = worker_fault(earlier, w);
            let proper = 1 <= w.name.len() <= 64 && server::name_chars(w.name);
            let taken = exists|i: int|
                0 <= i < earlier.len() && (#[trigger] earlier[i]).name == w.name;
            let homeless = text::trimmed(w.codebase_path).len() == 0;
            &&& f == Some(Fault::WorkerName(w.name)) <==> !proper
            &&& f == Some(Fault::Duplicate(w.name)) <==> proper && taken
            &&& f == Some(Fault::NoCodebase(w.name)) <==> proper && !taken && homeless
            &&& f is None <==> proper && !taken && !homeless && first_bad(w.hands_off_to) is None
                && first_bad(w.works_with) is None && (w.reports_to matches Some(t) ==> 1 <= t.len()
                <= 64 && server::name_chars(t))
        }),
{
}

proof fn good_names(v: Seq<Seq<char>>)
    requires
        forall|i: int| 0 <= i < v.len() ==> server::team_name(#[trigger] v[i]),
    ensures
        first_bad(v) is None,
    decreases v.len(),
{
    if v.len() > 0 {
        let rest = v.drop_first();
        assert(server::team_name(v[0]));
        assert forall|i: int| 0 <= i < rest.len() implies server::team_name(#[trigger] rest[i]) by {
            assert(rest[i] == v[i + 1]);
        }
        good_names(rest);
    }
}

proof fn good_links(all: Seq<WorkerModel>, me: Seq<char>, k: Relation, targets: Seq<Seq<char>>)
    requires
        forall|i: int|
            0 <= i < targets.len() ==> (#[trigger] targets[i]) != me && named(all, targets[i]),
    ensures
        links_fault(all, me, k, targets) is None,
    decreases targets.len(),
{
    if targets.len() > 0 {
        let rest = targets.drop_first();
        assert(targets[0] != me && named(all, targets[0]));
        assert forall|i: int| 0 <= i < rest.len() implies (#[trigger] rest[i]) != me && named(
            all,
            rest[i],
        ) by {
            assert(rest[i] == targets[i + 1]);
        }
        good_links(all, me, k, rest);
    }
}

proof fn good_workers(ws: Seq<WorkerModel>)
    requires
        forall|i: int| 0 <= i < ws.len() ==> worker_fault(ws.take(i), #[trigger] ws[i]) is None,
    ensures
        shape_fault(ws) is None,
    decreases ws.len(),
{
    if ws.len() > 0 {
        let init = ws.drop_last();
        let n = ws.len() - 1;
        assert forall|i: int| 0 <= i < init.len() implies worker_fault(
            init.take(i),
            #[trigger] init[i],
        ) is None by {
            assert(init[i] == ws[i]);
            assert(init.take(i) =~= ws.take(i));
        }
        good_workers(init);
        assert(ws[n] == ws.last());
        assert(ws.take(n) =~= init);
    }
}

proof fn good_relations(all: Seq<WorkerModel>, ws: Seq<WorkerModel>)
    requires
        forall|i: int| 0 <= i < ws.len() ==> knows_everybody(all, #[trigger] ws[i]),
    ensures
        relations_fault(all, ws) is None,
    decreases ws.len(),
{
    if ws.len() > 0 {
        let init = ws.drop_last();
        let w = ws.last();
        assert forall|i: int| 0 <= i < init.len() implies knows_everybody(
            all,
            #[trigger] init[i],
        ) by {
            assert(init[i] == ws[i]);
        }
        good_relations(all, init);
        assert(ws[ws.len() - 1] == w);
        good_links(all, w.name, Relation::ReportsTo, as_list(w.reports_to));
        good_links(all, w.name, Relation::WorksWith, w.works_with);
        good_links(all, w.name, Relation::HandsOffTo, w.hands_off_to);
    }
}

/// A manifest is accepted where the team has a name and workers, all of different names and with a
/// codebase each, and every link leads to another of them.
pub proof fn sound_manifests_are_accepted(c: ConfigModel)
    requires
        1 <= c.team.len() <= 64 && server::name_chars(c.team),
        c.workers.len() > 0,
        forall|i: int|
            0 <= i < c.workers.len() ==> 1 <= (#[trigger] c.workers[i]).name.len() <= 64
                && server::name_chars(c.workers[i].name) && text::trimmed(
                c.workers[i].codebase_path,
            ).len() > 0,
        forall|i: int, j: int|
            0 <= i < j < c.workers.len() ==> (#[trigger] c.workers[i]).name != (
            #[trigger] c.workers[j]).name,
        forall|i: int|
            0 <= i < c.workers.len() ==> knows_everybody(
                c.workers,
                #[trigger] c.workers[i],
            ),
    ensures
        fault(c) is None,
{
    let ws = c.workers;
    let all = all_migrated(ws);
    assert forall|i: int| 0 <= i < ws.len() implies worker_fault(
        ws.take(i),
        #[trigger] ws[i],
    ) is None by {
        let w = ws[i];
        assert(knows_everybody(ws, w));
        assert(!named(ws.take(i), w.name)) by {
            if named(ws.take(i), w.name) {
                let k = choose|k: int|
                    0 <= k < ws.take(i).len() && (#[trigger] ws.take(i)[k]).name == w.name;
                assert(ws[k].name == w.name);
            }
        }
        assert forall|k: int| 0 <= k < w.hands_off_to.len() implies server::team_name(
            #[trigger] w.hands_off_to[k],
        ) by {
            let m = choose|m: int| 0 <= m < ws.len() && (#[trigger] ws[m]).name == w.hands_off_to[k];
            assert(server::name_chars(ws[m].name));
        }
        assert forall|k: int| 0 <= k < w.works_with.len() implies server::team_name(
            #[trigger] w.works_with[k],
        ) by {
            let m = choose|m: int| 0 <= m < ws.len() && (#[trigger] ws[m]).name == w.works_with[k];
            assert(server::name_chars(ws[m].name));
        }
        good_names(w.hands_off_to);
        good_names(w.works_with);
        if let Some(t) = w.reports_to {
            let m = choose|m: int| 0 <= m < ws.len() && (#[trigger] ws[m]).name == t;
            assert(server::name_chars(ws[m].name));
        }
    }
    good_workers(ws);
    assert forall|t: Seq<char>| #[trigger] named(ws, t) implies named(all, t) by {
        let m = choose|m: int| 0 <= m < ws.len() && (#[trigger] ws[m]).name == t;
        assert(all[m].name == t);
    }
    assert forall|i: int| 0 <= i < all.len() implies knows_everybody(all, #[trigger] all[i]) by {
        let w = ws[i];
        let v = all[i];
        assert(knows_everybody(ws, w));
        assert(v == migrated(w));
        assert forall|k: int| 0 <= k < v.works_with.len() implies (#[trigger] v.works_with[k])
            != v.name && named(all, v.works_with[k]) by {
            if v.works_with != w.works_with {
                assert(v.works_with[k] == w.hands_off_to[k + 1]);
            }
        }
    }
    good_relations(all, all);
}

/// A file is a team's exactly where its first line that says anything begins with the team: blank
/// lines and remarks before it do not count.
pub proof fn teams_lead_their_file(remark: Seq<char>, line: Seq<char>, rest: Seq<Seq<char>>)
    requires
        text::trimmed(remark).len() == 0 || text::trimmed(remark)[0] == '#',
        text::trimmed(line).len() > 0 && text::trimmed(line)[0] != '#',
    ensures
        leads_with_team(seq![remark] + rest) == leads_with_team(rest),
        leads_with_team(seq![line] + rest) <==> key_of(line) == "team"@,
        !leads_with_team(Seq::empty()),
{
    let a = seq![remark] + rest;
    let b = seq![line] + rest;
    assert(a[0] == remark && b[0] == line);
    assert(a.drop_first() =~= rest);
}

/// The key of a line is what stands before its first colon.
pub proof fn keys_stand_before_the_colon(line: Seq<char>, key: Seq<char>, value: Seq<char>)
    requires
        forall|i: int| 0 <= i < key.len() ==> key[i] != ':',
    ensures
        text::trimmed(line) == key + seq![':'] + value ==> key_of(line) == key,
        text::trimmed(line) == key ==> key_of(line) == key,
{
    text::cuts_are_exact(key, ':', value);
}

/// A tilde in front stands for the home directory.
pub proof fn tildes_stand_for_home(rest: Seq<char>, home: Seq<char>)
    ensures
        expanded("~/"@ + rest, Some(home)) == paths::below(home, rest),
        expanded("~"@, Some(home)) == home,
        expanded("~/"@ + rest, None) == "~/"@ + rest,
{
    reveal_strlit("~/");
    reveal_strlit("~");
    let p = "~/"@ + rest;
    assert("~/"@ =~= p.subrange(0, 2));
    assert(p.skip(2) =~= rest);
    let t = "~"@;
    assert(!"~/"@.is_prefix_of(t));
}

/// What is told of a fault names what is at fault.
pub proof fn faults_name_the_name(n: Seq<char>)
    ensures
        text::holds(fault_text(Fault::WorkerName(n)), "worker name '"@ + n),
        text::holds(fault_text(Fault::TeamName(n)), "team name '"@ + n),
        text::holds(fault_text(Fault::Duplicate(n)), "duplicate worker name '"@ + n),
        text::holds(fault_text(Fault::NoCodebase(n)), "worker '"@ + n),
        fault_text(Fault::Unreadable(n)) == "Invalid team.yml: "@ + n,
{
    front_is_held("worker name '"@ + n, NAME_RULE@);
    front_is_held("team name '"@ + n, NAME_RULE@);
    front_is_held("duplicate worker name '"@ + n, "' in team.yml"@);
    front_is_held("worker '"@ + n, "' has empty codebase_path"@);
}

proof fn front_is_held(a: Seq<char>, b: Seq<char>)
    ensures
        text::holds(a + b, a),
{
    text::self_is_held(a);
    text::held_with_more(a, b, a);
}

/// What is told of a link at fault names the worker, the field and the target.
pub proof fn faults_name_the_link(n: Seq<char>, k: Relation, t: Seq<char>)
    ensures
        text::holds(fault_text(Fault::BadTarget(n, k, t)), t),
        text::holds(fault_text(Fault::Itself(n, k)), "worker '"@ + n + "' "@ + field_name(k)),
        text::holds(fault_text(Fault::Unknown(n, k, t)), t),
        field_name(Relation::ReportsTo) == "reports_to"@,
        field_name(Relation::WorksWith) == "works_with"@,
        field_name(Relation::HandsOffTo) == "hands_off_to"@,
{
    let lead = "worker '"@ + n + "' has invalid "@ + field_name(k) + (if k == Relation::WorksWith {
        " entry '"@
    } else {
        " target '"@
    });
    text::end_is_held(lead, t);
    front_is_held(lead + t, "'"@);
    text::held_through(lead + t + "'"@, lead + t, t);
    let me = "worker '"@ + n + "' "@ + field_name(k);
    front_is_held(me, " itself \u{2014} a worker can't hand off to itself"@);
    text::end_is_held(me + " unknown teammate '"@, t);
    text::held_with_more(me + " unknown teammate '"@ + t, "' (not in team.yml)"@, t);
}

} // verus!
