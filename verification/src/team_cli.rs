//! Administering teams from the command line: what the server's answers come to, and how an older
//! manifest is folded into a team's.
use crate::clock::Timestamp;
use crate::init;
use crate::init::ProjectConfig;
use crate::lifecycle;
use crate::paths;
use crate::server::teams::{CreateTeamResponse, MintTokenResponse};
use crate::team;
use crate::team::{TeamConfig, TeamWorker};
use crate::team_init;
use crate::team_init::Planned;
use crate::text;
use vstd::prelude::*;

verus! {

// ── Creating ────────────────────────────────────────────────────────────────
/// What the server answered to the wish for a team.
pub enum CreateReply {
    Created(CreateTeamResponse),
    /// Another status, with the body.
    Other(u16, String),
}

/// What is shown of a team that was created.
pub open spec fn created_text(name: Seq<char>, id: Seq<char>, token: Seq<char>) -> Seq<char> {
    "Team '"@ + name + "' created.\n\n  team_id: "@ + id + "\n  token:   "@ + token + CREATED_END@
}

/// How the announcement of a team ends.
pub const CREATED_END: &'static str =
    "\n\n\u{26a0}  The token is shown only once. Save it somewhere safe, then\n   distribute it to each worker (set as COLLAB_TOKEN).";

/// What somebody is told who has no valid token.
pub const UNAUTHORIZED: &'static str =
    "Unauthorized. Set COLLAB_TOKEN to the server's admin token before creating a team.";

/// What somebody is told who has the token of a team.
pub const FORBIDDEN: &'static str =
    "Forbidden. The token you supplied is a team token \u{2014} admin operations require the server's legacy/admin token, not a team token.";

/// Why no team was created.
pub open spec fn creation_failure(code: u16, body: Seq<char>, name: Seq<char>) -> Seq<char> {
    if code == 401 {
        UNAUTHORIZED@
    } else if code == 403 {
        FORBIDDEN@
    } else if code == 409 {
        "A team named '"@ + name + "' already exists."@
    } else {
        "create team failed: HTTP "@ + text::decimal(code as nat) + " \u{2014} "@ + body
    }
}

/// What the answer to the wish for a team comes to.
pub fn create(reply: &CreateReply, name: &str) -> (r: Result<String, String>)
    ensures
        match *reply {
            CreateReply::Created(c) => r matches Ok(t) && t@ == created_text(
                c.name@,
                c.team_id@,
                c.token@,
            ),
            CreateReply::Other(code, body) => r matches Err(t) && t@ == creation_failure(
                code,
                body@,
                name@,
            ),
        },
{
    match reply {
        CreateReply::Created(c) => {
            let mut t = text::glue3("Team '", c.name.as_str(), "' created.\n\n  team_id: ");
            t.append(c.team_id.as_str());
            t.append("\n  token:   ");
            t.append(c.token.as_str());
            t.append(CREATED_END);
            Ok(t)
        },
        CreateReply::Other(code, body) => if *code == 401 {
            Err(UNAUTHORIZED.to_owned())
        } else if *code == 403 {
            Err(FORBIDDEN.to_owned())
        } else if *code == 409 {
            Err(text::glue3("A team named '", name, "' already exists."))
        } else {
            let mut t = text::glue3(
                "create team failed: HTTP ",
                text::number(*code as u64).as_str(),
                " \u{2014} ",
            );
            t.append(body.as_str());
            Err(t)
        },
    }
}

// ── Listing and showing ─────────────────────────────────────────────────────
/// A team as the server lists it.
pub struct TeamSummary {
    pub team_id: String,
    pub name: String,
    pub created_at: String,
    pub active_token_count: i64,
}

/// A row of the list of teams.
pub open spec fn team_row(t: TeamSummary) -> Seq<char> {
    "\n"@ + text::padded_end(t.name@, 24) + " "@ + text::padded_end(t.team_id@, 40) + " "@
        + text::padded_start(text::signed_decimal(t.active_token_count as int), 6)
}

/// The rows of the list of teams.
pub open spec fn team_rows(v: Seq<TeamSummary>) -> Seq<char>
    decreases v.len(),
{
    if v.len() == 0 {
        Seq::empty()
    } else {
        team_rows(v.drop_last()) + team_row(v.last())
    }
}

/// How the list of teams begins.
pub open spec fn list_head() -> Seq<char> {
    text::padded_end("Name"@, 24) + " "@ + text::padded_end("ID"@, 40) + " "@ + text::padded_start(
        "Tokens"@,
        6,
    ) + "\n"@ + text::repeated('\u{2500}', 72)
}

/// The list of teams.
pub open spec fn team_list(v: Seq<TeamSummary>, server: Seq<char>) -> Seq<char> {
    if v.len() == 0 {
        "No teams found on "@ + server + "."@
    } else {
        list_head() + team_rows(v)
    }
}

/// The list of teams.
pub fn list(teams: &Vec<TeamSummary>, server: &str) -> (r: String)
    ensures
        r@ == team_list(teams@, server@),
{
    if teams.len() == 0 {
        return text::glue3("No teams found on ", server, ".");
    }
    let mut r = text::pad_end("Name", 24);
    r.append(" ");
    r.append(text::pad_end("ID", 40).as_str());
    r.append(" ");
    r.append(text::pad_start("Tokens", 6).as_str());
    r.append("\n");
    r.append(text::repeat('\u{2500}', 72).as_str());
    let ghost head = r@;
    let mut i: usize = 0;
    assert(r@ =~= head + team_rows(teams@.take(0)));
    while i < teams.len()
        invariant
            i <= teams@.len(),
            head == list_head(),
            r@ == head + team_rows(teams@.take(i as int)),
        decreases teams@.len() - i,
    {
        assert(teams@.take(i + 1).drop_last() =~= teams@.take(i as int));
        let t = &teams[i];
        let ghost before = r@;
        r.append("\n");
        r.append(text::pad_end(t.name.as_str(), 24).as_str());
        r.append(" ");
        r.append(text::pad_end(t.team_id.as_str(), 40).as_str());
        r.append(" ");
        r.append(
            text::pad_start(text::signed(t.active_token_count).as_str(), 6).as_str(),
        );
        assert(r@ =~= before + team_row(*t));
        assert(before + team_row(*t) =~= head + (team_rows(teams@.take(i as int)) + team_row(*t)));
        i += 1;
    }
    assert(teams@.take(i as int) =~= teams@);
    r
}

/// What somebody is told who asks about a team with the token of one.
pub const TEAM_TOKEN_HINT: &'static str =
    "HTTP 403 Forbidden \u{2014} Your COLLAB_TOKEN looks like a team token (tm_\u{2026}), but `collab team show` needs an admin token. Set COLLAB_ADMIN_TOKEN (adm_\u{2026}) to the admin secret and retry.";

/// What somebody is told who asks about a team without the administrator's token.
pub const ADMIN_TOKEN_HINT: &'static str =
    "HTTP 403 Forbidden \u{2014} `collab team show` requires an admin token. Set COLLAB_ADMIN_TOKEN (adm_\u{2026}) to the admin secret and retry.";

/// What somebody is told whose question about a team was refused, given the status, both as a
/// number and as it is shown.
pub fn lookup_failure(code: u16, status: &str, admin_token: &Option<String>) -> (r: String)
    ensures
        r@ == (if code == 403 {
            if text::opt_text(*admin_token) matches Some(t) && text::after_prefix(t, "tm_"@) is Some {
                TEAM_TOKEN_HINT@
            } else {
                ADMIN_TOKEN_HINT@
            }
        } else {
            "lookup failed: HTTP "@ + status@
        }),
{
    if code != 403 {
        return text::glue("lookup failed: HTTP ", status);
    }
    if let Some(t) = admin_token {
        if text::strip_prefix(t.as_str(), "tm_").is_some() {
            return TEAM_TOKEN_HINT.to_owned();
        }
    }
    ADMIN_TOKEN_HINT.to_owned()
}

/// Where the first team with the name stands.
pub open spec fn place_of(v: Seq<TeamSummary>, name: Seq<char>) -> Option<int>
    decreases v.len(),
{
    if v.len() == 0 {
        None
    } else {
        match place_of(v.drop_last(), name) {
            Some(i) => Some(i),
            None => if v.last().name@ == name {
                Some(v.len() - 1)
            } else {
                None
            },
        }
    }
}

/// Finds a team by its name.
pub fn find_team(teams: &Vec<TeamSummary>, name: &str, server: &str) -> (r: Result<usize, String>)
    ensures
        match place_of(teams@, name@) {
            Some(i) => r matches Ok(k) && k == i && k < teams@.len(),
            None => r matches Err(m) && m@ == "team '"@ + name@ + "' not found on "@ + server@,
        },
{
    let mut i: usize = 0;
    while i < teams.len()
        invariant
            i <= teams@.len(),
            place_of(teams@.take(i as int), name@) is None,
        decreases teams@.len() - i,
    {
        assert(teams@.take(i + 1).drop_last() =~= teams@.take(i as int));
        assert(teams@.take(i + 1).last() == teams@[i as int]);
        if text::same(teams[i].name.as_str(), name) {
            proof {
                place_stays(teams@, name@, i + 1);
            }
            return Ok(i);
        }
        i += 1;
    }
    assert(teams@.take(i as int) =~= teams@);
    let mut m = text::glue3("team '", name, "' not found on ");
    m.append(server);
    Err(m)
}

proof fn place_stays(v: Seq<TeamSummary>, name: Seq<char>, n: int)
    requires
        0 <= n <= v.len(),
        place_of(v.take(n), name) is Some,
    ensures
        place_of(v, name) == place_of(v.take(n), name),
    decreases v.len() - n,
{
    if n < v.len() {
        assert(v.take(n + 1).drop_last() =~= v.take(n));
        place_stays(v, name, n + 1);
    } else {
        assert(v.take(n) =~= v);
    }
}

/// What is shown of a worker of a team.
pub open spec fn member_line(w: team::WorkerModel) -> Seq<char> {
    "\n  @"@ + w.name + "  "@ + w.role + "  ["@ + w.codebase_path + "]"@ + (
    if w.hands_off_to.len() == 0 {
        Seq::empty()
    } else {
        " \u{2192} "@ + text::joined(lifecycle::at_names(w.hands_off_to), ", "@)
    })
}

/// What is shown of the workers of a team.
pub open spec fn member_lines(ws: Seq<team::WorkerModel>) -> Seq<char>
    decreases ws.len(),
{
    if ws.len() == 0 {
        Seq::empty()
    } else {
        member_lines(ws.drop_last()) + member_line(ws.last())
    }
}

/// What is shown of a team.
pub open spec fn team_text(t: TeamSummary) -> Seq<char> {
    "Team: "@ + t.name@ + "\n  id:               "@ + t.team_id@ + "\n  created_at:       "@
        + t.created_at@ + "\n  active tokens:    "@ + text::signed_decimal(
        t.active_token_count as int,
    )
}

/// What is shown of a team.
pub fn show(t: &TeamSummary) -> (r: String)
    ensures
        r@ == team_text(*t),
{
    let mut r = text::glue3("Team: ", t.name.as_str(), "\n  id:               ");
    r.append(t.team_id.as_str());
    r.append("\n  created_at:       ");
    r.append(t.created_at.as_str());
    r.append("\n  active tokens:    ");
    r.append(text::signed(t.active_token_count).as_str());
    r
}

/// What is shown of the workers in the manifest `path`, which has to be that of the team.
pub fn show_members(cfg: &TeamConfig, name: &str, path: &str) -> (r: Result<String, String>)
    ensures
        if cfg@.team != name@ {
            r matches Err(m) && m@ == "team.yml at "@ + path@ + " declares team '"@ + cfg@.team
                + "', but you asked about '"@ + name@ + "'"@
        } else {
            r matches Ok(m) && m@ == "Workers ("@ + text::decimal(cfg@.workers.len()) + " from "@
                + path@ + "):"@ + member_lines(cfg@.workers)
        },
{
    if !text::same(cfg.team.as_str(), name) {
        let mut m = text::glue3("team.yml at ", path, " declares team '");
        m.append(cfg.team.as_str());
        m.append("', but you asked about '");
        m.append(name);
        m.append("'");
        return Err(m);
    }
    let mut r = text::glue3("Workers (", text::count(cfg.workers.len()).as_str(), " from ");
    r.append(path);
    r.append("):");
    let ghost head = r@;
    let ghost ws = cfg@.workers;
    let mut i: usize = 0;
    assert(r@ =~= head + member_lines(ws.take(0)));
    while i < cfg.workers.len()
        invariant
            i <= cfg.workers@.len(),
            ws == cfg@.workers,
            r@ == head + member_lines(ws.take(i as int)),
        decreases cfg.workers@.len() - i,
    {
        assert(ws.take(i + 1).drop_last() =~= ws.take(i as int));
        let w = &cfg.workers[i];
        assert(ws.take(i + 1).last() == w@);
        let ghost before = r@;
        r.append("\n  @");
        r.append(w.name.as_str());
        r.append("  ");
        r.append(w.role.as_str());
        r.append("  [");
        r.append(w.codebase_path.as_str());
        r.append("]");
        if w.hands_off_to.len() > 0 {
            r.append(
                text::glue(" \u{2192} ", lifecycle::at_list(&w.hands_off_to).as_str()).as_str(),
            );
        }
        assert(r@ =~= before + member_line(w@));
        assert(before + member_line(w@) =~= head + (member_lines(ws.take(i as int)) + member_line(
            w@,
        )));
        i += 1;
    }
    assert(ws.take(i as int) =~= ws);
    Ok(r)
}

/// What is shown of a token that was minted for a team.
pub open spec fn rotated_text(name: Seq<char>, id: Seq<char>, token: Seq<char>) -> Seq<char> {
    "New token for team '"@ + name + "':\n\n  "@ + token + ROTATED_MIDDLE@ + id + ROTATED_END@
}

/// What is said of tokens that were there before.
pub const ROTATED_MIDDLE: &'static str =
    "\n\n\u{26a0}  The token is shown only once. Distribute it to the team.\n   Old tokens still work \u{2014} revoke them with the server's /admin/teams/";

/// How they are revoked.
pub const ROTATED_END: &'static str =
    "/tokens/<hash-prefix>\n   endpoint once everyone has rotated. (A nicer CLI for this is coming.)";

/// What is shown of a token that was minted for a team.
pub fn rotate_token(name: &str, team_id: &str, minted: &MintTokenResponse) -> (r: String)
    ensures
        r@ == rotated_text(name@, team_id@, minted.token@),
{
    let mut r = text::glue3("New token for team '", name, "':\n\n  ");
    r.append(minted.token.as_str());
    r.append(ROTATED_MIDDLE);
    r.append(team_id);
    r.append(ROTATED_END);
    r
}

// ── Adopting ────────────────────────────────────────────────────────────────
/// A project manifest that can be folded into a team's: the file `path` must not be a team
/// manifest itself.
pub fn read_legacy(contents: &str, path: &str, parsed: Result<ProjectConfig, String>) -> (r: Result<
    ProjectConfig,
    String,
>)
    ensures
        if team::leads_with_team(text::lines_of(contents@)) {
            r matches Err(m) && m@ == path@ + LOOKS_LIKE_TEAM@
        } else {
            match parsed {
                Ok(c) => r == Ok::<ProjectConfig, String>(c),
                Err(e) => r matches Err(m) && m@ == "parsing "@ + path@ + " as workers.yml: "@ + e@,
            }
        },
{
    if team::yaml_is_team_config(contents) {
        return Err(text::glue(path, LOOKS_LIKE_TEAM));
    }
    match parsed {
        Ok(c) => Ok(c),
        Err(e) => {
            let mut m = text::glue3("parsing ", path, " as workers.yml: ");
            m.append(e.as_str());
            Err(m)
        },
    }
}

/// What somebody is told who takes a team manifest for an older one.
pub const LOOKS_LIKE_TEAM: &'static str =
    " looks like a team.yml (has a top-level 'team:' key). Point adopt at a legacy workers.yml instead.";

/// The first worker of a project whose name a team has already.
pub open spec fn collision(ws: Seq<init::WorkerModel>, taken: Seq<team::WorkerModel>) -> Option<
    Seq<char>,
>
    decreases ws.len(),
{
    if ws.len() == 0 {
        None
    } else {
        match collision(ws.drop_last(), taken) {
            Some(n) => Some(n),
            None => if team::named(taken, ws.last().name) {
                Some(ws.last().name)
            } else {
                None
            },
        }
    }
}

/// A worker of a project as a worker of a team.
pub open spec fn adopted(w: init::WorkerModel, codebase: Seq<char>) -> team::WorkerModel {
    team::WorkerModel {
        name: w.name,
        role: w.role,
        codebase_path: codebase,
        tasks: w.tasks,
        avatar: w.avatar,
        color: w.color,
        model: w.model,
        cli_template: w.cli_template,
        reports_to: w.reports_to,
        works_with: w.works_with,
        hands_off_to: w.hands_off_to,
    }
}

/// The workers of a project as workers of a team.
pub open spec fn all_adopted(ws: Seq<init::WorkerModel>, codebase: Seq<char>) -> Seq<
    team::WorkerModel,
> {
    Seq::new(ws.len(), |i: int| adopted(ws[i], codebase))
}

/// A team without workers that is like a project, named after the directory of its codebase.
pub open spec fn seed(p: init::ProjectModel, codebase: Seq<char>) -> team::ConfigModel {
    team::ConfigModel {
        team: match paths::last_part(codebase) {
            Some(n) => n,
            None => "team"@,
        },
        server: p.server,
        shared_data_dir: p.shared_data_dir,
        cli_template: p.cli_template,
        model: p.model,
        workers: Seq::empty(),
    }
}

/// The model of a manifest that may be there.
pub open spec fn config_model(c: Option<TeamConfig>) -> Option<team::ConfigModel> {
    match c {
        Some(x) => Some(x@),
        None => None,
    }
}

/// The manifest that the project is folded into.
pub open spec fn base_of(
    existing: Option<team::ConfigModel>,
    p: init::ProjectModel,
    codebase: Seq<char>,
) -> team::ConfigModel {
    match existing {
        Some(c) => c,
        None => seed(p, codebase),
    }
}

/// A team with the workers of a project behind its own.
pub open spec fn merged(
    c: team::ConfigModel,
    p: init::ProjectModel,
    codebase: Seq<char>,
) -> team::ConfigModel {
    team::ConfigModel { workers: c.workers + all_adopted(p.workers, codebase), ..c }
}

/// What folding a project into a team comes to: the manifest of the team, or why there is none.
pub open spec fn adoption(
    existing: Option<team::ConfigModel>,
    p: init::ProjectModel,
    codebase: Seq<char>,
) -> Result<team::ConfigModel, Seq<char>> {
    let base = base_of(existing, p, codebase);
    match collision(p.workers, base.workers) {
        Some(n) => Err(
            "team.yml already has a worker named '"@ + n + "'. Rename one before adopting."@,
        ),
        None => match team::fault(merged(base, p, codebase)) {
            Some(f) => Err("validating merged team.yml: "@ + team::fault_text(f)),
            None => Ok(merged(base, p, codebase)),
        },
    }
}

fn find_collision(p: &ProjectConfig, c: &TeamConfig) -> (r: Option<String>)
    ensures
        text::opt_text(r) == collision(p@.workers, c@.workers),
{
    let ghost ws = p@.workers;
    let ghost taken = c@.workers;
    let mut i: usize = 0;
    while i < p.workers.len()
        invariant
            i <= p.workers@.len(),
            ws == p@.workers,
            taken == c@.workers,
            collision(ws.take(i as int), taken) is None,
        decreases p.workers@.len() - i,
    {
        assert(ws.take(i + 1).drop_last() =~= ws.take(i as int));
        assert(ws.take(i + 1).last() == p.workers@[i as int]@);
        let name = &p.workers[i].name;
        let mut j: usize = 0;
        while j < c.workers.len()
            invariant
                i < p.workers@.len(),
                j <= c.workers@.len(),
                ws == p@.workers,
                taken == c@.workers,
                name@ == p.workers@[i as int].name@,
                ws.take(i + 1).drop_last() == ws.take(i as int),
                ws.take(i + 1).last() == p.workers@[i as int]@,
                collision(ws.take(i as int), taken) is None,
                forall|k: int| 0 <= k < j ==> (#[trigger] taken[k]).name != name@,
            decreases c.workers@.len() - j,
        {
            assert(taken[j as int] == c.workers@[j as int]@);
            if text::same(c.workers[j].name.as_str(), name.as_str()) {
                assert(team::named(taken, name@));
                proof {
                    collision_stays(ws, taken, i + 1);
                }
                return Some(name.clone());
            }
            j += 1;
        }
        assert(!team::named(taken, name@));
        i += 1;
    }
    assert(ws.take(i as int) =~= ws);
    None
}

proof fn collision_stays(ws: Seq<init::WorkerModel>, taken: Seq<team::WorkerModel>, n: int)
    requires
        0 <= n <= ws.len(),
        collision(ws.take(n), taken) is Some,
    ensures
        collision(ws, taken) == collision(ws.take(n), taken),
    decreases ws.len() - n,
{
    if n < ws.len() {
        assert(ws.take(n + 1).drop_last() =~= ws.take(n));
        collision_stays(ws, taken, n + 1);
    } else {
        assert(ws.take(n) =~= ws);
    }
}

fn copy_config(c: &TeamConfig) -> (r: TeamConfig)
    ensures
        r@ == c@,
{
    let mut workers: Vec<TeamWorker> = Vec::new();
    let mut i: usize = 0;
    while i < c.workers.len()
        invariant
            i <= c.workers@.len(),
            workers@.len() == i,
            forall|k: int| 0 <= k < i ==> (#[trigger] workers@[k])@ == c.workers@[k]@,
        decreases c.workers@.len() - i,
    {
        workers.push(c.workers[i].copy());
        i += 1;
    }
    assert(team::worker_models(workers@) =~= team::worker_models(c.workers@));
    TeamConfig {
        team: c.team.clone(),
        server: c.server.clone(),
        shared_data_dir: text::copy_opt(&c.shared_data_dir),
        cli_template: text::copy_opt(&c.cli_template),
        model: text::copy_opt(&c.model),
        workers,
    }
}

/// Folds a project manifest from the directory `codebase` into the manifest of a team, or into a
/// new one where there is none. The result, which is to be written, is refused where a name is
/// taken and where it would not be a valid manifest.
pub fn adopt(legacy: &ProjectConfig, existing: Option<TeamConfig>, codebase: &str) -> (r: Result<
    TeamConfig,
    String,
>)
    ensures
        match adoption(config_model(existing), legacy@, codebase@) {
            Err(t) => r matches Err(m) && m@ == t,
            Ok(c) => r matches Ok(d) && d@ == c,
        },
{
    let ghost base = base_of(config_model(existing), legacy@, codebase@);
    let mut cfg = match existing {
        Some(c) => c,
        None => {
            let workers: Vec<TeamWorker> = Vec::new();
            assert(team::worker_models(workers@) =~= Seq::<team::WorkerModel>::empty());
            TeamConfig {
                team: match paths::file_name(codebase) {
                    Some(n) => n,
                    None => "team".to_owned(),
                },
                server: legacy.server.clone(),
                shared_data_dir: text::copy_opt(&legacy.shared_data_dir),
                cli_template: text::copy_opt(&legacy.cli_template),
                model: text::copy_opt(&legacy.model),
                workers,
            }
        },
    };
    assert(cfg@ =~= base);
    if let Some(n) = find_collision(legacy, &cfg) {
        return Err(
            text::glue3(
                "team.yml already has a worker named '",
                n.as_str(),
                "'. Rename one before adopting.",
            ),
        );
    }
    let ghost want = all_adopted(legacy@.workers, codebase@);
    let ghost first = cfg.workers@;
    let mut i: usize = 0;
    while i < legacy.workers.len()
        invariant
            i <= legacy.workers@.len(),
            want == all_adopted(legacy@.workers, codebase@),
            cfg.workers@.len() == first.len() + i,
            cfg.team@ == base.team,
            cfg.server@ == base.server,
            text::opt_text(cfg.shared_data_dir) == base.shared_data_dir,
            text::opt_text(cfg.cli_template) == base.cli_template,
            text::opt_text(cfg.model) == base.model,
            forall|k: int| 0 <= k < first.len() ==> #[trigger] cfg.workers@[k] == first[k],
            forall|k: int|
                0 <= k < i ==> (#[trigger] want[k]) == cfg.workers@[first.len() + k]@,
        decreases legacy.workers@.len() - i,
    {
        let w = &legacy.workers[i];
        let new = TeamWorker {
            name: w.name.clone(),
            role: w.role.clone(),
            codebase_path: codebase.to_owned(),
            tasks: text::copy_opt(&w.tasks),
            avatar: text::copy_opt(&w.avatar),
            color: w.color,
            model: text::copy_opt(&w.model),
            cli_template: text::copy_opt(&w.cli_template),
            reports_to: text::copy_opt(&w.reports_to),
            works_with: text::copy_list(&w.works_with),
            hands_off_to: text::copy_list(&w.hands_off_to),
        };
        assert(legacy@.workers[i as int] == w@);
        assert(new@ =~= adopted(w@, codebase@));
        assert(want[i as int] == adopted(w@, codebase@));
        cfg.workers.push(new);
        i += 1;
    }
    proof {
        let ms = team::worker_models(cfg.workers@);
        assert forall|k: int| 0 <= k < ms.len() implies ms[k] == (base.workers + want)[k] by {
            if k < first.len() {
                assert(cfg.workers@[k] == first[k]);
            } else {
                assert(want[k - first.len()] == cfg.workers@[first.len() + (k - first.len())]@);
            }
        }
        assert(ms =~= base.workers + want);
    }
    assert(cfg@ =~= merged(base, legacy@, codebase@));
    let copy = copy_config(&cfg);
    match TeamConfig::from_yaml(Ok(copy)) {
        Ok(_) => Ok(cfg),
        Err(e) => Err(text::glue("validating merged team.yml: ", e.message().as_str())),
    }
}

fn plan_last(cfg: &TeamConfig, count: usize, codebase: &str, source: &str, now: Timestamp) -> (r: Vec<
    Planned,
>)
    requires
        count <= cfg.workers@.len(),
        now.valid(),
    ensures
        r@.len() == count,
        forall|i: int|
            0 <= i < r@.len() ==> team_init::planned_at(
                #[trigger] r@[i],
                cfg@,
                cfg@.workers[cfg@.workers.len() - count + i],
                codebase@,
                source@,
                now.text(),
            ),
{
    let start: usize = cfg.workers.len() - count;
    let mut r: Vec<Planned> = Vec::new();
    let mut i: usize = 0;
    while i < count
        invariant
            i <= count,
            start + count == cfg.workers.len(),
            now.valid(),
            r@.len() == i,
            forall|k: int|
                0 <= k < i ==> team_init::planned_at(
                    #[trigger] r@[k],
                    cfg@,
                    cfg@.workers[start + k],
                    codebase@,
                    source@,
                    now.text(),
                ),
        decreases count - i,
    {
        let w = &cfg.workers[start + i];
        assert(cfg@.workers[start + i] == w@);
        r.push(team_init::plan_worker(cfg, w, codebase, source, now));
        i += 1;
    }
    r
}

/// What is written when a project is adopted.
pub struct Adoption {
    /// The manifest of the team.
    pub team: TeamConfig,
    /// What each of the adopted workers is told.
    pub files: Vec<Planned>,
}

/// Decides what is written when a project manifest from the directory `codebase` is folded into
/// the manifest `source` of a team: that manifest, and for each worker of the project what it is
/// told now, as the manifest says it once it has been brought up to date.
pub fn plan_adoption(
    legacy: &ProjectConfig,
    existing: Option<TeamConfig>,
    codebase: &str,
    source: &str,
    now: Timestamp,
) -> (r: Result<Adoption, String>)
    requires
        now.valid(),
    ensures
        match adoption(config_model(existing), legacy@, codebase@) {
            Err(t) => r matches Err(m) && m@ == t,
            Ok(c) => {
                &&& r matches Ok(a)
                &&& a.team@ == c
                &&& a.files@.len() == legacy@.workers.len()
                &&& forall|i: int|
                    0 <= i < a.files@.len() ==> team_init::planned_at(
                        #[trigger] a.files@[i],
                        team::up_to_date(c),
                        team::migrated(adopted(legacy@.workers[i], codebase@)),
                        codebase@,
                        source@,
                        now.text(),
                    )
            },
        },
{
    let team = match adopt(legacy, existing, codebase) {
        Ok(c) => c,
        Err(m) => {
            return Err(m);
        },
    };
    match TeamConfig::from_yaml(Ok(copy_config(&team))) {
        Ok(read) => {
            let files = plan_last(&read, legacy.workers.len(), codebase, source, now);
            proof {
                let c = merged(
                    base_of(config_model(existing), legacy@, codebase@),
                    legacy@,
                    codebase@,
                );
                let n = c.workers.len() - legacy@.workers.len();
                assert forall|i: int| 0 <= i < files@.len() implies team_init::planned_at(
                    #[trigger] files@[i],
                    team::up_to_date(c),
                    team::migrated(adopted(legacy@.workers[i], codebase@)),
                    codebase@,
                    source@,
                    now.text(),
                ) by {
                    assert(c.workers[n + i] == adopted(legacy@.workers[i], codebase@));
                    assert(read@.workers[n + i] == team::migrated(c.workers[n + i]));
                }
            }
            Ok(Adoption { team, files })
        },
        Err(e) => Err(e.message()),
    }
}

/// What is shown of the workers that were adopted.
pub open spec fn adopted_lines(ws: Seq<init::WorkerModel>) -> Seq<char>
    decreases ws.len(),
{
    if ws.len() == 0 {
        Seq::empty()
    } else {
        adopted_lines(ws.drop_last()) + "\n  + @"@ + ws.last().name + "  ("@ + ws.last().role + ")"@
    }
}

/// What is shown when the manifest `workers_yml` was folded into `team_yml`.
pub fn adopted_text(legacy: &ProjectConfig, workers_yml: &str, team_yml: &str) -> (r: String)
    ensures
        r@ == "Adopted "@ + workers_yml@ + " into "@ + team_yml@ + ":"@ + adopted_lines(
            legacy@.workers,
        ),
{
    let mut r = text::glue3("Adopted ", workers_yml, " into ");
    r.append(team_yml);
    r.append(":");
    let ghost head = r@;
    let ghost ws = legacy@.workers;
    let mut i: usize = 0;
    assert(r@ =~= head + adopted_lines(ws.take(0)));
    while i < legacy.workers.len()
        invariant
            i <= legacy.workers@.len(),
            ws == legacy@.workers,
            r@ == head + adopted_lines(ws.take(i as int)),
        decreases legacy.workers@.len() - i,
    {
        assert(ws.take(i + 1).drop_last() =~= ws.take(i as int));
        let w = &legacy.workers[i];
        assert(ws.take(i + 1).last() == w@);
        let ghost lines = adopted_lines(ws.take(i as int));
        r.append("\n  + @");
        r.append(w.name.as_str());
        r.append("  (");
        r.append(w.role.as_str());
        r.append(")");
        assert(r@ =~= head + (lines + "\n  + @"@ + w.name@ + "  ("@ + w.role@ + ")"@));
        i += 1;
    }
    assert(ws.take(i as int) =~= ws);
    r
}

/// What is shown when a team was adopted and a token for it was asked for: the token, or how to
/// get one. That there is none yet does not undo the adoption.
pub open spec fn mint_text(team: Seq<char>, minted: Result<Seq<char>, Seq<char>>) -> Seq<char> {
    match minted {
        Ok(t) => t,
        Err(m) => if text::contains_text(m, "already exists"@) {
            "Team '"@ + team
                + "' already exists on the server.\nIf you need a fresh token, run:\n    collab team rotate-token "@
                + team
        } else {
            "Could not mint token automatically: "@ + m
                + "\nMint manually once the server is reachable:\n    collab team create "@ + team
        },
    }
}

/// What is shown when a team was adopted and a token for it was asked for.
pub fn minted_text(team: &str, minted: Result<String, String>) -> (r: String)
    ensures
        r@ == mint_text(
            team@,
            match minted {
                Ok(t) => Ok(t@),
                Err(m) => Err(m@),
            },
        ),
{
    match minted {
        Ok(t) => t,
        Err(m) => if text::contains(m.as_str(), "already exists") {
            let mut r = text::glue3(
                "Team '",
                team,
                "' already exists on the server.\nIf you need a fresh token, run:\n    collab team rotate-token ",
            );
            r.append(team);
            r
        } else {
            let mut r = text::glue3(
                "Could not mint token automatically: ",
                m.as_str(),
                "\nMint manually once the server is reachable:\n    collab team create ",
            );
            r.append(team);
            r
        },
    }
}

// ── Laws ────────────────────────────────────────────────────────────────────
/// Whoever was on the team stays on it unchanged, and everybody of the project comes after, with
/// the directory of the project for a codebase.
pub proof fn adoption_keeps_everybody(
    c: team::ConfigModel,
    p: init::ProjectModel,
    codebase: Seq<char>,
    i: int,
)
    requires
        0 <= i < merged(c, p, codebase).workers.len(),
    ensures
        i < c.workers.len() ==> merged(c, p, codebase).workers[i] == c.workers[i],
        i >= c.workers.len() ==> merged(c, p, codebase).workers[i] == adopted(
            p.workers[i - c.workers.len()],
            codebase,
        ),
        merged(c, p, codebase).team == c.team,
{
}

/// The first name that is taken is refused, whoever else there is.
pub proof fn taken_names_are_refused(
    ws: Seq<init::WorkerModel>,
    taken: Seq<team::WorkerModel>,
    i: int,
)
    requires
        0 <= i < ws.len(),
        team::named(taken, ws[i].name),
    ensures
        collision(ws, taken) is Some,
    decreases ws.len(),
{
    if i < ws.len() - 1 {
        assert(ws.drop_last()[i] == ws[i]);
        taken_names_are_refused(ws.drop_last(), taken, i);
    }
}

/// Every team has its row, in order: its name, its identifier and its tokens, in columns.
pub proof fn each_team_has_its_row(a: Seq<TeamSummary>, b: Seq<TeamSummary>, x: TeamSummary)
    ensures
        team_rows(a + b) == team_rows(a) + team_rows(b),
        team_rows(seq![x]) == ("\n"@ + text::padded_end(x.name@, 24) + " "@ + text::padded_end(x.team_id@, 40) + " "@
            + text::padded_start(text::signed_decimal(x.active_token_count as int), 6)),
    decreases b.len(),
{
    let one = seq![x];
    assert(one.drop_last() =~= Seq::<TeamSummary>::empty());
    assert(team_rows(one.drop_last()).len() == 0);
    assert(team_rows(one) =~= ("\n"@ + text::padded_end(x.name@, 24) + " "@ + text::padded_end(x.team_id@, 40) + " "@
            + text::padded_start(text::signed_decimal(x.active_token_count as int), 6)));
    if b.len() == 0 {
        assert(a + b =~= a);
        assert(team_rows(a) + team_rows(b) =~= team_rows(a));
    } else {
        each_team_has_its_row(a, b.drop_last(), x);
        assert((a + b).drop_last() =~= a + b.drop_last());
        assert((a + b).last() == b.last());
        assert(team_rows(a + b) =~= team_rows(a) + team_rows(b));
    }
}

/// Every member has its line, in order.
pub proof fn each_member_has_its_line(
    a: Seq<team::WorkerModel>,
    b: Seq<team::WorkerModel>,
    x: team::WorkerModel,
)
    ensures
        member_lines(a + b) == member_lines(a) + member_lines(b),
        member_lines(seq![x]) == (member_line(x)),
    decreases b.len(),
{
    let one = seq![x];
    assert(one.drop_last() =~= Seq::<team::WorkerModel>::empty());
    assert(member_lines(one.drop_last()).len() == 0);
    assert(member_lines(one) =~= (member_line(x)));
    if b.len() == 0 {
        assert(a + b =~= a);
        assert(member_lines(a) + member_lines(b) =~= member_lines(a));
    } else {
        each_member_has_its_line(a, b.drop_last(), x);
        assert((a + b).drop_last() =~= a + b.drop_last());
        assert((a + b).last() == b.last());
        assert(member_lines(a + b) =~= member_lines(a) + member_lines(b));
    }
}

/// Every adopted worker has its line, in order: its name and its role.
pub proof fn each_adopted_worker_has_its_line(
    a: Seq<init::WorkerModel>,
    b: Seq<init::WorkerModel>,
    x: init::WorkerModel,
)
    ensures
        adopted_lines(a + b) == adopted_lines(a) + adopted_lines(b),
        adopted_lines(seq![x]) == ("\n  + @"@ + x.name + "  ("@ + x.role + ")"@),
    decreases b.len(),
{
    let one = seq![x];
    assert(one.drop_last() =~= Seq::<init::WorkerModel>::empty());
    assert(adopted_lines(one.drop_last()).len() == 0);
    assert(adopted_lines(one) =~= ("\n  + @"@ + x.name + "  ("@ + x.role + ")"@));
    if b.len() == 0 {
        assert(a + b =~= a);
        assert(adopted_lines(a) + adopted_lines(b) =~= adopted_lines(a));
    } else {
        each_adopted_worker_has_its_line(a, b.drop_last(), x);
        assert((a + b).drop_last() =~= a + b.drop_last());
        assert((a + b).last() == b.last());
        assert(adopted_lines(a + b) =~= adopted_lines(a) + adopted_lines(b));
    }
}

/// A member's line begins with its name, its role and its codebase, and names everybody it hands off
/// to.
pub proof fn members_are_told(w: team::WorkerModel, i: int)
    ensures
        ("\n  @"@ + w.name + "  "@ + w.role + "  ["@ + w.codebase_path + "]"@).is_prefix_of(
            member_line(w),
        ),
        0 <= i < w.hands_off_to.len() ==> text::holds(member_line(w), "@"@ + w.hands_off_to[i]),
{
    let a = "\n  @"@ + w.name + "  "@ + w.role + "  ["@ + w.codebase_path + "]"@;
    let r = member_line(w);
    assert(a =~= r.subrange(0, a.len() as int));
    if 0 <= i < w.hands_off_to.len() {
        let all = lifecycle::at_names(w.hands_off_to);
        let list = text::joined(all, ", "@);
        text::joined_texts_are_held(all, ", "@, i);
        text::end_is_held(" \u{2192} "@, list);
        text::end_is_held(a, " \u{2192} "@ + list);
        text::held_through(r, " \u{2192} "@ + list, list);
        text::held_through(r, list, "@"@ + w.hands_off_to[i]);
    }
}

/// The first team of a name is the one.
pub proof fn the_first_team_counts(v: Seq<TeamSummary>, name: Seq<char>)
    ensures
        place_of(v, name) matches Some(i) ==> 0 <= i < v.len() && v[i].name@ == name && forall|
            k: int,
        |
            0 <= k < i ==> (#[trigger] v[k]).name@ != name,
        place_of(v, name) is None ==> forall|k: int|
            0 <= k < v.len() ==> (#[trigger] v[k]).name@ != name,
    decreases v.len(),
{
    if v.len() > 0 {
        let init = v.drop_last();
        the_first_team_counts(init, name);
        assert forall|k: int| 0 <= k < init.len() implies #[trigger] v[k] == init[k] by {}
        if let Some(i) = place_of(init, name) {
            assert(v[i] == init[i]);
        } else {
            assert forall|k: int| 0 <= k < init.len() implies (#[trigger] v[k]).name@ != name by {
                assert(init[k].name@ != name);
            }
        }
    }
}

/// A name collides exactly where somebody of the team has it; the first one is told of.
pub proof fn collisions_are_exact(
    a: Seq<init::WorkerModel>,
    b: Seq<init::WorkerModel>,
    x: init::WorkerModel,
    taken: Seq<team::WorkerModel>,
)
    ensures
        collision(a + b, taken) == (if collision(a, taken) is Some {
            collision(a, taken)
        } else {
            collision(b, taken)
        }),
        collision(seq![x], taken) == (if exists|i: int|
            0 <= i < taken.len() && (#[trigger] taken[i]).name == x.name {
            Some(x.name)
        } else {
            None
        }),
    decreases b.len(),
{
    let one = seq![x];
    assert(one.drop_last() =~= Seq::<init::WorkerModel>::empty());
    assert(collision(one.drop_last(), taken) is None);
    if b.len() == 0 {
        assert(a + b =~= a);
    } else {
        collisions_are_exact(a, b.drop_last(), x, taken);
        assert((a + b).drop_last() =~= a + b.drop_last());
        assert((a + b).last() == b.last());
    }
}

/// An adopted worker is the one it was, in the codebase it comes from.
pub proof fn adopted_workers_stay_themselves(w: init::WorkerModel, codebase: Seq<char>)
    ensures
        ({
            let a = adopted(w, codebase);
            &&& a.name == w.name && a.role == w.role && a.tasks == w.tasks
            &&& a.avatar == w.avatar && a.color == w.color
            &&& a.model == w.model && a.cli_template == w.cli_template
            &&& a.reports_to == w.reports_to && a.works_with == w.works_with
            &&& a.hands_off_to == w.hands_off_to && a.codebase_path == codebase
        }),
{
}

/// A new team takes its name from the codebase and its settings from the project; an existing one
/// keeps its own.
pub proof fn new_teams_take_after_the_project(
    existing: Option<team::ConfigModel>,
    p: init::ProjectModel,
    codebase: Seq<char>,
)
    ensures
        existing matches Some(c) ==> base_of(existing, p, codebase) == c,
        existing is None ==> {
            let c = base_of(existing, p, codebase);
            &&& paths::last_part(codebase) matches Some(n) ==> c.team == n
            &&& paths::last_part(codebase) is None ==> c.team == "team"@
            &&& c.server == p.server && c.shared_data_dir == p.shared_data_dir
            &&& c.cli_template == p.cli_template && c.model == p.model
            &&& c.workers.len() == 0
        },
{
}

/// An adoption succeeds exactly where no name collides and the team with its new workers is sound.
pub proof fn adoptions_are_exact(
    existing: Option<team::ConfigModel>,
    p: init::ProjectModel,
    codebase: Seq<char>,
)
    ensures
        adoption(existing, p, codebase) is Ok <==> collision(
            p.workers,
            base_of(existing, p, codebase).workers,
        ) is None && team::fault(merged(base_of(existing, p, codebase), p, codebase)) is None,
        adoption(existing, p, codebase) matches Ok(c) ==> c.workers == base_of(
            existing,
            p,
            codebase,
        ).workers + all_adopted(p.workers, codebase),
{
}

/// What is told of a new team holds its name, its identifier and its token.
pub proof fn created_teams_are_told(name: Seq<char>, id: Seq<char>, token: Seq<char>)
    ensures
        text::holds(created_text(name, id, token), name),
        text::holds(created_text(name, id, token), id),
        text::holds(created_text(name, id, token), token),
{
    let p0 = "Team '"@;
    let p1 = name;
    let p2 = "' created.\n\n  team_id: "@;
    let p3 = id;
    let p4 = "\n  token:   "@;
    let p5 = token;
    let p6 = CREATED_END@;
    text::end_is_held(p0, p1);
    text::held_with_more(p0 + p1, p2, p1);
    text::held_with_more(p0 + p1 + p2, p3, p1);
    text::held_with_more(p0 + p1 + p2 + p3, p4, p1);
    text::held_with_more(p0 + p1 + p2 + p3 + p4, p5, p1);
    text::held_with_more(p0 + p1 + p2 + p3 + p4 + p5, p6, p1);
    text::end_is_held(p0 + p1 + p2, p3);
    text::held_with_more(p0 + p1 + p2 + p3, p4, p3);
    text::held_with_more(p0 + p1 + p2 + p3 + p4, p5, p3);
    text::held_with_more(p0 + p1 + p2 + p3 + p4 + p5, p6, p3);
    text::end_is_held(p0 + p1 + p2 + p3 + p4, p5);
    text::held_with_more(p0 + p1 + p2 + p3 + p4 + p5, p6, p5);
}

/// What is told of a new token holds it, the team's name and its identifier.
pub proof fn rotated_tokens_are_told(name: Seq<char>, id: Seq<char>, token: Seq<char>)
    ensures
        text::holds(rotated_text(name, id, token), name),
        text::holds(rotated_text(name, id, token), token),
        text::holds(rotated_text(name, id, token), id),
{
    let p0 = "New token for team '"@;
    let p1 = name;
    let p2 = "':\n\n  "@;
    let p3 = token;
    let p4 = ROTATED_MIDDLE@;
    let p5 = id;
    let p6 = ROTATED_END@;
    text::end_is_held(p0, p1);
    text::held_with_more(p0 + p1, p2, p1);
    text::held_with_more(p0 + p1 + p2, p3, p1);
    text::held_with_more(p0 + p1 + p2 + p3, p4, p1);
    text::held_with_more(p0 + p1 + p2 + p3 + p4, p5, p1);
    text::held_with_more(p0 + p1 + p2 + p3 + p4 + p5, p6, p1);
    text::end_is_held(p0 + p1 + p2, p3);
    text::held_with_more(p0 + p1 + p2 + p3, p4, p3);
    text::held_with_more(p0 + p1 + p2 + p3 + p4, p5, p3);
    text::held_with_more(p0 + p1 + p2 + p3 + p4 + p5, p6, p3);
    text::end_is_held(p0 + p1 + p2 + p3 + p4, p5);
    text::held_with_more(p0 + p1 + p2 + p3 + p4 + p5, p6, p5);
}

/// What is told of a team holds its name, its identifier, since when it is and its tokens.
pub proof fn teams_are_told(t: TeamSummary)
    ensures
        text::holds(team_text(t), t.name@),
        text::holds(team_text(t), t.team_id@),
        text::holds(team_text(t), t.created_at@),
        text::holds(team_text(t), text::signed_decimal(t.active_token_count as int)),
{
    let p0 = "Team: "@;
    let p1 = t.name@;
    let p2 = "\n  id:               "@;
    let p3 = t.team_id@;
    let p4 = "\n  created_at:       "@;
    let p5 = t.created_at@;
    let p6 = "\n  active tokens:    "@;
    let p7 = text::signed_decimal(t.active_token_count as int);
    text::end_is_held(p0, p1);
    text::held_with_more(p0 + p1, p2, p1);
    text::held_with_more(p0 + p1 + p2, p3, p1);
    text::held_with_more(p0 + p1 + p2 + p3, p4, p1);
    text::held_with_more(p0 + p1 + p2 + p3 + p4, p5, p1);
    text::held_with_more(p0 + p1 + p2 + p3 + p4 + p5, p6, p1);
    text::held_with_more(p0 + p1 + p2 + p3 + p4 + p5 + p6, p7, p1);
    text::end_is_held(p0 + p1 + p2, p3);
    text::held_with_more(p0 + p1 + p2 + p3, p4, p3);
    text::held_with_more(p0 + p1 + p2 + p3 + p4, p5, p3);
    text::held_with_more(p0 + p1 + p2 + p3 + p4 + p5, p6, p3);
    text::held_with_more(p0 + p1 + p2 + p3 + p4 + p5 + p6, p7, p3);
    text::end_is_held(p0 + p1 + p2 + p3 + p4, p5);
    text::held_with_more(p0 + p1 + p2 + p3 + p4 + p5, p6, p5);
    text::held_with_more(p0 + p1 + p2 + p3 + p4 + p5 + p6, p7, p5);
    text::end_is_held(p0 + p1 + p2 + p3 + p4 + p5 + p6, p7);
}

/// Why a team was not created: each answer of the server has its own text.
pub proof fn failures_are_told_apart(code: u16, body: Seq<char>, name: Seq<char>)
    ensures
        code == 401 ==> creation_failure(code, body, name) == UNAUTHORIZED@,
        code == 403 ==> creation_failure(code, body, name) == FORBIDDEN@,
        code == 409 ==> text::holds(creation_failure(code, body, name), name),
        code != 401 && code != 403 && code != 409 ==> body.is_suffix_of(
            creation_failure(code, body, name),
        ) && text::holds(creation_failure(code, body, name), "HTTP "@ + text::decimal(code as nat)),
{
    let f = creation_failure(code, body, name);
    if code == 409 {
        text::middle_is_held("A team named '"@, name, "' already exists."@);
    } else if code != 401 && code != 403 {
        assert(body =~= f.subrange(f.len() - body.len(), f.len() as int));
        reveal_strlit("create team failed: HTTP ");
        reveal_strlit("create team failed: ");
        reveal_strlit("HTTP ");
        assert("create team failed: HTTP "@ =~= "create team failed: "@ + "HTTP "@);
        let p = "HTTP "@ + text::decimal(code as nat);
        let z = " \u{2014} "@ + body;
        text::middle_is_held("create team failed: "@, p, z);
        assert("create team failed: "@ + p + z =~= f);
    }
}

/// What is told of minting: the token's text, that the team is there already, or how to do it by
/// hand.
pub proof fn minting_is_told(team: Seq<char>, minted: Result<Seq<char>, Seq<char>>)
    ensures
        minted matches Ok(t) ==> mint_text(team, minted) == t,
        minted is Err ==> team.is_suffix_of(mint_text(team, minted)),
        minted matches Err(m) ==> !text::contains_text(m, "already exists"@) ==> text::holds(
            mint_text(team, minted),
            m,
        ),
{
    let r = mint_text(team, minted);
    if let Err(m) = minted {
        assert(team =~= r.subrange(r.len() - team.len(), r.len() as int));
        if !text::contains_text(m, "already exists"@) {
            let z = "\nMint manually once the server is reachable:\n    collab team create "@ + team;
            text::middle_is_held("Could not mint token automatically: "@, m, z);
            assert("Could not mint token automatically: "@ + m + z =~= r);
        }
    }
}

/// A list of teams ends with their rows; without teams the server is named.
pub proof fn lists_end_with_their_rows(v: Seq<TeamSummary>, server: Seq<char>)
    ensures
        v.len() == 0 ==> text::holds(team_list(v, server), server),
        v.len() > 0 ==> team_rows(v).is_suffix_of(team_list(v, server)),
        v.len() > 0 ==> text::padded_end("Name"@, 24).is_prefix_of(team_list(v, server)),
{
    let l = team_list(v, server);
    if v.len() == 0 {
        text::middle_is_held("No teams found on "@, server, "."@);
    } else {
        let r = team_rows(v);
        assert(r =~= l.subrange(l.len() - r.len(), l.len() as int));
        let n = text::padded_end("Name"@, 24);
        let h = list_head();
        assert(n =~= h.subrange(0, n.len() as int));
        assert(n =~= l.subrange(0, n.len() as int)) by {
            assert forall|i: int| 0 <= i < n.len() implies n[i] == l[i] by {
                assert(h.subrange(0, n.len() as int)[i] == h[i]);
                assert(l[i] == h[i]);
            }
        }
    }
}

} // verus!
