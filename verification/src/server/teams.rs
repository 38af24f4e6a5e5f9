//! Teams and their tokens.
use crate::clock::Timestamp;
use crate::server;
use crate::server::todos;
use crate::server::{AuthContext, Refusal};
use crate::sorting;
use crate::text;
use vstd::prelude::*;

verus! {

/// The team to be created.
pub struct CreateTeamRequest {
    pub name: String,
}

/// A team that was created, with its first token, which is shown this one time.
pub struct CreateTeamResponse {
    pub team_id: String,
    pub name: String,
    pub token: String,
}

/// A team as it is listed.
pub struct TeamInfo {
    pub team_id: String,
    pub name: String,
    pub created_at: Timestamp,
    pub active_token_count: usize,
}

/// A new token, with its first characters.
pub struct MintTokenResponse {
    pub token: String,
    pub token_prefix: String,
}

/// A row of the table of teams.
pub struct TeamRow {
    pub id: String,
    pub name: String,
    pub created_at: Timestamp,
}

/// A row of the table of tokens.
pub struct TokenRow {
    pub token_hash: String,
    pub team_id: String,
    pub created_at: Timestamp,
    pub revoked_at: Option<Timestamp>,
}

/// The model of a [`TeamRow`].
#[verifier::ext_equal]
pub struct TeamModel {
    pub id: Seq<char>,
    pub name: Seq<char>,
    pub created_at: Timestamp,
}

/// The model of a [`TokenRow`].
#[verifier::ext_equal]
pub struct TokenModel {
    pub hash: Seq<char>,
    pub team: Seq<char>,
    pub created_at: Timestamp,
    pub revoked_at: Option<Timestamp>,
}

/// The model of a [`TeamInfo`].
#[verifier::ext_equal]
pub struct InfoModel {
    pub id: Seq<char>,
    pub name: Seq<char>,
    pub created_at: Timestamp,
    pub active: nat,
}

impl View for TeamRow {
    type V = TeamModel;

    open spec fn view(&self) -> TeamModel {
        TeamModel { id: self.id@, name: self.name@, created_at: self.created_at }
    }
}

impl View for TokenRow {
    type V = TokenModel;

    open spec fn view(&self) -> TokenModel {
        TokenModel {
            hash: self.token_hash@,
            team: self.team_id@,
            created_at: self.created_at,
            revoked_at: self.revoked_at,
        }
    }
}

impl View for TeamInfo {
    type V = InfoModel;

    open spec fn view(&self) -> InfoModel {
        InfoModel {
            id: self.team_id@,
            name: self.name@,
            created_at: self.created_at,
            active: self.active_token_count as nat,
        }
    }
}

/// The models of the teams.
pub open spec fn team_models(v: Seq<TeamRow>) -> Seq<TeamModel> {
    Seq::new(v.len(), |i: int| v[i]@)
}

/// The models of the tokens.
pub open spec fn token_models(v: Seq<TokenRow>) -> Seq<TokenModel> {
    Seq::new(v.len(), |i: int| v[i]@)
}

/// The models of a listing.
pub open spec fn info_models(v: Seq<TeamInfo>) -> Seq<InfoModel> {
    Seq::new(v.len(), |i: int| v[i]@)
}

/// What the tables of teams and tokens hold.
#[verifier::ext_equal]
pub struct TeamsModel {
    pub teams: Seq<TeamModel>,
    pub tokens: Seq<TokenModel>,
}

impl TeamsModel {
    /// A team goes by this name or identifier.
    pub open spec fn takes(self, id: Seq<char>, name: Seq<char>) -> bool {
        exists|i: int|
            0 <= i < self.teams.len() && ((#[trigger] self.teams[i]).id == id || self.teams[i].name
                == name)
    }

    /// There is a team with this name.
    pub open spec fn has_name(self, name: Seq<char>) -> bool {
        exists|i: int| 0 <= i < self.teams.len() && (#[trigger] self.teams[i]).name == name
    }

    /// There is a team with this identifier.
    pub open spec fn has_team(self, id: Seq<char>) -> bool {
        exists|i: int| 0 <= i < self.teams.len() && (#[trigger] self.teams[i]).id == id
    }

    /// The hash is that of a token, revoked or not.
    pub open spec fn has_hash(self, hash: Seq<char>) -> bool {
        exists|i: int| 0 <= i < self.tokens.len() && (#[trigger] self.tokens[i]).hash == hash
    }

    /// No two tokens share a hash.
    pub open spec fn wf(self) -> bool {
        forall|i: int, j: int|
            0 <= i < j < self.tokens.len() ==> (#[trigger] self.tokens[i]).hash != (
            #[trigger] self.tokens[j]).hash
    }

    /// The team that a token stands for.
    pub open spec fn team_of(self, token: Seq<char>) -> Option<Seq<char>> {
        holder(self.tokens, server::token_hash(token))
    }

    /// With one more token.
    pub open spec fn with_token(self, team: Seq<char>, token: Seq<char>, now: Timestamp) -> TeamsModel {
        TeamsModel {
            tokens: self.tokens.push(
                TokenModel {
                    hash: server::token_hash(token),
                    team,
                    created_at: now,
                    revoked_at: None,
                },
            ),
            ..self
        }
    }

    /// With one more team.
    pub open spec fn with_team(self, id: Seq<char>, name: Seq<char>, now: Timestamp) -> TeamsModel {
        TeamsModel { teams: self.teams.push(TeamModel { id, name, created_at: now }), ..self }
    }

    /// With every token of a team revoked whose hash begins with `prefix`.
    pub open spec fn without(self, team: Seq<char>, prefix: Seq<char>, now: Timestamp) -> TeamsModel {
        TeamsModel {
            tokens: Seq::new(
                self.tokens.len(),
                |i: int|
                    if revocable(self.tokens[i], team, prefix) {
                        TokenModel { revoked_at: Some(now), ..self.tokens[i] }
                    } else {
                        self.tokens[i]
                    },
            ),
            ..self
        }
    }
}

/// The team of the first token with this hash that was not revoked.
pub open spec fn holder(tokens: Seq<TokenModel>, hash: Seq<char>) -> Option<Seq<char>>
    decreases tokens.len(),
{
    if tokens.len() == 0 {
        None
    } else if tokens[0].hash == hash && tokens[0].revoked_at is None {
        Some(tokens[0].team)
    } else {
        holder(tokens.drop_first(), hash)
    }
}

/// The token is a live one of the team, and its hash begins with `prefix`.
pub open spec fn revocable(t: TokenModel, team: Seq<char>, prefix: Seq<char>) -> bool {
    t.team == team && t.revoked_at is None && todos::begins_with(t.hash, prefix)
}

/// How many live tokens a team has.
pub open spec fn active(tokens: Seq<TokenModel>, team: Seq<char>) -> nat
    decreases tokens.len(),
{
    if tokens.len() == 0 {
        0
    } else {
        active(tokens.drop_last(), team) + if tokens.last().team == team
            && tokens.last().revoked_at is None {
            1nat
        } else {
            0nat
        }
    }
}

/// The teams with the number of their live tokens.
pub open spec fn infos(m: TeamsModel) -> Seq<InfoModel> {
    Seq::new(
        m.teams.len(),
        |i: int|
            InfoModel {
                id: m.teams[i].id,
                name: m.teams[i].name,
                created_at: m.teams[i].created_at,
                active: active(m.tokens, m.teams[i].id),
            },
    )
}

/// When the teams were created, as numbers.
pub open spec fn created(v: Seq<InfoModel>) -> Seq<int> {
    Seq::new(v.len(), |i: int| v[i].created_at.total())
}

/// What is asked when a team is to be created.
pub open spec fn creation(m: TeamsModel, by_team: bool, name: Seq<char>, id: Seq<char>, token: Seq<
    char,
>) -> Result<(), Refusal> {
    if by_team {
        Err(Refusal::Forbidden)
    } else if !server::team_name(name) {
        Err(Refusal::BadRequest)
    } else if m.takes(id, name) {
        Err(Refusal::Conflict)
    } else if m.has_hash(server::token_hash(token)) {
        Err(Refusal::Internal)
    } else {
        Ok(())
    }
}

/// What is asked when a team is to get one more token.
pub open spec fn minting(m: TeamsModel, by_team: bool, id: Seq<char>, token: Seq<char>) -> Result<
    (),
    Refusal,
> {
    if by_team {
        Err(Refusal::Forbidden)
    } else if !m.has_team(id) {
        Err(Refusal::NotFound)
    } else if m.has_hash(server::token_hash(token)) {
        Err(Refusal::Internal)
    } else {
        Ok(())
    }
}

/// What is asked when tokens are to be revoked.
pub open spec fn revoking(
    m: TeamsModel,
    by_team: bool,
    team: Seq<char>,
    prefix: Seq<char>,
) -> Result<
    (),
    Refusal,
> {
    if by_team {
        Err(Refusal::Forbidden)
    } else if !(8 <= text::byte_len(prefix) <= 64) || !todos::hex_chars(prefix) {
        Err(Refusal::BadRequest)
    } else if exists|i: int|
        0 <= i < m.tokens.len() && revocable(#[trigger] m.tokens[i], team, prefix) {
        Ok(())
    } else {
        Err(Refusal::NotFound)
    }
}

/// How many characters of a token are shown as its prefix.
pub const TOKEN_PREFIX_LEN: usize = 12;

/// The tables of teams and tokens.
pub struct Teams {
    pub teams: Vec<TeamRow>,
    pub tokens: Vec<TokenRow>,
}

impl View for Teams {
    type V = TeamsModel;

    open spec fn view(&self) -> TeamsModel {
        TeamsModel { teams: team_models(self.teams@), tokens: token_models(self.tokens@) }
    }
}

impl Teams {
    /// Tables without rows.
    pub fn new() -> (t: Teams)
        ensures
            t@ == (TeamsModel { teams: Seq::empty(), tokens: Seq::empty() }),
            t@.wf(),
    {
        let t = Teams { teams: Vec::new(), tokens: Vec::new() };
        assert(t@ =~= (TeamsModel { teams: Seq::empty(), tokens: Seq::empty() }));
        t
    }

    fn is_taken(&self, id: &str, name: &str) -> (r: bool)
        ensures
            r == self@.takes(id@, name@),
    {
        let mut i: usize = 0;
        while i < self.teams.len()
            invariant
                i <= self.teams@.len(),
                forall|k: int|
                    0 <= k < i ==> (#[trigger] self@.teams[k]).id != id@ && self@.teams[k].name
                        != name@,
            decreases self.teams@.len() - i,
        {
            assert(self@.teams[i as int] == self.teams@[i as int]@);
            if text::same(self.teams[i].id.as_str(), id) || text::same(
                self.teams[i].name.as_str(),
                name,
            ) {
                return true;
            }
            i += 1;
        }
        false
    }

    fn knows(&self, id: &str) -> (r: bool)
        ensures
            r == self@.has_team(id@),
    {
        let mut i: usize = 0;
        while i < self.teams.len()
            invariant
                i <= self.teams@.len(),
                forall|k: int| 0 <= k < i ==> (#[trigger] self@.teams[k]).id != id@,
            decreases self.teams@.len() - i,
        {
            assert(self@.teams[i as int] == self.teams@[i as int]@);
            if text::same(self.teams[i].id.as_str(), id) {
                return true;
            }
            i += 1;
        }
        false
    }

    fn keeps(&self, hash: &str) -> (r: bool)
        ensures
            r == self@.has_hash(hash@),
    {
        let mut i: usize = 0;
        while i < self.tokens.len()
            invariant
                i <= self.tokens@.len(),
                forall|k: int| 0 <= k < i ==> (#[trigger] self@.tokens[k]).hash != hash@,
            decreases self.tokens@.len() - i,
        {
            assert(self@.tokens[i as int] == self.tokens@[i as int]@);
            if text::same(self.tokens[i].token_hash.as_str(), hash) {
                return true;
            }
            i += 1;
        }
        false
    }

    fn add_token(&mut self, team: &str, token: &str, now: Timestamp)
        ensures
            final(self)@ == old(self)@.with_token(team@, token@, now),
    {
        let ghost before = self@;
        let row = TokenRow {
            token_hash: server::hash_token(token),
            team_id: team.to_owned(),
            created_at: now,
            revoked_at: None,
        };
        let ghost m = row@;
        self.tokens.push(row);
        assert(self@.tokens =~= before.tokens.push(m));
        assert(self@ =~= before.with_token(team@, token@, now));
    }

    /// Creates a team under the identifier `id` with the first token `token`.
    pub fn register(
        &mut self,
        auth: &AuthContext,
        payload: &CreateTeamRequest,
        now: Timestamp,
        id: &str,
        token: &str,
    ) -> (r: Result<CreateTeamResponse, Refusal>)
        ensures
            (match r {
                Ok(_) => Ok::<(), Refusal>(()),
                Err(e) => Err(e),
            }) == creation(old(self)@, auth.team_id is Some, payload.name@, id@, token@),
            r is Err ==> final(self)@ == old(self)@,
            r matches Ok(c) ==> final(self)@ == old(self)@.with_team(
                id@,
                payload.name@,
                now,
            ).with_token(id@, token@, now) && c.team_id@ == id@ && c.name@ == payload.name@
                && c.token@ == token@,
    {
        server::require_admin(auth)?;
        if !server::is_valid_team_name(payload.name.as_str()) {
            return Err(Refusal::BadRequest);
        }
        if self.is_taken(id, payload.name.as_str()) {
            return Err(Refusal::Conflict);
        }
        if self.keeps(server::hash_token(token).as_str()) {
            return Err(Refusal::Internal);
        }
        let ghost before = self@;
        let row = TeamRow { id: id.to_owned(), name: payload.name.clone(), created_at: now };
        let ghost m = row@;
        self.teams.push(row);
        assert(self@.teams =~= before.teams.push(m));
        assert(self@ =~= before.with_team(id@, payload.name@, now));
        self.add_token(id, token, now);
        Ok(
            CreateTeamResponse {
                team_id: id.to_owned(),
                name: payload.name.clone(),
                token: token.to_owned(),
            },
        )
    }

    /// Creates a team under a new random identifier, with a new random token. Chance decides no
    /// more than which of the two are drawn: a name that is taken is a conflict whatever they are,
    /// and where there is neither a team nor a token yet, nothing that is drawn is in the way.
    pub fn create_team(
        &mut self,
        auth: &AuthContext,
        payload: &CreateTeamRequest,
        now: Timestamp,
    ) -> (r: Result<CreateTeamResponse, Refusal>)
        ensures
            auth.team_id is Some <==> r == Err::<CreateTeamResponse, Refusal>(Refusal::Forbidden),
            auth.team_id is None && !server::team_name(payload.name@) <==> r == Err::<
                CreateTeamResponse,
                Refusal,
            >(Refusal::BadRequest),
            auth.team_id is None && server::team_name(payload.name@) && old(self)@.has_name(
                payload.name@,
            ) ==> r == Err::<CreateTeamResponse, Refusal>(Refusal::Conflict),
            auth.team_id is None && server::team_name(payload.name@) && old(self)@.teams.len() == 0
                && old(self)@.tokens.len() == 0 ==> r is Ok,
            r matches Err(e) ==> exists|id: Seq<char>, token: Seq<char>|
                server::drawn_id(id) && server::drawn_token(token) && #[trigger] creation(
                    old(self)@,
                    auth.team_id is Some,
                    payload.name@,
                    id,
                    token,
                ) == Err::<(), Refusal>(e),
            r is Err ==> final(self)@ == old(self)@,
            r matches Ok(c) ==> c.name@ == payload.name@ && server::drawn_id(c.team_id@)
                && server::drawn_token(c.token@) && creation(
                old(self)@,
                false,
                c.name@,
                c.team_id@,
                c.token@,
            ) is Ok && final(self)@ == old(self)@.with_team(c.team_id@, c.name@, now).with_token(
                c.team_id@,
                c.token@,
                now,
            ),
    {
        let id = server::new_id();
        let token = server::generate_token();
        proof {
            if self@.has_name(payload.name@) {
                let i = choose|i: int|
                    0 <= i < self@.teams.len() && (#[trigger] self@.teams[i]).name == payload.name@;
                assert(self@.takes(id@, payload.name@));
            }
        }
        self.register(auth, payload, now, id.as_str(), token.as_str())
    }

    /// Gives a team the token `token`.
    pub fn mint(&mut self, auth: &AuthContext, id: &str, now: Timestamp, token: &str) -> (r: Result<
        MintTokenResponse,
        Refusal,
    >)
        ensures
            (match r {
                Ok(_) => Ok::<(), Refusal>(()),
                Err(e) => Err(e),
            }) == minting(old(self)@, auth.team_id is Some, id@, token@),
            r is Err ==> final(self)@ == old(self)@,
            r matches Ok(m) ==> final(self)@ == old(self)@.with_token(id@, token@, now) && m.token@
                == token@ && m.token_prefix@ == (if token@.len() <= TOKEN_PREFIX_LEN {
                token@
            } else {
                token@.take(TOKEN_PREFIX_LEN as int)
            }),
    {
        server::require_admin(auth)?;
        if !self.knows(id) {
            return Err(Refusal::NotFound);
        }
        if self.keeps(server::hash_token(token).as_str()) {
            return Err(Refusal::Internal);
        }
        self.add_token(id, token, now);
        Ok(
            MintTokenResponse {
                token: token.to_owned(),
                token_prefix: text::clip_chars(token, TOKEN_PREFIX_LEN),
            },
        )
    }

    /// Gives a team a new random token. Chance decides no more than which one is drawn, and where
    /// there is no token yet, none that is drawn is in the way.
    pub fn mint_team_token(&mut self, auth: &AuthContext, id: &str, now: Timestamp) -> (r: Result<
        MintTokenResponse,
        Refusal,
    >)
        ensures
            auth.team_id is Some <==> r == Err::<MintTokenResponse, Refusal>(Refusal::Forbidden),
            auth.team_id is None && !old(self)@.has_team(id@) <==> r == Err::<
                MintTokenResponse,
                Refusal,
            >(Refusal::NotFound),
            auth.team_id is None && old(self)@.has_team(id@) && old(self)@.tokens.len() == 0
                ==> r is Ok,
            r matches Err(e) ==> exists|token: Seq<char>|
                server::drawn_token(token) && #[trigger] minting(
                    old(self)@,
                    auth.team_id is Some,
                    id@,
                    token,
                ) == Err::<(), Refusal>(e),
            r is Err ==> final(self)@ == old(self)@,
            r matches Ok(m) ==> server::drawn_token(m.token@) && minting(
                old(self)@,
                false,
                id@,
                m.token@,
            ) is Ok && final(self)@
                == old(self)@.with_token(id@, m.token@, now) && m.token_prefix@ == (
            if m.token@.len() <= TOKEN_PREFIX_LEN {
                m.token@
            } else {
                m.token@.take(TOKEN_PREFIX_LEN as int)
            }),
    {
        let token = server::generate_token();
        self.mint(auth, id, now, token.as_str())
    }

    /// Revokes the live tokens of a team whose hash begins with `prefix`.
    pub fn revoke_team_token(
        &mut self,
        auth: &AuthContext,
        team: &str,
        prefix: &str,
        now: Timestamp,
    ) -> (r: Result<(), Refusal>)
        ensures
            r == revoking(old(self)@, auth.team_id is Some, team@, prefix@),
            final(self)@ == (if r is Ok {
                old(self)@.without(team@, prefix@, now)
            } else {
                old(self)@
            }),
    {
        server::require_admin(auth)?;
        let n = text::bytes_in(prefix);
        if n < 8 || n > 64 || !todos::all_hex(prefix) {
            return Err(Refusal::BadRequest);
        }
        let ghost before = self.tokens@;
        let ghost model = self@;
        let ghost want = model.without(team@, prefix@, now).tokens;
        let mut any = false;
        let mut i: usize = 0;
        while i < self.tokens.len()
            invariant
                i <= self.tokens@.len(),
                self.tokens@.len() == before.len(),
                self.teams == old(self).teams,
                model.tokens == token_models(before),
                want == model.without(team@, prefix@, now).tokens,
                any ==> exists|k: int|
                    0 <= k < model.tokens.len() && revocable(
                        #[trigger] model.tokens[k],
                        team@,
                        prefix@,
                    ),
                !any ==> forall|k: int|
                    0 <= k < i ==> !revocable(#[trigger] model.tokens[k], team@, prefix@),
                forall|k: int| 0 <= k < i ==> (#[trigger] self.tokens@[k])@ == want[k],
                forall|k: int| i <= k < before.len() ==> #[trigger] self.tokens@[k] == before[k],
            decreases self.tokens@.len() - i,
        {
            assert(self.tokens@[i as int] == before[i as int]);
            assert(model.tokens[i as int] == before[i as int]@);
            if text::same(self.tokens[i].team_id.as_str(), team)
                && self.tokens[i].revoked_at.is_none() && todos::has_prefix(
                self.tokens[i].token_hash.as_str(),
                prefix,
            ) {
                assert(revocable(model.tokens[i as int], team@, prefix@));
                any = true;
                self.tokens[i].revoked_at = Some(now);
                assert(self.tokens@[i as int]@ =~= want[i as int]);
            }
            i += 1;
        }
        assert(self@.tokens =~= want);
        assert(self@.teams =~= model.teams);
        if any {
            Ok(())
        } else {
            assert(want =~= model.tokens);
            assert(self@ =~= model);
            Err(Refusal::NotFound)
        }
    }

    fn count_active(&self, team: &str) -> (n: usize)
        ensures
            n == active(self@.tokens, team@),
    {
        let ghost all = self@.tokens;
        let mut n: usize = 0;
        let mut i: usize = 0;
        assert(all.take(0) =~= Seq::<TokenModel>::empty());
        while i < self.tokens.len()
            invariant
                i <= self.tokens.len(),
                n <= i,
                all == self@.tokens,
                n == active(all.take(i as int), team@),
            decreases self.tokens@.len() - i,
        {
            assert(all.take(i + 1).drop_last() =~= all.take(i as int));
            assert(all.take(i + 1).last() == self.tokens@[i as int]@);
            if text::same(self.tokens[i].team_id.as_str(), team)
                && self.tokens[i].revoked_at.is_none() {
                n += 1;
            }
            i += 1;
        }
        assert(all.take(i as int) =~= all);
        n
    }

    /// The teams, the oldest first.
    pub fn list_teams(&self, auth: &AuthContext) -> (r: Result<Vec<TeamInfo>, Refusal>)
        ensures
            r is Ok == (auth.team_id is None),
            r matches Err(e) ==> e == Refusal::Forbidden,
            r matches Ok(v) ==> info_models(v@) == sorting::arranged(
                infos(self@),
                created(infos(self@)),
                false,
            ),
    {
        server::require_admin(auth)?;
        let ghost ms = infos(self@);
        let mut keys: Vec<i128> = Vec::new();
        let mut i: usize = 0;
        while i < self.teams.len()
            invariant
                i <= self.teams@.len(),
                ms == infos(self@),
                keys@.len() == i,
                forall|k: int| 0 <= k < i ==> #[trigger] keys@[k] == ms[k].created_at.total(),
            decreases self.teams@.len() - i,
        {
            keys.push(self.teams[i].created_at.nanoseconds());
            i += 1;
        }
        assert(sorting::key_model(keys@) =~= created(ms));
        let order = sorting::order_by(&keys, false);
        let ghost o = sorting::ordering(created(ms), ms.len(), false);
        let mut r: Vec<TeamInfo> = Vec::new();
        let mut j: usize = 0;
        while j < order.len()
            invariant
                j <= order@.len(),
                ms == infos(self@),
                o == sorting::index_model(order@),
                forall|k: int| 0 <= k < order@.len() ==> #[trigger] order@[k] < self.teams@.len(),
                r@.len() == j,
                forall|k: int| 0 <= k < j ==> (#[trigger] r@[k])@ == ms[o[k]],
            decreases order@.len() - j,
        {
            assert(o[j as int] == order@[j as int]);
            let t = &self.teams[order[j]];
            let info = TeamInfo {
                team_id: t.id.clone(),
                name: t.name.clone(),
                created_at: t.created_at,
                active_token_count: self.count_active(t.id.as_str()),
            };
            assert(info@ =~= ms[o[j as int]]);
            r.push(info);
            j += 1;
        }
        assert(info_models(r@) =~= sorting::arranged(ms, created(ms), false));
        Ok(r)
    }

    /// The team that a token stands for; a token that was revoked stands for none.
    pub fn lookup_team_by_token(&self, token: &str) -> (r: Option<String>)
        ensures
            text::opt_text(r) == self@.team_of(token@),
    {
        let hash = server::hash_token(token);
        let ghost all = self@.tokens;
        let mut i: usize = 0;
        assert(all.skip(0) =~= all);
        while i < self.tokens.len()
            invariant
                i <= self.tokens@.len(),
                all == self@.tokens,
                hash@ == server::token_hash(token@),
                self@.team_of(token@) == holder(all.skip(i as int), hash@),
            decreases self.tokens@.len() - i,
        {
            assert(all.skip(i as int).drop_first() =~= all.skip(i + 1));
            assert(all.skip(i as int)[0] == self.tokens@[i as int]@);
            if text::same(self.tokens[i].token_hash.as_str(), hash.as_str())
                && self.tokens[i].revoked_at.is_none() {
                return Some(self.tokens[i].team_id.clone());
            }
            i += 1;
        }
        None
    }

    /// As whom a request runs that presents `provided`.
    pub fn authenticate(&self, expected: &Option<String>, provided: &Option<String>) -> (r: Result<
        AuthContext,
        Refusal,
    >)
        ensures
            (match r {
                Ok(a) => Ok(text::opt_text(a.team_id)),
                Err(e) => Err(e),
            }) == server::admitted(
                match text::opt_text(*provided) {
                    Some(p) => self@.team_of(p),
                    None => None,
                },
                text::opt_text(*expected),
                text::opt_text(*provided),
            ),
    {
        let team = match provided {
            Some(p) => self.lookup_team_by_token(p.as_str()),
            None => None,
        };
        server::authenticate(team, expected, provided)
    }
}

// ── Laws ────────────────────────────────────────────────────────────────────
proof fn holder_meaning(tokens: Seq<TokenModel>, hash: Seq<char>)
    ensures
        (holder(tokens, hash) is None) <==> forall|i: int|
            0 <= i < tokens.len() ==> (#[trigger] tokens[i]).hash != hash || tokens[i].revoked_at
                is Some,
    decreases tokens.len(),
{
    if tokens.len() > 0 {
        let rest = tokens.drop_first();
        holder_meaning(rest, hash);
        if holder(tokens, hash) is None {
            assert forall|i: int| 0 <= i < tokens.len() implies (#[trigger] tokens[i]).hash != hash
                || tokens[i].revoked_at is Some by {
                if i > 0 {
                    assert(tokens[i] == rest[i - 1]);
                }
            }
        } else if !(tokens[0].hash == hash && tokens[0].revoked_at is None) {
            let i = choose|i: int|
                0 <= i < rest.len() && (#[trigger] rest[i]).hash == hash && rest[i].revoked_at
                    is None;
            assert(tokens[i + 1] == rest[i]);
        }
    }
}

proof fn holder_of_new(tokens: Seq<TokenModel>, t: TokenModel)
    requires
        t.revoked_at is None,
        forall|i: int| 0 <= i < tokens.len() ==> (#[trigger] tokens[i]).hash != t.hash,
    ensures
        holder(tokens.push(t), t.hash) == Some(t.team),
    decreases tokens.len(),
{
    let all = tokens.push(t);
    if tokens.len() > 0 {
        let rest = tokens.drop_first();
        assert forall|i: int| 0 <= i < rest.len() implies (#[trigger] rest[i]).hash != t.hash by {
            assert(rest[i] == tokens[i + 1]);
        }
        holder_of_new(rest, t);
        assert(all.drop_first() =~= rest.push(t));
        assert(all[0] == tokens[0]);
    } else {
        assert(all[0] == t);
    }
}

/// A token that was just given to a team stands for that team.
pub proof fn new_tokens_count(m: TeamsModel, team: Seq<char>, token: Seq<char>, now: Timestamp)
    requires
        !m.has_hash(server::token_hash(token)),
    ensures
        m.with_token(team, token, now).team_of(token) == Some(team),
{
    holder_of_new(
        m.tokens,
        TokenModel { hash: server::token_hash(token), team, created_at: now, revoked_at: None },
    );
}

/// A token of another team, or an older one of the same team, stands for what it stood for.
pub proof fn new_tokens_change_no_other(
    m: TeamsModel,
    team: Seq<char>,
    token: Seq<char>,
    now: Timestamp,
    other: Seq<char>,
)
    requires
        server::token_hash(other) != server::token_hash(token),
    ensures
        m.with_token(team, token, now).team_of(other) == m.team_of(other),
{
    holder_is_local(
        m.tokens,
        TokenModel { hash: server::token_hash(token), team, created_at: now, revoked_at: None },
        server::token_hash(other),
    );
}

proof fn holder_is_local(tokens: Seq<TokenModel>, t: TokenModel, hash: Seq<char>)
    requires
        t.hash != hash,
    ensures
        holder(tokens.push(t), hash) == holder(tokens, hash),
    decreases tokens.len(),
{
    let all = tokens.push(t);
    if tokens.len() > 0 {
        holder_is_local(tokens.drop_first(), t, hash);
        assert(all.drop_first() =~= tokens.drop_first().push(t));
        assert(all[0] == tokens[0]);
    } else {
        assert(all[0] == t);
        assert(all.drop_first() =~= tokens);
    }
}

/// A token that was revoked stands for no team, so that it admits nobody as one.
pub proof fn revoked_tokens_do_not_count(
    m: TeamsModel,
    team: Seq<char>,
    prefix: Seq<char>,
    now: Timestamp,
    token: Seq<char>,
)
    requires
        m.wf(),
        m.team_of(token) == Some(team),
        todos::begins_with(server::token_hash(token), prefix),
    ensures
        m.without(team, prefix, now).team_of(token) is None,
{
    let hash = server::token_hash(token);
    let after = m.without(team, prefix, now).tokens;
    holder_is_somewhere(m.tokens, hash);
    let k = choose|k: int|
        0 <= k < m.tokens.len() && (#[trigger] m.tokens[k]).hash == hash && m.tokens[k].team
            == team;
    holder_meaning(after, hash);
    assert forall|i: int| 0 <= i < after.len() implies (#[trigger] after[i]).hash != hash
        || after[i].revoked_at is Some by {
        if m.tokens[i].hash == hash {
            if i < k {
                assert(m.tokens[i].hash != m.tokens[k].hash);
            }
            if k < i {
                assert(m.tokens[k].hash != m.tokens[i].hash);
            }
        }
    }
}

proof fn holder_is_somewhere(tokens: Seq<TokenModel>, hash: Seq<char>)
    requires
        holder(tokens, hash) is Some,
    ensures
        exists|k: int|
            0 <= k < tokens.len() && (#[trigger] tokens[k]).hash == hash && tokens[k].team
                == holder(tokens, hash)->0,
    decreases tokens.len(),
{
    if !(tokens[0].hash == hash && tokens[0].revoked_at is None) {
        let rest = tokens.drop_first();
        holder_is_somewhere(rest, hash);
        let k = choose|k: int|
            0 <= k < rest.len() && (#[trigger] rest[k]).hash == hash && rest[k].team == holder(
                rest,
                hash,
            )->0;
        assert(tokens[k + 1] == rest[k]);
    }
}

/// Creating teams, minting and revoking never give two tokens the same hash.
pub proof fn hashes_stay_distinct(
    m: TeamsModel,
    id: Seq<char>,
    name: Seq<char>,
    token: Seq<char>,
    prefix: Seq<char>,
    now: Timestamp,
)
    requires
        m.wf(),
    ensures
        !m.has_hash(server::token_hash(token)) ==> m.with_token(id, token, now).wf(),
        m.with_team(id, name, now).wf(),
        m.without(id, prefix, now).wf(),
{
    let a = m.with_token(id, token, now);
    if !m.has_hash(server::token_hash(token)) {
        assert forall|i: int, j: int| 0 <= i < j < a.tokens.len() implies (
        #[trigger] a.tokens[i]).hash != (#[trigger] a.tokens[j]).hash by {
            assert(a.tokens[i] == m.tokens[i]);
            if j < m.tokens.len() {
                assert(a.tokens[j] == m.tokens[j]);
            }
        }
    }
    let b = m.without(id, prefix, now);
    assert forall|i: int, j: int| 0 <= i < j < b.tokens.len() implies (#[trigger] b.tokens[i]).hash
        != (#[trigger] b.tokens[j]).hash by {
        assert(m.tokens[i].hash != m.tokens[j].hash);
    }
}

/// Nobody who presents a team's token may administer teams.
pub proof fn team_tokens_are_no_admins(
    m: TeamsModel,
    name: Seq<char>,
    id: Seq<char>,
    token: Seq<char>,
    prefix: Seq<char>,
)
    ensures
        creation(m, true, name, id, token) == Err::<(), Refusal>(Refusal::Forbidden),
        minting(m, true, id, token) == Err::<(), Refusal>(Refusal::Forbidden),
        revoking(m, true, id, prefix) == Err::<(), Refusal>(Refusal::Forbidden),
{
}

/// A name can be given to one team only.
pub proof fn names_are_given_once(
    m: TeamsModel,
    name: Seq<char>,
    id: Seq<char>,
    now: Timestamp,
    other: Seq<char>,
    token: Seq<char>,
)
    requires
        server::team_name(name),
    ensures
        creation(m.with_team(id, name, now), false, name, other, token) == Err::<(), Refusal>(
            Refusal::Conflict,
        ),
{
    let a = m.with_team(id, name, now);
    assert(a.teams[m.teams.len() as int].name == name);
}

/// A hash stands for the team of the first token with it that is not revoked.
pub proof fn the_first_token_counts(
    a: Seq<TokenModel>,
    b: Seq<TokenModel>,
    x: TokenModel,
    hash: Seq<char>,
)
    ensures
        holder(a + b, hash) == (if holder(a, hash) is Some {
            holder(a, hash)
        } else {
            holder(b, hash)
        }),
        holder(seq![x], hash) == (if x.hash == hash && x.revoked_at is None {
            Some(x.team)
        } else {
            None
        }),
    decreases a.len(),
{
    let one = seq![x];
    assert(one.drop_first() =~= Seq::<TokenModel>::empty());
    assert(holder(one.drop_first(), hash) is None);
    if a.len() == 0 {
        assert(a + b =~= b);
    } else {
        the_first_token_counts(a.drop_first(), b, x, hash);
        assert((a + b).drop_first() =~= a.drop_first() + b);
        assert((a + b)[0] == a[0]);
    }
}

/// A token counts as active exactly where it is of the team and was not revoked.
pub proof fn each_token_counts_once(
    a: Seq<TokenModel>,
    b: Seq<TokenModel>,
    x: TokenModel,
    team: Seq<char>,
)
    ensures
        active(a + b, team) == active(a, team) + active(b, team),
        active(seq![x], team) == (if x.team == team && x.revoked_at is None {
            1nat
        } else {
            0nat
        }),
    decreases b.len(),
{
    let one = seq![x];
    assert(one.drop_last() =~= Seq::<TokenModel>::empty());
    assert(active(one.drop_last(), team) == 0);
    if b.len() == 0 {
        assert(a + b =~= a);
    } else {
        each_token_counts_once(a, b.drop_last(), x, team);
        assert((a + b).drop_last() =~= a + b.drop_last());
        assert((a + b).last() == b.last());
    }
}

/// What creating a team answers: a team may not do it; the name has to be one to 64 characters of a
/// name; neither name nor identifier may be taken; the token has to be new.
pub proof fn creation_is_exact(
    m: TeamsModel,
    by_team: bool,
    name: Seq<char>,
    id: Seq<char>,
    token: Seq<char>,
)
    ensures
        ({
            let r = creation(m, by_team, name, id, token);
            let proper = 1 <= name.len() <= 64 && server::name_chars(name);
            let taken = exists|i: int|
                0 <= i < m.teams.len() && ((#[trigger] m.teams[i]).id == id || m.teams[i].name
                    == name);
            let known = exists|i: int|
                0 <= i < m.tokens.len() && (#[trigger] m.tokens[i]).hash == server::token_hash(
                    token,
                );
            &&& r == Err::<(), Refusal>(Refusal::Forbidden) <==> by_team
            &&& r == Err::<(), Refusal>(Refusal::BadRequest) <==> !by_team && !proper
            &&& r == Err::<(), Refusal>(Refusal::Conflict) <==> !by_team && proper && taken
            &&& r == Err::<(), Refusal>(Refusal::Internal) <==> !by_team && proper && !taken && known
            &&& r is Ok <==> !by_team && proper && !taken && !known
        }),
{
}

/// What minting a token answers: a team may not do it, the team has to exist, the token has to be
/// new.
pub proof fn minting_is_exact(m: TeamsModel, by_team: bool, id: Seq<char>, token: Seq<char>)
    ensures
        ({
            let r = minting(m, by_team, id, token);
            let there = exists|i: int| 0 <= i < m.teams.len() && (#[trigger] m.teams[i]).id == id;
            let known = exists|i: int|
                0 <= i < m.tokens.len() && (#[trigger] m.tokens[i]).hash == server::token_hash(
                    token,
                );
            &&& r == Err::<(), Refusal>(Refusal::Forbidden) <==> by_team
            &&& r == Err::<(), Refusal>(Refusal::NotFound) <==> !by_team && !there
            &&& r == Err::<(), Refusal>(Refusal::Internal) <==> !by_team && there && known
            &&& r is Ok <==> !by_team && there && !known
            &&& TOKEN_PREFIX_LEN == 12
        }),
{
}

/// What revoking answers: a team may not do it, the beginning of a hash has eight to 64 hexadecimal
/// digits, and some active token of the team has to have it.
pub proof fn revoking_is_exact(m: TeamsModel, by_team: bool, team: Seq<char>, prefix: Seq<char>)
    ensures
        ({
            let r = revoking(m, by_team, team, prefix);
            let proper = 8 <= text::byte_len(prefix) <= 64 && todos::hex_chars(prefix);
            let there = exists|i: int|
                0 <= i < m.tokens.len() && (#[trigger] m.tokens[i]).team == team
                    && m.tokens[i].revoked_at is None && todos::begins_with(
                    m.tokens[i].hash,
                    prefix,
                );
            &&& r == Err::<(), Refusal>(Refusal::Forbidden) <==> by_team
            &&& r == Err::<(), Refusal>(Refusal::BadRequest) <==> !by_team && !proper
            &&& r == Err::<(), Refusal>(Refusal::NotFound) <==> !by_team && proper && !there
            &&& r is Ok <==> !by_team && proper && there
        }),
{
    if exists|i: int|
        0 <= i < m.tokens.len() && (#[trigger] m.tokens[i]).team == team && m.tokens[i].revoked_at
            is None && todos::begins_with(m.tokens[i].hash, prefix) {
        let i = choose|i: int|
            0 <= i < m.tokens.len() && (#[trigger] m.tokens[i]).team == team
                && m.tokens[i].revoked_at is None && todos::begins_with(m.tokens[i].hash, prefix);
        assert(revocable(m.tokens[i], team, prefix));
    }
}

/// Revoking stamps exactly the active tokens of the team whose hash begins as said, and changes
/// nothing else.
pub proof fn revocation_is_exact(
    m: TeamsModel,
    team: Seq<char>,
    prefix: Seq<char>,
    now: Timestamp,
    i: int,
)
    requires
        0 <= i < m.tokens.len(),
    ensures
        ({
            let r = m.without(team, prefix, now);
            let meant = m.tokens[i].team == team && m.tokens[i].revoked_at is None
                && todos::begins_with(m.tokens[i].hash, prefix);
            &&& r.teams == m.teams
            &&& r.tokens.len() == m.tokens.len()
            &&& r.tokens[i].revoked_at == (if meant {
                Some(now)
            } else {
                m.tokens[i].revoked_at
            })
            &&& r.tokens[i] == (TokenModel { revoked_at: r.tokens[i].revoked_at, ..m.tokens[i] })
        }),
{
}

/// A new team stands behind the others under its name, and a new token behind the others under its
/// digest, active, for its team.
pub proof fn additions_are_exact(
    m: TeamsModel,
    id: Seq<char>,
    name: Seq<char>,
    token: Seq<char>,
    now: Timestamp,
)
    ensures
        ({
            let a = m.with_team(id, name, now);
            let b = m.with_token(id, token, now);
            &&& a.tokens == m.tokens && b.teams == m.teams
            &&& a.teams.drop_last() == m.teams && b.tokens.drop_last() == m.tokens
            &&& a.teams.last().id == id && a.teams.last().name == name
            &&& a.teams.last().created_at == now
            &&& b.tokens.last().team == id && b.tokens.last().revoked_at is None
            &&& b.tokens.last().created_at == now
            &&& b.tokens.last().hash == server::hex(
                crate::outside::sha256_of(vstd::utf8::encode_utf8(token)),
            )
        }),
{
    assert(m.with_team(id, name, now).teams.drop_last() =~= m.teams);
    assert(m.with_token(id, token, now).tokens.drop_last() =~= m.tokens);
}

/// Every team is listed with its active tokens, the oldest first.
pub proof fn listings_are_complete(m: TeamsModel, i: int, j: int)
    requires
        0 <= i < m.teams.len(),
    ensures
        ({
            let v = sorting::arranged(infos(m), created(infos(m)), false);
            &&& v.len() == m.teams.len()
            &&& v.contains(
                InfoModel {
                    id: m.teams[i].id,
                    name: m.teams[i].name,
                    created_at: m.teams[i].created_at,
                    active: active(m.tokens, m.teams[i].id),
                },
            )
            &&& i < j < m.teams.len() ==> v[i].created_at.total() <= v[j].created_at.total()
        }),
{
    let s = infos(m);
    sorting::arranged_keeps(s, created(s), false, s[i]);
    assert(s.contains(s[i]));
    if i < j < m.teams.len() {
        sorting::arranged_is_sorted(s, created(s), false, i, j);
    }
}

} // verus!
