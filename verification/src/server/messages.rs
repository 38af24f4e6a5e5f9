//! The table of messages.
use crate::clock;
use crate::clock::Timestamp;
use crate::server;
use crate::server::Refusal;
use crate::sorting;
use crate::text;
use vstd::prelude::*;

verus! {

// ── Types ───────────────────────────────────────────────────────────────────
/// A message to be sent.
pub struct MessageCreate {
    pub sender: String,
    pub recipient: String,
    pub content: String,
    pub refs: Vec<String>,
}

/// A message as it is handed out.
pub struct Message {
    pub id: String,
    pub hash: String,
    pub sender: String,
    pub recipient: String,
    pub content: String,
    pub refs: Vec<String>,
    pub timestamp: Timestamp,
    pub read_at: Option<Timestamp>,
}

/// A row of the table. The hashes that a message refers to stand in one field, with commas
/// between.
pub struct MessageRow {
    pub id: String,
    pub hash: String,
    pub sender: String,
    pub recipient: String,
    pub content: String,
    pub refs: String,
    pub timestamp: Timestamp,
    pub read_at: Option<Timestamp>,
    pub team_id: Option<String>,
}

/// The model of a [`Message`].
#[verifier::ext_equal]
pub struct MessageModel {
    pub id: Seq<char>,
    pub hash: Seq<char>,
    pub sender: Seq<char>,
    pub recipient: Seq<char>,
    pub content: Seq<char>,
    pub refs: Seq<Seq<char>>,
    pub timestamp: Timestamp,
    pub read_at: Option<Timestamp>,
}

/// The model of a [`MessageRow`].
#[verifier::ext_equal]
pub struct RowModel {
    pub id: Seq<char>,
    pub hash: Seq<char>,
    pub sender: Seq<char>,
    pub recipient: Seq<char>,
    pub content: Seq<char>,
    pub refs: Seq<char>,
    pub timestamp: Timestamp,
    pub read_at: Option<Timestamp>,
    pub team: Option<Seq<char>>,
}

impl View for Message {
    type V = MessageModel;

    open spec fn view(&self) -> MessageModel {
        MessageModel {
            id: self.id@,
            hash: self.hash@,
            sender: self.sender@,
            recipient: self.recipient@,
            content: self.content@,
            refs: text::texts(self.refs@),
            timestamp: self.timestamp,
            read_at: self.read_at,
        }
    }
}

impl View for MessageRow {
    type V = RowModel;

    open spec fn view(&self) -> RowModel {
        RowModel {
            id: self.id@,
            hash: self.hash@,
            sender: self.sender@,
            recipient: self.recipient@,
            content: self.content@,
            refs: self.refs@,
            timestamp: self.timestamp,
            read_at: self.read_at,
            team: text::opt_text(self.team_id),
        }
    }
}

/// The models of a list of messages.
pub open spec fn message_models(v: Seq<Message>) -> Seq<MessageModel> {
    Seq::new(v.len(), |i: int| v[i]@)
}

/// The models of the rows.
pub open spec fn row_models(v: Seq<MessageRow>) -> Seq<RowModel> {
    Seq::new(v.len(), |i: int| v[i]@)
}

// ── References ──────────────────────────────────────────────────────────────
/// The hashes that a field of references holds.
pub open spec fn refs_in(field: Seq<char>) -> Seq<Seq<char>> {
    if field.len() == 0 {
        Seq::empty()
    } else {
        text::pieces(field, ',')
    }
}

fn split_refs(field: &str) -> (r: Vec<String>)
    ensures
        text::texts(r@) == refs_in(field@),
{
    if field.is_empty() {
        let r: Vec<String> = Vec::new();
        assert(text::texts(r@) =~= Seq::<Seq<char>>::empty());
        r
    } else {
        text::split(field, ',')
    }
}

/// The message that a row holds.
pub open spec fn message_of(r: RowModel) -> MessageModel {
    MessageModel {
        id: r.id,
        hash: r.hash,
        sender: r.sender,
        recipient: r.recipient,
        content: r.content,
        refs: refs_in(r.refs),
        timestamp: r.timestamp,
        read_at: r.read_at,
    }
}

fn message_from_row(r: &MessageRow) -> (m: Message)
    ensures
        m@ == message_of(r@),
{
    let m = Message {
        id: r.id.clone(),
        hash: r.hash.clone(),
        sender: r.sender.clone(),
        recipient: r.recipient.clone(),
        content: r.content.clone(),
        refs: split_refs(r.refs.as_str()),
        timestamp: r.timestamp,
        read_at: r.read_at,
    };
    assert(m@ =~= message_of(r@));
    m
}

/// A copy of a message.
pub fn copy_message(m: &Message) -> (r: Message)
    ensures
        r@ == m@,
{
    let r = Message {
        id: m.id.clone(),
        hash: m.hash.clone(),
        sender: m.sender.clone(),
        recipient: m.recipient.clone(),
        content: m.content.clone(),
        refs: text::copy_list(&m.refs),
        timestamp: m.timestamp,
        read_at: m.read_at,
    };
    assert(r@ =~= m@);
    r
}

/// Hashes without commas come back as they were stored, except for a single empty one, which
/// cannot be told from none.
pub proof fn refs_come_back(refs: Seq<Seq<char>>)
    requires
        forall|i: int, j: int|
            0 <= i < refs.len() && 0 <= j < refs[i].len() ==> #[trigger] refs[i][j] != ',',
        !(refs.len() == 1 && refs[0].len() == 0),
    ensures
        refs_in(text::joined(refs, ","@)) == refs,
{
    reveal_strlit(",");
    assert(","@ =~= seq![',']);
    if refs.len() == 0 {
        assert(refs =~= Seq::<Seq<char>>::empty());
    } else {
        pieces_of_joined(refs);
        if text::joined(refs, seq![',']).len() == 0 {
            if refs.len() > 1 {
                assert(text::joined(refs, seq![',']).len() > 0);
            }
        }
    }
}

/// A string without `c` followed by `c` and a tail is cut there.
proof fn first_comma(a: Seq<char>, b: Seq<char>)
    requires
        forall|j: int| 0 <= j < a.len() ==> a[j] != ',',
    ensures
        text::char_at(a + seq![','] + b, ',') == Some(a.len() as int),
{
    let s = a + seq![','] + b;
    text::char_at_meaning(s, ',');
    assert(s[a.len() as int] == ',');
    let k = text::char_at(s, ',')->0;
    if k < a.len() {
        assert(s[k] == a[k]);
    }
}

/// Joining behind the first string.
proof fn joined_from_front(refs: Seq<Seq<char>>)
    requires
        refs.len() >= 2,
    ensures
        text::joined(refs, seq![',']) == refs[0] + seq![','] + text::joined(
            refs.drop_first(),
            seq![','],
        ),
    decreases refs.len(),
{
    let sep = seq![','];
    if refs.len() == 2 {
        assert(refs.drop_last() =~= seq![refs[0]]);
        assert(refs.drop_first() =~= seq![refs[1]]);
        assert(text::joined(seq![refs[0]], sep) == refs[0]);
    } else {
        let init = refs.drop_last();
        joined_from_front(init);
        assert(refs.drop_first().drop_last() =~= init.drop_first());
        assert(refs.drop_first().last() == refs.last());
        assert(text::joined(refs, sep) =~= refs[0] + sep + text::joined(refs.drop_first(), sep));
    }
}

proof fn pieces_of_joined(refs: Seq<Seq<char>>)
    requires
        refs.len() > 0,
        forall|i: int, j: int|
            0 <= i < refs.len() && 0 <= j < refs[i].len() ==> #[trigger] refs[i][j] != ',',
    ensures
        text::pieces(text::joined(refs, seq![',']), ',') == refs,
    decreases refs.len(),
{
    let sep = seq![','];
    let s = text::joined(refs, sep);
    if refs.len() == 1 {
        assert forall|j: int| 0 <= j < s.len() implies s[j] != ',' by {
            assert(refs[0][j] != ',');
        }
        text::char_at_meaning(s, ',');
        assert(refs =~= seq![s]);
    } else {
        let rest = refs.drop_first();
        joined_from_front(refs);
        let tail = text::joined(rest, sep);
        assert forall|j: int| 0 <= j < refs[0].len() implies refs[0][j] != ',' by {}
        first_comma(refs[0], tail);
        let k = refs[0].len() as int;
        assert(s.take(k) =~= refs[0]);
        assert(s.skip(k + 1) =~= tail);
        assert forall|i: int, j: int|
            0 <= i < rest.len() && 0 <= j < rest[i].len() implies #[trigger] rest[i][j] != ',' by {
            assert(refs[i + 1][j] != ',');
        }
        pieces_of_joined(rest);
        assert(seq![refs[0]] + rest =~= refs);
    }
}

// ── Sending ─────────────────────────────────────────────────────────────────
/// A message that the server accepts.
pub open spec fn acceptable(m: MessageCreate) -> bool {
    &&& server::instance_name(m.sender@)
    &&& m.recipient@.len() <= server::MAX_INSTANCE_ID_LEN
    &&& server::recipient_name(m.recipient@)
    &&& text::byte_len(m.content@) <= server::MAX_CONTENT_LEN
    &&& m.refs@.len() <= server::MAX_REFS_COUNT
    &&& forall|i: int|
        0 <= i < m.refs@.len() ==> (#[trigger] m.refs@[i])@.len() <= server::MAX_REF_LEN
}

fn is_acceptable(m: &MessageCreate) -> (r: bool)
    ensures
        r == acceptable(*m),
{
    if !server::is_instance_name(m.sender.as_str()) || text::chars_of(
        m.recipient.as_str(),
    ).len() > server::MAX_INSTANCE_ID_LEN || !server::is_valid_recipient(m.recipient.as_str())
        || text::bytes_in(m.content.as_str()) > server::MAX_CONTENT_LEN || m.refs.len()
        > server::MAX_REFS_COUNT {
        return false;
    }
    let mut i: usize = 0;
    while i < m.refs.len()
        invariant
            i <= m.refs@.len(),
            forall|k: int|
                0 <= k < i ==> (#[trigger] m.refs@[k])@.len() <= server::MAX_REF_LEN,
        decreases m.refs@.len() - i,
    {
        if text::chars_of(m.refs[i].as_str()).len() > server::MAX_REF_LEN {
            assert(m.refs@[i as int]@.len() > server::MAX_REF_LEN);
            return false;
        }
        i += 1;
    }
    true
}

/// The row of a new message.
pub open spec fn new_row(
    sender: Seq<char>,
    recipient: Seq<char>,
    content: Seq<char>,
    refs: Seq<Seq<char>>,
    now: Timestamp,
    id: Seq<char>,
    team: Option<Seq<char>>,
) -> RowModel {
    RowModel {
        id,
        hash: server::field_hash(sender, recipient, content, now.text()),
        sender,
        recipient,
        content,
        refs: text::joined(refs, ","@),
        timestamp: now,
        read_at: None,
        team,
    }
}

/// The table of messages.
pub struct Messages {
    pub rows: Vec<MessageRow>,
}

impl View for Messages {
    type V = Seq<RowModel>;

    open spec fn view(&self) -> Seq<RowModel> {
        row_models(self.rows@)
    }
}

/// A message on its way to subscribers, with the team it belongs to.
pub struct BroadcastMsg {
    pub team_id: Option<String>,
    pub message: Message,
}

/// Whether a subscriber of `team` gets a message: it is of the same team and, where the subscriber
/// listens for one identity, addressed to it or to everybody.
pub open spec fn delivered(
    b: BroadcastMsg,
    team: Option<Seq<char>>,
    who: Option<Seq<char>>,
) -> bool {
    &&& text::opt_text(b.team_id) == team
    &&& who is Some ==> b.message.recipient@ == who->0 || b.message.recipient@ == "all"@
}

/// Whether a subscriber gets a message.
pub fn delivers(b: &BroadcastMsg, team: &Option<String>, who: &Option<String>) -> (r: bool)
    ensures
        r == delivered(*b, text::opt_text(*team), text::opt_text(*who)),
        r <==> text::opt_text(b.team_id) == text::opt_text(*team) && (who matches Some(w)
            ==> b.message.recipient@ == w@ || b.message.recipient@ == "all"@),
{
    let same_team = match &b.team_id {
        Some(x) => match team {
            Some(y) => text::same(x.as_str(), y.as_str()),
            None => false,
        },
        None => team.is_none(),
    };
    same_team && (match who {
        Some(w) => text::same(b.message.recipient.as_str(), w.as_str()) || text::same(
            b.message.recipient.as_str(),
            "all",
        ),
        None => true,
    })
}

// ── Reading ─────────────────────────────────────────────────────────────────
/// Which messages are asked for.
#[derive(Clone, Copy, PartialEq, Eq, Structural, Debug)]
pub enum Query {
    /// Those to one identity or to everybody.
    Inbox,
    /// Those from or to one identity.
    History,
    /// All of them.
    Any,
}

/// Whether a row is asked for: it is of the right namespace, concerns `who`, and is not older than
/// `since`.
pub open spec fn hit(
    r: RowModel,
    q: Query,
    who: Seq<char>,
    space: Seq<char>,
    since: Option<Timestamp>,
) -> bool {
    &&& server::space_of(r.team) == space
    &&& match q {
        Query::Inbox => r.recipient == who || r.recipient == "all"@,
        Query::History => r.recipient == who || r.sender == who,
        Query::Any => true,
    }
    &&& since matches Some(t) ==> !r.timestamp.earlier(t)
}

/// The messages asked for, in the order of the rows.
pub open spec fn selected(
    rows: Seq<RowModel>,
    q: Query,
    who: Seq<char>,
    space: Seq<char>,
    since: Option<Timestamp>,
) -> Seq<MessageModel>
    decreases rows.len(),
{
    if rows.len() == 0 {
        Seq::empty()
    } else {
        let r = selected(rows.drop_last(), q, who, space, since);
        if hit(rows.last(), q, who, space, since) {
            r.push(message_of(rows.last()))
        } else {
            r
        }
    }
}

/// The times of messages, as numbers.
pub open spec fn times(v: Seq<MessageModel>) -> Seq<int> {
    Seq::new(v.len(), |i: int| v[i].timestamp.total())
}

/// The messages in the order of their times.
pub open spec fn by_time(v: Seq<MessageModel>, falling: bool) -> Seq<MessageModel> {
    sorting::arranged(v, times(v), falling)
}

/// The latest `limit` messages, the earliest of them first.
pub open spec fn latest(v: Seq<MessageModel>, limit: Option<nat>) -> Seq<MessageModel> {
    match limit {
        Some(n) => {
            let d = by_time(v, true);
            by_time(
                if d.len() <= n {
                    d
                } else {
                    d.take(n as int)
                },
                false,
            )
        },
        None => by_time(v, false),
    }
}

fn row_hits(
    r: &MessageRow,
    q: Query,
    who: &str,
    team: &Option<String>,
    since: Option<Timestamp>,
) -> (b: bool)
    ensures
        b == hit(r@, q, who@, server::space_of(text::opt_text(*team)), since),
{
    if !server::same_space(&r.team_id, team) {
        return false;
    }
    let concerns = match q {
        Query::Inbox => text::same(r.recipient.as_str(), who) || text::same(
            r.recipient.as_str(),
            "all",
        ),
        Query::History => text::same(r.recipient.as_str(), who) || text::same(
            r.sender.as_str(),
            who,
        ),
        Query::Any => true,
    };
    concerns && (match since {
        Some(t) => !r.timestamp.is_before(t),
        None => true,
    })
}

/// Puts messages in the order of their times.
fn arrange(v: &Vec<Message>, falling: bool) -> (r: Vec<Message>)
    ensures
        message_models(r@) == by_time(message_models(v@), falling),
        r@.len() == v@.len(),
{
    let ghost ms = message_models(v@);
    let mut keys: Vec<i128> = Vec::new();
    let mut i: usize = 0;
    while i < v.len()
        invariant
            i <= v@.len(),
            keys@.len() == i,
            forall|k: int| 0 <= k < i ==> #[trigger] keys@[k] == v@[k].timestamp.total(),
        decreases v@.len() - i,
    {
        keys.push(v[i].timestamp.nanoseconds());
        i += 1;
    }
    assert(sorting::key_model(keys@) =~= times(ms));
    let order = sorting::order_by(&keys, falling);
    let ghost o = sorting::ordering(times(ms), ms.len(), falling);
    let mut r: Vec<Message> = Vec::new();
    let mut j: usize = 0;
    while j < order.len()
        invariant
            j <= order@.len(),
            ms == message_models(v@),
            o == sorting::index_model(order@),
            forall|k: int| 0 <= k < order@.len() ==> #[trigger] order@[k] < v@.len(),
            r@.len() == j,
            forall|k: int| 0 <= k < j ==> (#[trigger] r@[k])@ == ms[o[k]],
        decreases order@.len() - j,
    {
        assert(o[j as int] == order@[j as int]);
        r.push(copy_message(&v[order[j]]));
        j += 1;
    }
    assert(message_models(r@) =~= by_time(ms, falling));
    r
}

impl Messages {
    /// A table without rows.
    pub fn new() -> (m: Messages)
        ensures
            m@ == Seq::<RowModel>::empty(),
    {
        let m = Messages { rows: Vec::new() };
        assert(m@ =~= Seq::<RowModel>::empty());
        m
    }

    /// Adds a message.
    pub fn insert(
        &mut self,
        sender: &str,
        recipient: &str,
        content: &str,
        refs: &Vec<String>,
        now: Timestamp,
        id: &str,
        team: &Option<String>,
    ) -> (m: Message)
        requires
            now.valid(),
        ensures
            ({
                let row = new_row(
                    sender@,
                    recipient@,
                    content@,
                    text::texts(refs@),
                    now,
                    id@,
                    text::opt_text(*team),
                );
                &&& final(self)@ == old(self)@.push(row)
                &&& m@ == (MessageModel { refs: text::texts(refs@), ..message_of(row) })
            }),
    {
        let stamp = now.to_rfc3339();
        let hash = server::hash_fields(sender, recipient, content, stamp.as_str());
        let ghost before = self.rows@;
        let row = MessageRow {
            id: id.to_owned(),
            hash: hash.clone(),
            sender: sender.to_owned(),
            recipient: recipient.to_owned(),
            content: content.to_owned(),
            refs: text::join(refs, ","),
            timestamp: now,
            read_at: None,
            team_id: text::copy_opt(team),
        };
        let ghost model = row@;
        self.rows.push(row);
        assert(self@ =~= row_models(before).push(model));
        let m = Message {
            id: id.to_owned(),
            hash,
            sender: sender.to_owned(),
            recipient: recipient.to_owned(),
            content: content.to_owned(),
            refs: text::copy_list(refs),
            timestamp: now,
            read_at: None,
        };
        assert(m@ =~= (MessageModel { refs: text::texts(refs@), ..message_of(model) }));
        m
    }

    /// Accepts a message under the identifier `id`: one that is valid is added and handed back,
    /// any other is refused and changes nothing.
    pub fn post(
        &mut self,
        team: &Option<String>,
        payload: &MessageCreate,
        now: Timestamp,
        id: &str,
    ) -> (r: Result<Message, Refusal>)
        requires
            now.valid(),
        ensures
            r is Ok == acceptable(*payload),
            r matches Err(e) ==> e == Refusal::BadRequest && final(self)@ == old(self)@,
            r matches Ok(m) ==> {
                let row = new_row(
                    payload.sender@,
                    payload.recipient@,
                    payload.content@,
                    text::texts(payload.refs@),
                    now,
                    id@,
                    text::opt_text(*team),
                );
                &&& final(self)@ == old(self)@.push(row)
                &&& m@ == (MessageModel { refs: text::texts(payload.refs@), ..message_of(row) })
            },
    {
        if !is_acceptable(payload) {
            return Err(Refusal::BadRequest);
        }
        Ok(
            self.insert(
                payload.sender.as_str(),
                payload.recipient.as_str(),
                payload.content.as_str(),
                &payload.refs,
                now,
                id,
                team,
            ),
        )
    }

    /// Accepts a message under a new random identifier.
    pub fn create_message(
        &mut self,
        team: &Option<String>,
        payload: &MessageCreate,
        now: Timestamp,
    ) -> (r: Result<Message, Refusal>)
        requires
            now.valid(),
        ensures
            r is Ok == acceptable(*payload),
            r matches Err(e) ==> e == Refusal::BadRequest && final(self)@ == old(self)@,
            r matches Ok(m) ==> {
                let row = new_row(
                    payload.sender@,
                    payload.recipient@,
                    payload.content@,
                    text::texts(payload.refs@),
                    now,
                    m.id@,
                    text::opt_text(*team),
                );
                &&& server::drawn_id(m.id@)
                &&& final(self)@ == old(self)@.push(row)
                &&& m@ == (MessageModel { refs: text::texts(payload.refs@), ..message_of(row) })
            },
    {
        let id = server::new_id();
        self.post(team, payload, now, id.as_str())
    }

    fn select(&self, q: Query, who: &str, team: &Option<String>, since: Option<Timestamp>) -> (r:
        Vec<Message>)
        ensures
            message_models(r@) == selected(
                self@,
                q,
                who@,
                server::space_of(text::opt_text(*team)),
                since,
            ),
    {
        let ghost rows = self@;
        let ghost space = server::space_of(text::opt_text(*team));
        let mut r: Vec<Message> = Vec::new();
        let mut i: usize = 0;
        assert(message_models(r@) =~= selected(rows.take(0), q, who@, space, since));
        while i < self.rows.len()
            invariant
                i <= self.rows@.len(),
                rows == self@,
                space == server::space_of(text::opt_text(*team)),
                message_models(r@) == selected(rows.take(i as int), q, who@, space, since),
            decreases self.rows@.len() - i,
        {
            assert(rows.take(i + 1).drop_last() =~= rows.take(i as int));
            assert(rows.take(i + 1).last() == self.rows@[i as int]@);
            if row_hits(&self.rows[i], q, who, team, since) {
                let ghost before = r@;
                r.push(message_from_row(&self.rows[i]));
                assert(message_models(r@) =~= message_models(before).push(
                    message_of(rows[i as int]),
                ));
            }
            i += 1;
        }
        assert(rows.take(i as int) =~= rows);
        r
    }

    /// The oldest time that is shown: none in audit mode, where everything is.
    pub open spec fn horizon(audit: bool, now: Timestamp) -> Option<Timestamp> {
        if audit {
            None
        } else {
            Some(Timestamp { secs: (now.secs - server::RECENT_SECS) as i64, nanos: now.nanos })
        }
    }

    fn horizon_at(audit: bool, now: Timestamp) -> (r: Option<Timestamp>)
        requires
            now.valid(),
        ensures
            r == Self::horizon(audit, now),
    {
        if audit {
            None
        } else {
            Some(now.minus_seconds(server::RECENT_SECS))
        }
    }

    /// A row that a listing in audit mode stamps as read.
    pub open spec fn stamped(
        rows: Seq<RowModel>,
        who: Seq<char>,
        space: Seq<char>,
        now: Timestamp,
    ) -> Seq<RowModel> {
        Seq::new(
            rows.len(),
            |i: int|
                if hit(rows[i], Query::Inbox, who, space, None) && rows[i].read_at is None {
                    RowModel { read_at: Some(now), ..rows[i] }
                } else {
                    rows[i]
                },
        )
    }

    /// The messages to `who` or to everybody, the latest first. In audit mode all of them are
    /// shown, as they were before, and those seen for the first time are stamped as read.
    pub fn list_messages(
        &mut self,
        team: &Option<String>,
        who: &str,
        audit: bool,
        now: Timestamp,
    ) -> (r: Result<Vec<Message>, Refusal>)
        requires
            now.valid(),
        ensures
            r is Ok == server::instance_name(who@),
            r matches Err(e) ==> e == Refusal::BadRequest && final(self)@ == old(self)@,
            r matches Ok(v) ==> {
                let space = server::space_of(text::opt_text(*team));
                &&& message_models(v@) == by_time(
                    selected(old(self)@, Query::Inbox, who@, space, Self::horizon(audit, now)),
                    true,
                )
                &&& final(self)@ == (if audit {
                    Self::stamped(old(self)@, who@, space, now)
                } else {
                    old(self)@
                })
            },
    {
        if !server::is_instance_name(who) {
            return Err(Refusal::BadRequest);
        }
        let found = self.select(Query::Inbox, who, team, Self::horizon_at(audit, now));
        let listed = arrange(&found, true);
        if audit {
            self.stamp(who, team, now);
        }
        Ok(listed)
    }

    fn stamp(&mut self, who: &str, team: &Option<String>, now: Timestamp)
        ensures
            final(self)@ == Self::stamped(
                old(self)@,
                who@,
                server::space_of(text::opt_text(*team)),
                now,
            ),
    {
        let ghost before = self.rows@;
        let ghost rows = self@;
        let ghost space = server::space_of(text::opt_text(*team));
        let ghost want = Self::stamped(rows, who@, space, now);
        let mut i: usize = 0;
        while i < self.rows.len()
            invariant
                i <= self.rows@.len(),
                self.rows@.len() == before.len(),
                rows == row_models(before),
                space == server::space_of(text::opt_text(*team)),
                want == Self::stamped(rows, who@, space, now),
                forall|k: int| 0 <= k < i ==> (#[trigger] self.rows@[k])@ == want[k],
                forall|k: int| i <= k < before.len() ==> #[trigger] self.rows@[k] == before[k],
            decreases self.rows@.len() - i,
        {
            assert(self.rows@[i as int] == before[i as int]);
            if row_hits(&self.rows[i], Query::Inbox, who, team, None)
                && self.rows[i].read_at.is_none() {
                let ghost was = self.rows@;
                self.rows[i].read_at = Some(now);
                assert(self.rows@[i as int]@ =~= want[i as int]);
            } else {
                assert(self.rows@[i as int]@ =~= want[i as int]);
            }
            i += 1;
        }
        assert(self@ =~= want);
    }

    /// The history of `who`: the messages from or to it, the earliest first, and only the latest
    /// ones where a limit is given.
    pub fn get_history(
        &self,
        team: &Option<String>,
        who: &str,
        limit: &Option<String>,
        audit: bool,
        now: Timestamp,
    ) -> (r: Result<Vec<Message>, Refusal>)
        requires
            now.valid(),
        ensures
            r is Ok == server::instance_name(who@),
            r matches Err(e) ==> e == Refusal::BadRequest,
            r matches Ok(v) ==> message_models(v@) == latest(
                selected(
                    self@,
                    Query::History,
                    who@,
                    server::space_of(text::opt_text(*team)),
                    Self::horizon(audit, now),
                ),
                limit_of(text::opt_text(*limit)),
            ),
    {
        if !server::is_instance_name(who) {
            return Err(Refusal::BadRequest);
        }
        let found = self.select(Query::History, who, team, Self::horizon_at(audit, now));
        match read_limit(limit) {
            Some(n) => {
                let mut d = arrange(&found, true);
                let ghost all = message_models(d@);
                if (d.len() as u64) > n {
                    d.truncate(n as usize);
                    assert(message_models(d@) =~= all.take(n as int));
                }
                Ok(arrange(&d, false))
            },
            None => Ok(arrange(&found, false)),
        }
    }

    /// How many messages concern `who` since a time.
    pub fn count(&self, q: Query, who: &str, team: &Option<String>, since: Option<Timestamp>) -> (n:
        usize)
        ensures
            n == selected(
                self@,
                q,
                who@,
                server::space_of(text::opt_text(*team)),
                since,
            ).len(),
    {
        let found = self.select(q, who, team, since);
        assert(message_models(found@).len() == found@.len());
        found.len()
    }

    /// The messages of a namespace since a time, in the order of the rows.
    pub fn since(&self, team: &Option<String>, since: Option<Timestamp>) -> (r: Vec<Message>)
        ensures
            message_models(r@) == selected(
                self@,
                Query::Any,
                Seq::empty(),
                server::space_of(text::opt_text(*team)),
                since,
            ),
    {
        let nobody = String::new();
        self.select(Query::Any, nobody.as_str(), team, since)
    }

    /// The rows that are left when those of a namespace before a time are deleted.
    pub open spec fn without_old(rows: Seq<RowModel>, space: Seq<char>, cutoff: Timestamp) -> Seq<
        RowModel,
    >
        decreases rows.len(),
    {
        if rows.len() == 0 {
            Seq::empty()
        } else {
            let r = Self::without_old(rows.drop_last(), space, cutoff);
            if server::space_of(rows.last().team) == space && rows.last().timestamp.earlier(
                cutoff,
            ) {
                r
            } else {
                r.push(rows.last())
            }
        }
    }

    /// Deletes the messages of a namespace before a time and says how many they were.
    pub fn delete_old(&mut self, team: &Option<String>, cutoff: Timestamp) -> (n: usize)
        ensures
            final(self)@ == Self::without_old(
                old(self)@,
                server::space_of(text::opt_text(*team)),
                cutoff,
            ),
            n == old(self)@.len() - final(self)@.len(),
    {
        let ghost all = self.rows@;
        let ghost models = self@;
        let ghost space = server::space_of(text::opt_text(*team));
        let total: usize = self.rows.len();
        let mut rest: Vec<MessageRow> = Vec::new();
        rest.append(&mut self.rows);
        let mut left: Vec<MessageRow> = Vec::new();
        let ghost mut n: int = 0;
        assert(rest@ =~= all.skip(0));
        assert(row_models(left@) =~= Self::without_old(models.take(0), space, cutoff));
        while rest.len() > 0
            invariant
                0 <= n <= all.len(),
                rest@ == all.skip(n),
                models == row_models(all),
                space == server::space_of(text::opt_text(*team)),
                left@.len() <= n,
                row_models(left@) == Self::without_old(models.take(n), space, cutoff),
            decreases rest@.len(),
        {
            let row = rest.remove(0);
            proof {
                assert(row == all[n]);
                assert(models.take(n + 1).drop_last() =~= models.take(n));
                assert(models.take(n + 1).last() == row@);
                assert(all.skip(n).remove(0) =~= all.skip(n + 1));
                n = n + 1;
            }
            if !(server::same_space(&row.team_id, team) && row.timestamp.is_before(cutoff)) {
                let ghost before = left@;
                let ghost m = row@;
                left.push(row);
                assert(row_models(left@) =~= row_models(before).push(m));
            }
        }
        assert(models.take(n) =~= models);
        self.rows = left;
        assert(self@.len() == self.rows@.len());
        total - self.rows.len()
    }
}

/// The limit that a parameter gives: a positive number that fits.
pub open spec fn limit_of(param: Option<Seq<char>>) -> Option<nat> {
    match param {
        Some(s) => match text::number_of(s) {
            Some(n) => if 0 < n <= i64::MAX {
                Some(n as nat)
            } else {
                None
            },
            None => None,
        },
        None => None,
    }
}

fn read_limit(param: &Option<String>) -> (r: Option<u64>)
    ensures
        limit_of(text::opt_text(*param)) == (match r {
            Some(n) => Some(n as nat),
            None => None,
        }),
{
    match param {
        Some(s) => match text::parse_number(s.as_str()) {
            Some(n) => if 0 < n && n <= i64::MAX as u64 {
                Some(n)
            } else {
                None
            },
            None => None,
        },
        None => None,
    }
}

// ── Stored rows ─────────────────────────────────────────────────────────────
/// A row as it is stored: times are texts.
pub struct StoredMessage {
    pub id: String,
    pub hash: String,
    pub sender: String,
    pub recipient: String,
    pub content: String,
    pub refs: String,
    pub timestamp: String,
    pub read_at: Option<String>,
    pub team_id: Option<String>,
}

/// The row that a stored one stands for; nothing where its time cannot be read.
pub open spec fn row_from(s: StoredMessage) -> Option<RowModel> {
    match clock::time_of(s.timestamp@) {
        Some(t) => Some(
            RowModel {
                id: s.id@,
                hash: s.hash@,
                sender: s.sender@,
                recipient: s.recipient@,
                content: s.content@,
                refs: s.refs@,
                timestamp: t,
                read_at: match text::opt_text(s.read_at) {
                    Some(r) => clock::time_of(r),
                    None => None,
                },
                team: text::opt_text(s.team_id),
            },
        ),
        None => None,
    }
}

/// The rows that stored ones stand for, without those whose time cannot be read.
pub open spec fn rows_from(stored: Seq<StoredMessage>) -> Seq<RowModel>
    decreases stored.len(),
{
    if stored.len() == 0 {
        Seq::empty()
    } else {
        let r = rows_from(stored.drop_last());
        match row_from(stored.last()) {
            Some(row) => r.push(row),
            None => r,
        }
    }
}

/// Reads stored rows.
pub fn parse_message_rows(stored: &Vec<StoredMessage>) -> (r: Vec<MessageRow>)
    ensures
        row_models(r@) == rows_from(stored@),
{
    let mut r: Vec<MessageRow> = Vec::new();
    let mut i: usize = 0;
    assert(row_models(r@) =~= rows_from(stored@.take(0)));
    while i < stored.len()
        invariant
            i <= stored@.len(),
            row_models(r@) == rows_from(stored@.take(i as int)),
        decreases stored@.len() - i,
    {
        assert(stored@.take(i + 1).drop_last() =~= stored@.take(i as int));
        let s = &stored[i];
        if let Some(t) = clock::parse_time(s.timestamp.as_str()) {
            let read_at = match &s.read_at {
                Some(x) => clock::parse_time(x.as_str()),
                None => None,
            };
            let row = MessageRow {
                id: s.id.clone(),
                hash: s.hash.clone(),
                sender: s.sender.clone(),
                recipient: s.recipient.clone(),
                content: s.content.clone(),
                refs: s.refs.clone(),
                timestamp: t,
                read_at,
                team_id: text::copy_opt(&s.team_id),
            };
            let ghost before = r@;
            let ghost m = row@;
            r.push(row);
            assert(m =~= row_from(*s)->0);
            assert(row_models(r@) =~= row_models(before).push(m));
        }
        i += 1;
    }
    assert(stored@.take(i as int) =~= stored@);
    r
}

/// A row whose times can be written.
pub open spec fn storable(r: RowModel) -> bool {
    r.timestamp.valid() && (r.read_at matches Some(t) ==> t.valid())
}

/// Writes a row for storage: what is read back is the row.
pub fn store_message(r: &MessageRow) -> (s: StoredMessage)
    requires
        storable(r@),
    ensures
        row_from(s) == Some(r@),
        s.timestamp@ == r.timestamp.text(),
{
    let read_at = match r.read_at {
        Some(t) => Some(t.to_rfc3339()),
        None => None,
    };
    let s = StoredMessage {
        id: r.id.clone(),
        hash: r.hash.clone(),
        sender: r.sender.clone(),
        recipient: r.recipient.clone(),
        content: r.content.clone(),
        refs: r.refs.clone(),
        timestamp: r.timestamp.to_rfc3339(),
        read_at,
        team_id: text::copy_opt(&r.team_id),
    };
    assert(row_from(s)->0 =~= r@);
    s
}

// ── Laws ────────────────────────────────────────────────────────────────────
/// A message is selected if and only if it is that of a row which is asked for.
pub proof fn selected_meaning(
    rows: Seq<RowModel>,
    q: Query,
    who: Seq<char>,
    space: Seq<char>,
    since: Option<Timestamp>,
    m: MessageModel,
)
    ensures
        selected(rows, q, who, space, since).contains(m) <==> exists|i: int|
            0 <= i < rows.len() && hit(#[trigger] rows[i], q, who, space, since) && message_of(
                rows[i],
            ) == m,
    decreases rows.len(),
{
    if rows.len() > 0 {
        let init = rows.drop_last();
        let r = selected(init, q, who, space, since);
        let all = selected(rows, q, who, space, since);
        selected_meaning(init, q, who, space, since, m);
        if all.contains(m) {
            let k = choose|k: int| 0 <= k < all.len() && all[k] == m;
            if k < r.len() {
                assert(r[k] == m);
                let i = choose|i: int|
                    0 <= i < init.len() && hit(#[trigger] init[i], q, who, space, since)
                        && message_of(init[i]) == m;
                assert(rows[i] == init[i]);
            } else {
                assert(rows[rows.len() - 1] == rows.last());
            }
        }
        if exists|i: int|
            0 <= i < rows.len() && hit(#[trigger] rows[i], q, who, space, since) && message_of(
                rows[i],
            ) == m {
            let i = choose|i: int|
                0 <= i < rows.len() && hit(#[trigger] rows[i], q, who, space, since) && message_of(
                    rows[i],
                ) == m;
            if i < init.len() {
                assert(init[i] == rows[i]);
                let k = choose|k: int| 0 <= k < r.len() && r[k] == m;
                assert(all[k] == m);
            } else {
                assert(all[r.len() as int] == m);
            }
        }
    }
}

/// A message that was accepted is found in the listing of its recipient, and in that of everybody
/// in the namespace where it is addressed to all, as long as it is recent.
pub proof fn sent_messages_are_listed(
    rows: Seq<RowModel>,
    row: RowModel,
    who: Seq<char>,
    since: Option<Timestamp>,
)
    requires
        row.recipient == who || row.recipient == "all"@,
        since matches Some(t) ==> !row.timestamp.earlier(t),
    ensures
        by_time(
            selected(rows.push(row), Query::Inbox, who, server::space_of(row.team), since),
            true,
        ).contains(message_of(row)),
{
    let space = server::space_of(row.team);
    let all = rows.push(row);
    assert(all[rows.len() as int] == row);
    selected_meaning(all, Query::Inbox, who, space, since, message_of(row));
    let s = selected(all, Query::Inbox, who, space, since);
    sorting::arranged_keeps(s, times(s), true, message_of(row));
}

/// Whatever one team sends, nobody outside its namespace sees: the listings of another namespace
/// are the same with and without it.
pub proof fn teams_are_isolated(
    rows: Seq<RowModel>,
    row: RowModel,
    q: Query,
    who: Seq<char>,
    space: Seq<char>,
    since: Option<Timestamp>,
)
    requires
        server::space_of(row.team) != space,
    ensures
        selected(rows.push(row), q, who, space, since) == selected(rows, q, who, space, since),
{
    assert(rows.push(row).drop_last() =~= rows);
}

/// A listing puts later messages first, a history puts them last.
pub proof fn listings_are_sorted(v: Seq<MessageModel>, falling: bool, i: int, j: int)
    requires
        0 <= i < j < v.len(),
    ensures
        falling ==> by_time(v, falling)[i].timestamp.total() >= by_time(
            v,
            falling,
        )[j].timestamp.total(),
        !falling ==> by_time(v, falling)[i].timestamp.total() <= by_time(
            v,
            falling,
        )[j].timestamp.total(),
{
    sorting::arranged_is_sorted(v, times(v), falling, i, j);
}

/// A history with a limit holds no more than the limit.
pub proof fn limits_are_kept(v: Seq<MessageModel>, n: nat)
    ensures
        latest(v, Some(n)).len() <= n,
        latest(v, Some(n)).len() <= v.len(),
{
    sorting::ordering_is_sorted(times(v), v.len(), true);
    let d = by_time(v, true);
    let e = if d.len() <= n {
        d
    } else {
        d.take(n as int)
    };
    sorting::ordering_is_sorted(times(e), e.len(), false);
}

/// Audit mode deletes nothing and changes nothing but the mark that a message was read, which it
/// sets once and never moves.
pub proof fn audit_only_stamps(
    rows: Seq<RowModel>,
    who: Seq<char>,
    space: Seq<char>,
    now: Timestamp,
    i: int,
)
    requires
        0 <= i < rows.len(),
    ensures
        Messages::stamped(rows, who, space, now).len() == rows.len(),
        ({
            let r = Messages::stamped(rows, who, space, now)[i];
            &&& r == (RowModel { read_at: r.read_at, ..rows[i] })
            &&& rows[i].read_at is Some ==> r.read_at == rows[i].read_at
            &&& !hit(rows[i], Query::Inbox, who, space, None) ==> r == rows[i]
        }),
{
}

/// Cleaning up deletes exactly the old messages of one namespace.
pub proof fn cleanup_is_exact(rows: Seq<RowModel>, space: Seq<char>, cutoff: Timestamp, r: RowModel)
    ensures
        Messages::without_old(rows, space, cutoff).contains(r) <==> rows.contains(r) && !(
        server::space_of(r.team) == space && r.timestamp.earlier(cutoff)),
    decreases rows.len(),
{
    if rows.len() > 0 {
        let init = rows.drop_last();
        let a = Messages::without_old(init, space, cutoff);
        let all = Messages::without_old(rows, space, cutoff);
        cleanup_is_exact(init, space, cutoff, r);
        if rows.contains(r) {
            let i = choose|i: int| 0 <= i < rows.len() && rows[i] == r;
            if i < init.len() {
                assert(init[i] == r);
            }
        }
        if init.contains(r) {
            let i = choose|i: int| 0 <= i < init.len() && init[i] == r;
            assert(rows[i] == r);
        }
        if a.contains(r) {
            let i = choose|i: int| 0 <= i < a.len() && a[i] == r;
            assert(all[i] == r);
        }
        if all.contains(r) {
            let i = choose|i: int| 0 <= i < all.len() && all[i] == r;
            if i < a.len() {
                assert(a[i] == r);
            } else {
                assert(rows[rows.len() - 1] == r);
            }
        }
        if all != a {
            assert(all[a.len() as int] == rows.last());
        }
    }
}

/// A subscriber of one team never gets a message of another.
pub proof fn streams_are_isolated(b: BroadcastMsg, team: Option<Seq<char>>, who: Option<Seq<char>>)
    requires
        text::opt_text(b.team_id) != team,
    ensures
        !delivered(b, team, who),
{
}

/// Which rows a query asks for: those to one identity or to everybody, those from or to one
/// identity, or all; always of one namespace, and none before the time from which on they count.
pub proof fn queries_are_exact(
    r: RowModel,
    who: Seq<char>,
    space: Seq<char>,
    since: Option<Timestamp>,
)
    ensures
        ({
            let recent = since is None || r.timestamp.secs > since->0.secs || (r.timestamp.secs
                == since->0.secs && r.timestamp.nanos >= since->0.nanos);
            let here = recent && space == (if r.team is Some {
                r.team->0
            } else {
                Seq::empty()
            });
            &&& hit(r, Query::Inbox, who, space, since) <==> here && (r.recipient == who
                || r.recipient == "all"@)
            &&& hit(r, Query::History, who, space, since) <==> here && (r.recipient == who
                || r.sender == who)
            &&& hit(r, Query::Any, who, space, since) <==> here
        }),
{
}

/// A message that was accepted is found in the history of its sender and in that of its recipient,
/// as long as it is recent.
pub proof fn sent_messages_are_history(
    rows: Seq<RowModel>,
    row: RowModel,
    who: Seq<char>,
    since: Option<Timestamp>,
)
    requires
        who == row.sender || who == row.recipient,
        since matches Some(t) ==> !row.timestamp.earlier(t),
    ensures
        latest(
            selected(rows.push(row), Query::History, who, server::space_of(row.team), since),
            None,
        ).contains(message_of(row)),
{
    let space = server::space_of(row.team);
    let all = rows.push(row);
    assert(all[rows.len() as int] == row);
    selected_meaning(all, Query::History, who, space, since, message_of(row));
    let s = selected(all, Query::History, who, space, since);
    sorting::arranged_keeps(s, times(s), false, message_of(row));
}

/// The history of an identity holds nothing but recent messages of the namespace that it sent or
/// was sent.
pub proof fn histories_are_private(
    rows: Seq<RowModel>,
    who: Seq<char>,
    space: Seq<char>,
    since: Option<Timestamp>,
    limit: Option<nat>,
    m: MessageModel,
)
    requires
        latest(selected(rows, Query::History, who, space, since), limit).contains(m),
    ensures
        m.sender == who || m.recipient == who,
        exists|i: int|
            0 <= i < rows.len() && message_of(#[trigger] rows[i]) == m && server::space_of(
                rows[i].team,
            ) == space,
        since matches Some(t) ==> !m.timestamp.earlier(t),
{
    let s = selected(rows, Query::History, who, space, since);
    limits_keep_the_latest(s, limit, m, m);
    selected_meaning(rows, Query::History, who, space, since, m);
}

/// The listing of an identity holds nothing but recent messages of the namespace to it or to
/// everybody.
pub proof fn listings_are_private(
    rows: Seq<RowModel>,
    who: Seq<char>,
    space: Seq<char>,
    since: Option<Timestamp>,
    m: MessageModel,
)
    requires
        by_time(selected(rows, Query::Inbox, who, space, since), true).contains(m),
    ensures
        m.recipient == who || m.recipient == "all"@,
        exists|i: int|
            0 <= i < rows.len() && message_of(#[trigger] rows[i]) == m && server::space_of(
                rows[i].team,
            ) == space,
        since matches Some(t) ==> !m.timestamp.earlier(t),
{
    let s = selected(rows, Query::Inbox, who, space, since);
    sorting::arranged_keeps(s, times(s), true, m);
    selected_meaning(rows, Query::Inbox, who, space, since, m);
}

/// A history without a limit holds everything; one with a limit holds as many messages as the limit
/// allows, and none that it leaves out is later than one that it holds.
pub proof fn limits_keep_the_latest(
    v: Seq<MessageModel>,
    limit: Option<nat>,
    held: MessageModel,
    other: MessageModel,
)
    ensures
        latest(v, None).contains(held) <==> v.contains(held),
        latest(v, limit).contains(held) ==> v.contains(held),
        limit matches Some(n) ==> latest(v, limit).len() == (if v.len() <= n {
            v.len()
        } else {
            n
        }),
        v.contains(other) && !latest(v, limit).contains(other) && latest(v, limit).contains(held)
            ==> held.timestamp.total() >= other.timestamp.total(),
{
    sorting::arranged_keeps(v, times(v), false, held);
    sorting::arranged_keeps(v, times(v), false, other);
    if let Some(n) = limit {
        let d = by_time(v, true);
        sorting::arranged_keeps(v, times(v), true, held);
        sorting::arranged_keeps(v, times(v), true, other);
        let e = if d.len() <= n {
            d
        } else {
            d.take(n as int)
        };
        sorting::arranged_keeps(e, times(e), false, held);
        sorting::arranged_keeps(e, times(e), false, other);
        let out = latest(v, limit);
        assert(out == by_time(e, false));
        if out.contains(held) {
            let i = choose|i: int| 0 <= i < e.len() && e[i] == held;
            assert(d[i] == held);
            assert(d.contains(held));
            if v.contains(other) && !out.contains(other) {
                let k = choose|k: int| 0 <= k < d.len() && d[k] == other;
                if k < e.len() {
                    assert(e[k] == other);
                    assert(e.contains(other));
                }
                listings_are_sorted(v, true, i, k);
            }
        }
    }
}

/// Whatever a message was sent with, the row keeps, and whoever reads the row is given: it is unread,
/// and its hash is that of sender, recipient, content and time.
pub proof fn rows_keep_what_was_sent(
    sender: Seq<char>,
    recipient: Seq<char>,
    content: Seq<char>,
    refs: Seq<Seq<char>>,
    now: Timestamp,
    id: Seq<char>,
    team: Option<Seq<char>>,
)
    ensures
        ({
            let row = new_row(sender, recipient, content, refs, now, id, team);
            let m = message_of(row);
            &&& row.team == team
            &&& m.id == id && m.sender == sender && m.recipient == recipient && m.content == content
            &&& m.timestamp == now && m.read_at is None
            &&& m.hash == server::hex(
                crate::outside::sha1_of(
                    vstd::utf8::encode_utf8(
                        sender + "|"@ + recipient + "|"@ + content + "|"@ + now.text(),
                    ),
                ),
            )
            &&& refs.len() == 0 ==> m.refs.len() == 0
        }),
{
}

/// A message is accepted exactly where its sender is a name of at most 64 characters, its recipient
/// one too or everybody, its content takes at most 4096 bytes, and it refers to at most twenty
/// hashes of at most 64 characters.
pub proof fn acceptance_is_exact(m: MessageCreate)
    ensures
        acceptable(m) <==> {
            &&& 1 <= m.sender@.len() <= 64
            &&& forall|i: int|
                0 <= i < m.sender@.len() ==> crate::outside::alphanumeric(#[trigger] m.sender@[i])
                    || m.sender@[i] == '-' || m.sender@[i] == '_'
            &&& 1 <= m.recipient@.len() <= 64
            &&& m.recipient@ == "all"@ || forall|i: int|
                0 <= i < m.recipient@.len() ==> crate::outside::alphanumeric(
                    #[trigger] m.recipient@[i],
                ) || m.recipient@[i] == '-' || m.recipient@[i] == '_'
            &&& text::byte_len(m.content@) <= 4096
            &&& m.refs@.len() <= 20
            &&& forall|i: int| 0 <= i < m.refs@.len() ==> (#[trigger] m.refs@[i])@.len() <= 64
        },
{
    reveal_strlit("all");
    if acceptable(m) {
        assert forall|i: int| 0 <= i < m.sender@.len() implies crate::outside::alphanumeric(
            #[trigger] m.sender@[i],
        ) || m.sender@[i] == '-' || m.sender@[i] == '_' by {
            assert(server::name_char(m.sender@[i]));
        }
        if m.recipient@ != "all"@ {
            assert forall|i: int| 0 <= i < m.recipient@.len() implies crate::outside::alphanumeric(
                #[trigger] m.recipient@[i],
            ) || m.recipient@[i] == '-' || m.recipient@[i] == '_' by {
                assert(server::name_char(m.recipient@[i]));
            }
        }
    }
}

/// A subscriber gets exactly the messages of its team that are addressed to it or to everybody; one
/// that listens for nobody in particular gets all of its team.
pub proof fn delivery_is_exact(b: BroadcastMsg, team: Option<Seq<char>>, who: Seq<char>)
    ensures
        delivered(b, team, Some(who)) <==> text::opt_text(b.team_id) == team && (
        b.message.recipient@ == who || b.message.recipient@ == "all"@),
        delivered(b, team, None) <==> text::opt_text(b.team_id) == team,
{
}

/// Whatever a listing shows to somebody, a stream of the same team delivers to them as well.
pub proof fn listed_messages_are_delivered(
    b: BroadcastMsg,
    r: RowModel,
    who: Seq<char>,
    since: Option<Timestamp>,
)
    requires
        b.message@ == message_of(r),
        text::opt_text(b.team_id) == r.team,
    ensures
        hit(r, Query::Inbox, who, server::space_of(r.team), since) ==> delivered(
            b,
            r.team,
            Some(who),
        ),
        delivered(b, r.team, Some(who)) ==> hit(
            r,
            Query::Inbox,
            who,
            server::space_of(r.team),
            None,
        ),
{
    assert(b.message@.recipient == r.recipient);
}

/// Reading in audit mode marks exactly the unread messages of the namespace that are to the reader or
/// to everybody.
pub proof fn audits_mark_what_was_read(
    rows: Seq<RowModel>,
    who: Seq<char>,
    space: Seq<char>,
    now: Timestamp,
    i: int,
)
    requires
        0 <= i < rows.len(),
    ensures
        Messages::stamped(rows, who, space, now)[i].read_at == (if rows[i].read_at is None
            && server::space_of(rows[i].team) == space && (rows[i].recipient == who
            || rows[i].recipient == "all"@) {
            Some(now)
        } else {
            rows[i].read_at
        }),
{
}

/// Outside audit mode eight hours are shown, in audit mode everything.
pub proof fn eight_hours_are_shown(now: Timestamp)
    requires
        now.valid(),
    ensures
        Messages::horizon(true, now) is None,
        Messages::horizon(false, now) is Some,
        now.total() - (Messages::horizon(false, now)->0).total() == 8 * 3600 * 1_000_000_000,
{
}

/// A limit counts exactly where it is a positive number that a signed word holds.
pub proof fn limits_are_positive(param: Option<Seq<char>>, n: nat)
    ensures
        limit_of(param) == Some(n) <==> param is Some && 0 < n <= 0x7fff_ffff_ffff_ffff
            && text::number_of(param->0) == Some(n as u64),
{
}

/// Every row is asked for or not by itself, and the rows keep their order.
pub proof fn each_row_is_selected_alone(
    a: Seq<RowModel>,
    b: Seq<RowModel>,
    x: RowModel,
    q: Query,
    who: Seq<char>,
    space: Seq<char>,
    since: Option<Timestamp>,
)
    ensures
        selected(a + b, q, who, space, since) == selected(a, q, who, space, since) + selected(b, q, who, space, since),
        selected(seq![x], q, who, space, since) == (if hit(x, q, who, space, since) {
            seq![message_of(x)]
        } else {
            Seq::empty()
        }),
    decreases b.len(),
{
    let one = seq![x];
    assert(one.drop_last() =~= Seq::<RowModel>::empty());
    assert(selected(one.drop_last(), q, who, space, since).len() == 0);
    assert(selected(one, q, who, space, since) =~= (if hit(x, q, who, space, since) {
            seq![message_of(x)]
        } else {
            Seq::empty()
        }));
    if b.len() == 0 {
        assert(a + b =~= a);
        assert(selected(a, q, who, space, since) + selected(b, q, who, space, since) =~= selected(a, q, who, space, since));
    } else {
        each_row_is_selected_alone(a, b.drop_last(), x, q, who, space, since);
        assert((a + b).drop_last() =~= a + b.drop_last());
        assert((a + b).last() == b.last());
        assert(selected(a + b, q, who, space, since) =~= selected(a, q, who, space, since) + selected(b, q, who, space, since));
    }
}

/// A row is deleted or kept by itself, and what is kept stays in order.
pub proof fn each_row_is_cleaned_alone(
    a: Seq<RowModel>,
    b: Seq<RowModel>,
    x: RowModel,
    space: Seq<char>,
    cutoff: Timestamp,
)
    ensures
        Messages::without_old(a + b, space, cutoff) == Messages::without_old(a, space, cutoff) + Messages::without_old(b, space, cutoff),
        Messages::without_old(seq![x], space, cutoff) == (if server::space_of(x.team) == space && (x.timestamp.secs < cutoff.secs || (
        x.timestamp.secs == cutoff.secs && x.timestamp.nanos < cutoff.nanos)) {
            Seq::empty()
        } else {
            seq![x]
        }),
    decreases b.len(),
{
    let one = seq![x];
    assert(one.drop_last() =~= Seq::<RowModel>::empty());
    assert(Messages::without_old(one.drop_last(), space, cutoff).len() == 0);
    assert(Messages::without_old(one, space, cutoff) =~= (if server::space_of(x.team) == space && (x.timestamp.secs < cutoff.secs || (
        x.timestamp.secs == cutoff.secs && x.timestamp.nanos < cutoff.nanos)) {
            Seq::empty()
        } else {
            seq![x]
        }));
    if b.len() == 0 {
        assert(a + b =~= a);
        assert(Messages::without_old(a, space, cutoff) + Messages::without_old(b, space, cutoff) =~= Messages::without_old(a, space, cutoff));
    } else {
        each_row_is_cleaned_alone(a, b.drop_last(), x, space, cutoff);
        assert((a + b).drop_last() =~= a + b.drop_last());
        assert((a + b).last() == b.last());
        assert(Messages::without_old(a + b, space, cutoff) =~= Messages::without_old(a, space, cutoff) + Messages::without_old(b, space, cutoff));
    }
}

/// Every stored row whose time can be read is read as it stands, and the order stays.
pub proof fn each_stored_row_is_read_alone(
    a: Seq<StoredMessage>,
    b: Seq<StoredMessage>,
    x: StoredMessage,
)
    ensures
        rows_from(a + b) == rows_from(a) + rows_from(b),
        rows_from(seq![x]) == (if clock::time_of(x.timestamp@) is Some {
            seq![
                RowModel {
                    id: x.id@,
                    hash: x.hash@,
                    sender: x.sender@,
                    recipient: x.recipient@,
                    content: x.content@,
                    refs: x.refs@,
                    timestamp: clock::time_of(x.timestamp@)->0,
                    read_at: if x.read_at is Some {
                        clock::time_of(x.read_at->0@)
                    } else {
                        None
                    },
                    team: if x.team_id is Some {
                        Some(x.team_id->0@)
                    } else {
                        None
                    },
                },
            ]
        } else {
            Seq::empty()
        }),
    decreases b.len(),
{
    let one = seq![x];
    assert(one.drop_last() =~= Seq::<StoredMessage>::empty());
    assert(rows_from(one.drop_last()).len() == 0);
    assert(rows_from(one) =~= (if clock::time_of(x.timestamp@) is Some {
            seq![
                RowModel {
                    id: x.id@,
                    hash: x.hash@,
                    sender: x.sender@,
                    recipient: x.recipient@,
                    content: x.content@,
                    refs: x.refs@,
                    timestamp: clock::time_of(x.timestamp@)->0,
                    read_at: if x.read_at is Some {
                        clock::time_of(x.read_at->0@)
                    } else {
                        None
                    },
                    team: if x.team_id is Some {
                        Some(x.team_id->0@)
                    } else {
                        None
                    },
                },
            ]
        } else {
            Seq::empty()
        }));
    if b.len() == 0 {
        assert(a + b =~= a);
        assert(rows_from(a) + rows_from(b) =~= rows_from(a));
    } else {
        each_stored_row_is_read_alone(a, b.drop_last(), x);
        assert((a + b).drop_last() =~= a + b.drop_last());
        assert((a + b).last() == b.last());
        assert(rows_from(a + b) =~= rows_from(a) + rows_from(b));
    }
}

/// Whoever reads a row is given what it holds, all of it.
pub proof fn readers_are_given_the_row(r: RowModel)
    ensures
        ({
            let m = message_of(r);
            &&& m.id == r.id && m.hash == r.hash && m.sender == r.sender
            &&& m.recipient == r.recipient && m.content == r.content
            &&& m.timestamp == r.timestamp && m.read_at == r.read_at
            &&& r.refs.len() == 0 ==> m.refs.len() == 0
            &&& r.refs.len() > 0 ==> m.refs == text::pieces(r.refs, ',')
        }),
{
}

/// Only what can be written is stored, and it is read back as it was.
pub proof fn rows_with_valid_times_are_stored(r: RowModel)
    ensures
        storable(r) <==> r.timestamp.valid() && (r.read_at is None || r.read_at->0.valid()),
{
}

} // verus!
