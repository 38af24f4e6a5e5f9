//! The client of the message server: which messages are shown, what is remembered between runs,
//! how links and listings read, and what the server's answers mean.
use crate::clock;
use crate::clock::Timestamp;
use crate::outside;
use crate::table;
use crate::text;
use vstd::prelude::*;

pub mod listing;

verus! {

/// The content that tells every stream to end.
pub const STOP_WATCH_SIGNAL: &'static str = "__COLLAB_STOP_WATCH__";

// ── Types ───────────────────────────────────────────────────────────────────
/// A message as the server hands it out.
pub struct Message {
    pub id: String,
    pub hash: String,
    pub sender: String,
    pub recipient: String,
    pub content: String,
    pub refs: Vec<String>,
    pub timestamp: Timestamp,
}

/// A worker on the roster.
pub struct WorkerInfo {
    pub instance_id: String,
    pub role: String,
    pub last_seen: Timestamp,
    pub message_count: usize,
}

/// A task.
pub struct Todo {
    pub id: String,
    pub hash: String,
    pub instance: String,
    pub assigned_by: String,
    pub description: String,
    pub created_at: Timestamp,
    pub completed_at: Option<Timestamp>,
}

/// The outcome of asking for the lease of an identity.
pub enum LeaseOutcome {
    /// The lease is held: new, extended, or taken over from a holder that went silent.
    Held { taken_over: bool },
    /// Another process holds it.
    Conflict { holder_pid: i64, holder_host: String, seconds_since_heartbeat: i64 },
}

/// Where the server is, and as whom it is spoken to.
pub struct CollabClient {
    pub base_url: String,
    pub instance_id: String,
    pub token: Option<String>,
}

impl CollabClient {
    /// A client for one identity.
    pub fn new(base_url: &str, instance_id: &str, token: Option<&str>) -> (c: CollabClient)
        ensures
            c.base_url@ == base_url@,
            c.instance_id@ == instance_id@,
            c.token is Some == token is Some,
            c.token matches Some(t) ==> t@ == token->0@,
    {
        CollabClient {
            base_url: base_url.to_owned(),
            instance_id: instance_id.to_owned(),
            token: match token {
                Some(t) => Some(t.to_owned()),
                None => None,
            },
        }
    }

    /// The value of the authorization header, where there is a token.
    pub fn authorization(&self) -> (r: Option<String>)
        ensures
            text::opt_text(r) == (match text::opt_text(self.token) {
                Some(t) => Some("Bearer "@ + t),
                None => None,
            }),
    {
        match &self.token {
            Some(t) => Some(text::glue("Bearer ", t.as_str())),
            None => None,
        }
    }

    /// The address of a collection that belongs to an identity, such as its messages.
    pub fn url_of(&self, collection: &str, instance: &str) -> (r: String)
        ensures
            r@ == self.base_url@ + "/"@ + collection@ + "/"@ + instance@,
    {
        let mut r = text::glue3(self.base_url.as_str(), "/", collection);
        r.append("/");
        r.append(instance);
        r
    }
}

// ── What the server's answers mean ──────────────────────────────────────────
pub open spec fn is_success(status: u16) -> bool {
    200 <= status < 300
}

/// The details of a lease that somebody else holds.
pub struct Holder {
    pub pid: i64,
    pub host: String,
    pub seconds_since_heartbeat: i64,
}

/// What the server's answer to a request for a lease means; nothing for an answer that is
/// neither a lease nor a conflict.
pub fn lease_outcome(status: u16, taken_over: bool, holder: Option<Holder>) -> (r: Option<
    LeaseOutcome,
>)
    ensures
        match r {
            Some(LeaseOutcome::Held { taken_over: t }) => is_success(status) && t == taken_over,
            Some(LeaseOutcome::Conflict { holder_pid, holder_host, seconds_since_heartbeat }) => {
                &&& status == 409
                &&& holder is Some
                &&& holder_pid == holder->0.pid
                &&& holder_host == holder->0.host
                &&& seconds_since_heartbeat == holder->0.seconds_since_heartbeat
            },
            None => !is_success(status) && !(status == 409 && holder is Some),
        },
{
    if 200 <= status && status < 300 {
        return Some(LeaseOutcome::Held { taken_over });
    }
    if status != 409 {
        return None;
    }
    match holder {
        Some(h) => Some(
            LeaseOutcome::Conflict {
                holder_pid: h.pid,
                holder_host: h.host,
                seconds_since_heartbeat: h.seconds_since_heartbeat,
            },
        ),
        None => None,
    }
}

/// What closing a task came to.
#[derive(Clone, Copy, PartialEq, Eq, Structural, Debug)]
pub enum DoneOutcome {
    Done,
    AlreadyDone,
    NotFound,
    Failed(u16),
}

/// What the server's answer to closing a task means.
pub fn done_outcome(status: u16) -> (r: DoneOutcome)
    ensures
        r == (if status == 204 {
            DoneOutcome::Done
        } else if status == 409 {
            DoneOutcome::AlreadyDone
        } else if status == 404 {
            DoneOutcome::NotFound
        } else {
            DoneOutcome::Failed(status)
        }),
{
    if status == 204 {
        DoneOutcome::Done
    } else if status == 409 {
        DoneOutcome::AlreadyDone
    } else if status == 404 {
        DoneOutcome::NotFound
    } else {
        DoneOutcome::Failed(status)
    }
}

// ── Links ───────────────────────────────────────────────────────────────────
/// `s` without the suffix `.git`, however often it stands there.
pub open spec fn without_git(s: Seq<char>) -> Seq<char>
    decreases s.len(),
{
    if ".git"@.is_suffix_of(s) && ".git"@.len() > 0 {
        without_git(s.take(s.len() - ".git"@.len()))
    } else {
        s
    }
}

/// `s` with its first colon turned into a slash.
pub open spec fn colon_to_slash(s: Seq<char>) -> Seq<char> {
    match text::cut_at(s, ':') {
        Some(p) => p.0 + seq!['/'] + p.1,
        None => s,
    }
}

/// The address of a repository, from the address of a git remote.
pub open spec fn remote_address(raw: Seq<char>) -> Seq<char> {
    let s = text::trimmed(raw);
    match text::after_prefix(s, "git@"@) {
        Some(rest) => "https://"@ + colon_to_slash(without_git(rest)),
        None => without_git(s),
    }
}

/// The address of the repository: the one configured, else the one of the git remote.
pub open spec fn repository(configured: Option<Seq<char>>, remote: Option<Seq<char>>) -> Option<
    Seq<char>,
> {
    let c = match configured {
        Some(s) => text::strip_back(text::trimmed(s), text::Class::Only('/')),
        None => Seq::empty(),
    };
    if c.len() > 0 {
        Some(c)
    } else {
        match remote {
            Some(s) => Some(remote_address(s)),
            None => None,
        }
    }
}

fn drop_git(s: &str) -> (r: String)
    ensures
        r@ == without_git(s@),
{
    let mut cur = s.to_owned();
    proof {
        reveal_strlit(".git");
    }
    while text::ends_with(cur.as_str(), ".git")
        invariant
            without_git(cur@) == without_git(s@),
            ".git"@.len() == 4,
        decreases cur@.len(),
    {
        let v = text::chars_of(cur.as_str());
        cur = text::slice_of(&v, 0, v.len() - 4);
    }
    cur
}

/// The address of a repository, from the address of a git remote.
pub fn remote_url(raw: &str) -> (r: String)
    ensures
        r@ == remote_address(raw@),
{
    let s = text::trim(raw);
    match text::strip_prefix(s.as_str(), "git@") {
        Some(rest) => {
            let rest = drop_git(rest.as_str());
            match text::split_once(rest.as_str(), ':') {
                Some(p) => {
                    let mut r = text::glue("https://", p.0.as_str());
                    r.push('/');
                    r.append(p.1.as_str());
                    assert(r@ =~= "https://"@ + (p.0@ + seq!['/'] + p.1@));
                    r
                },
                None => text::glue("https://", rest.as_str()),
            }
        },
        None => drop_git(s.as_str()),
    }
}

/// The address of the repository, given what is configured and the address of the git remote.
pub fn repo_url(configured: &Option<String>, remote: &Option<String>) -> (r: Option<String>)
    ensures
        text::opt_text(r) == repository(text::opt_text(*configured), text::opt_text(*remote)),
{
    if let Some(s) = configured {
        let c = text::trim_back(text::trim(s.as_str()).as_str(), text::Class::Only('/'));
        if !c.as_str().is_empty() {
            return Some(c);
        }
    }
    match remote {
        Some(s) => Some(remote_url(s.as_str())),
        None => None,
    }
}

/// A hash as it is printed: a terminal hyperlink to the commit where the output is a terminal
/// and the repository is known.
pub open spec fn linked(hash: Seq<char>, tty: bool, repo: Option<Seq<char>>) -> Seq<char> {
    if tty && repo is Some {
        "\u{1b}]8;;"@ + (repo->0 + "/commit/"@ + hash) + "\u{1b}\\"@ + hash + "\u{1b}]8;;\u{1b}\\"@
    } else {
        hash
    }
}

/// A hash as it is printed.
pub fn link_hash(hash: &str, tty: bool, repo: &Option<String>) -> (r: String)
    ensures
        r@ == linked(hash@, tty, text::opt_text(*repo)),
{
    if tty {
        if let Some(base) = repo {
            let url = text::glue3(base.as_str(), "/commit/", hash);
            let mut r = text::glue3("\u{1b}]8;;", url.as_str(), "\u{1b}\\");
            r.append(hash);
            r.append("\u{1b}]8;;\u{1b}\\");
            return r;
        }
    }
    hash.to_owned()
}

// ── What is remembered ──────────────────────────────────────────────────────
/// What the client remembers from one run to the next.
pub struct ReadState {
    /// For each identity, the time of the newest message seen.
    pub last_read: Vec<(String, Timestamp)>,
    /// For each identity, the role it last announced.
    pub roles: Vec<(String, String)>,
    /// Hashes of messages that were replied to.
    pub replied: Vec<String>,
    /// For each identity, whom it last wrote to.
    pub last_compose_recipient: Vec<(String, String)>,
}

impl Default for ReadState {
    fn default() -> (s: Self)
        ensures
            s.last_read@.len() == 0,
            s.roles@.len() == 0,
            s.replied@.len() == 0,
            s.last_compose_recipient@.len() == 0,
    {
        ReadState {
            last_read: Vec::new(),
            roles: Vec::new(),
            replied: Vec::new(),
            last_compose_recipient: Vec::new(),
        }
    }
}

impl ReadState {
    /// The time of the newest message that `me` has seen.
    pub fn seen_until(&self, me: &str) -> (r: Option<Timestamp>)
        ensures
            r == table::time_in(self.last_read@, me@),
    {
        table::get_time(&self.last_read, me)
    }

    /// Notes that `me` has seen a message of this time.
    pub fn mark_seen(&mut self, me: &str, newest: Timestamp)
        ensures
            forall|k: Seq<char>|
                #[trigger] table::time_in(final(self).last_read@, k) == (if k == me@ {
                    Some(newest)
                } else {
                    table::time_in(old(self).last_read@, k)
                }),
            final(self).roles == old(self).roles,
            final(self).replied == old(self).replied,
            final(self).last_compose_recipient == old(self).last_compose_recipient,
    {
        table::set_time(&mut self.last_read, me, newest);
    }

    /// The role to announce: the one given now, which is remembered, else the remembered one.
    pub fn effective_role(&mut self, me: &str, given: &Option<String>) -> (r: Option<String>)
        ensures
            text::opt_text(r) == (match text::opt_text(*given) {
                Some(s) => Some(s),
                None => table::text_in(old(self).roles@, me@),
            }),
            forall|k: Seq<char>|
                #[trigger] table::text_in(final(self).roles@, k) == (if k == me@ && *given is Some {
                    text::opt_text(*given)
                } else {
                    table::text_in(old(self).roles@, k)
                }),
            final(self).last_read == old(self).last_read,
            final(self).replied == old(self).replied,
            final(self).last_compose_recipient == old(self).last_compose_recipient,
    {
        match given {
            Some(s) => {
                table::set_text(&mut self.roles, me, s.as_str());
                Some(s.clone())
            },
            None => table::get_text(&self.roles, me),
        }
    }

    /// Notes that the messages with these hashes were replied to.
    pub fn mark_replied(&mut self, refs: &Vec<String>)
        ensures
            forall|h: Seq<char>|
                #[trigger] text::texts(final(self).replied@).contains(h) <==> text::texts(
                    old(self).replied@,
                ).contains(h) || text::texts(refs@).contains(h),
            final(self).last_read == old(self).last_read,
            final(self).roles == old(self).roles,
            final(self).last_compose_recipient == old(self).last_compose_recipient,
    {
        let mut i: usize = 0;
        let ghost start = text::texts(self.replied@);
        let ghost all = text::texts(refs@);
        while i < refs.len()
            invariant
                i <= refs@.len(),
                all == text::texts(refs@),
                self.last_read == old(self).last_read,
                self.roles == old(self).roles,
                self.last_compose_recipient == old(self).last_compose_recipient,
                start == text::texts(old(self).replied@),
                forall|h: Seq<char>|
                    #[trigger] text::texts(self.replied@).contains(h) <==> start.contains(h)
                        || all.take(i as int).contains(h),
            decreases refs@.len() - i,
        {
            let ghost before = text::texts(self.replied@);
            assert(all.take(i + 1) =~= all.take(i as int).push(all[i as int]));
            proof {
                broadcast use vstd::seq_lib::group_seq_properties;

            }
            if !text::list_has(&self.replied, refs[i].as_str()) {
                self.replied.push(refs[i].clone());
                assert(text::texts(self.replied@) =~= before.push(all[i as int]));
            }
            assert forall|h: Seq<char>|
                #[trigger] text::texts(self.replied@).contains(h) <==> start.contains(h)
                    || all.take(i + 1).contains(h) by {
                broadcast use vstd::seq_lib::group_seq_properties;

            }
            i += 1;
        }
        assert(all.take(i as int) =~= all);
    }
}

// ── Choosing messages ───────────────────────────────────────────────────────
/// A reason to keep a message.
pub enum Keep {
    /// It is not the signal that ends streams.
    NotSignal,
    /// It is not something that this identity told everybody.
    NotOwnBroadcast(String),
    /// It is later than this time.
    After(Timestamp),
    /// It was sent by this identity.
    From(String),
    /// It was sent by or to this identity.
    With(String),
}

/// Whether `m` is kept.
pub open spec fn keeps(k: Keep, m: Message) -> bool {
    match k {
        Keep::NotSignal => text::trimmed(m.content@) != STOP_WATCH_SIGNAL@,
        Keep::NotOwnBroadcast(me) => !(m.sender@ == me@ && m.recipient@ == "all"@),
        Keep::After(t) => t.earlier(m.timestamp),
        Keep::From(s) => m.sender@ == text::bare_name(s@),
        Keep::With(s) => m.sender@ == s@ || m.recipient@ == s@,
    }
}

/// The messages that are kept, in order.
pub open spec fn kept(messages: Seq<Message>, k: Keep) -> Seq<Message>
    decreases messages.len(),
{
    if messages.len() == 0 {
        Seq::empty()
    } else {
        let r = kept(messages.drop_last(), k);
        if keeps(k, messages.last()) {
            r.push(messages.last())
        } else {
            r
        }
    }
}

/// A message is among those kept if and only if it was there and is to be kept.
pub proof fn kept_meaning(messages: Seq<Message>, k: Keep, m: Message)
    ensures
        kept(messages, k).contains(m) <==> messages.contains(m) && keeps(k, m),
    decreases messages.len(),
{
    if messages.len() > 0 {
        let init = messages.drop_last();
        let r = kept(init, k);
        let all = kept(messages, k);
        kept_meaning(init, k, m);
        if messages.contains(m) {
            let i = choose|i: int| 0 <= i < messages.len() && messages[i] == m;
            if i < init.len() {
                assert(init[i] == m);
            }
        }
        if init.contains(m) {
            let i = choose|i: int| 0 <= i < init.len() && init[i] == m;
            assert(messages[i] == m);
        }
        if r.contains(m) {
            let i = choose|i: int| 0 <= i < r.len() && r[i] == m;
            assert(all[i] == m);
        }
        if all.contains(m) {
            let i = choose|i: int| 0 <= i < all.len() && all[i] == m;
            if i < r.len() {
                assert(r[i] == m);
            } else {
                assert(messages[messages.len() - 1] == m);
            }
        }
        if keeps(k, messages.last()) {
            assert(all[r.len() as int] == messages.last());
        }
    }
}

fn is_kept(k: &Keep, m: &Message) -> (r: bool)
    ensures
        r == keeps(*k, *m),
{
    match k {
        Keep::NotSignal => !text::same(
            text::trim(m.content.as_str()).as_str(),
            STOP_WATCH_SIGNAL,
        ),
        Keep::NotOwnBroadcast(me) => !(text::same(m.sender.as_str(), me.as_str()) && text::same(
            m.recipient.as_str(),
            "all",
        )),
        Keep::After(t) => t.is_before(m.timestamp),
        Keep::From(s) => text::same(m.sender.as_str(), text::without_at(s.as_str()).as_str()),
        Keep::With(s) => text::same(m.sender.as_str(), s.as_str()) || text::same(
            m.recipient.as_str(),
            s.as_str(),
        ),
    }
}

/// Keeps the messages that `k` keeps, in order.
pub fn keep(messages: Vec<Message>, k: &Keep) -> (r: Vec<Message>)
    ensures
        r@ == kept(messages@, *k),
{
    let mut rest = messages;
    let ghost all = messages@;
    let mut out: Vec<Message> = Vec::new();
    let ghost mut n: int = 0;
    assert(all.skip(0) =~= all);
    while rest.len() > 0
        invariant
            0 <= n <= all.len(),
            rest@ == all.skip(n),
            out@ == kept(all.take(n), *k),
        decreases rest@.len(),
    {
        let m = rest.remove(0);
        proof {
            assert(m == all[n]);
            assert(all.take(n + 1).drop_last() =~= all.take(n));
            assert(all.skip(n).remove(0) =~= all.skip(n + 1));
            n = n + 1;
        }
        if is_kept(k, &m) {
            out.push(m);
        }
    }
    assert(all.take(n) =~= all);
    out
}

/// The latest time among the messages.
pub open spec fn newest(messages: Seq<Message>) -> Option<Timestamp>
    decreases messages.len(),
{
    if messages.len() == 0 {
        None
    } else {
        let t = messages.last().timestamp;
        match newest(messages.drop_last()) {
            Some(u) => if u.earlier(t) {
                Some(t)
            } else {
                Some(u)
            },
            None => Some(t),
        }
    }
}

/// The latest time in other words: one of the messages has it and none is later.
pub proof fn newest_meaning(messages: Seq<Message>)
    ensures
        newest(messages) is None <==> messages.len() == 0,
        newest(messages) matches Some(t) ==> (exists|i: int|
            0 <= i < messages.len() && (#[trigger] messages[i]).timestamp == t) && (forall|i: int|
            0 <= i < messages.len() ==> !t.earlier((#[trigger] messages[i]).timestamp)),
    decreases messages.len(),
{
    if messages.len() > 0 {
        let init = messages.drop_last();
        newest_meaning(init);
        assert(messages[messages.len() - 1] == messages.last());
        if init.len() > 0 {
            let u = newest(init)->0;
            let j = choose|j: int| 0 <= j < init.len() && (#[trigger] init[j]).timestamp == u;
            assert(messages[j].timestamp == u);
            assert forall|i: int| 0 <= i < messages.len() implies !(newest(messages)->0).earlier(
                (#[trigger] messages[i]).timestamp,
            ) by {
                if i < init.len() {
                    assert(init[i] == messages[i]);
                }
            }
        }
    }
}

/// The latest time among the messages.
pub fn newest_time(messages: &Vec<Message>) -> (r: Option<Timestamp>)
    ensures
        r == newest(messages@),
{
    let mut best: Option<Timestamp> = None;
    let mut i: usize = 0;
    assert(messages@.take(0) =~= Seq::<Message>::empty());
    while i < messages.len()
        invariant
            i <= messages@.len(),
            best == newest(messages@.take(i as int)),
        decreases messages@.len() - i,
    {
        assert(messages@.take(i + 1).drop_last() =~= messages@.take(i as int));
        let t = messages[i].timestamp;
        best = match best {
            Some(u) => if u.is_before(t) {
                Some(t)
            } else {
                Some(u)
            },
            None => Some(t),
        };
        i += 1;
    }
    assert(messages@.take(i as int) =~= messages@);
    best
}

/// Which messages a listing starts from.
#[derive(Clone, Copy, PartialEq, Eq, Structural, Debug)]
pub enum Since {
    /// All of them.
    Beginning,
    /// Those later than this time.
    Time(Timestamp),
}

/// The messages that somebody is shown: no signals and no broadcasts of their own, later than the
/// start of the listing, and of one sender where one is asked for.
pub open spec fn inbox(
    messages: Seq<Message>,
    me: String,
    since: Since,
    from: Option<String>,
) -> Seq<Message> {
    let a = kept(kept(messages, Keep::NotSignal), Keep::NotOwnBroadcast(me));
    let b = match since {
        Since::Beginning => a,
        Since::Time(t) => kept(a, Keep::After(t)),
    };
    match from {
        Some(s) => kept(b, Keep::From(s)),
        None => b,
    }
}

/// The messages that somebody is shown.
pub fn list_messages(messages: Vec<Message>, me: &String, since: Since, from: &Option<String>) -> (r:
    Vec<Message>)
    ensures
        r@ == inbox(messages@, *me, since, *from),
{
    let a = keep(keep(messages, &Keep::NotSignal), &Keep::NotOwnBroadcast(me.clone()));
    let b = match since {
        Since::Beginning => a,
        Since::Time(t) => keep(a, &Keep::After(t)),
    };
    match from {
        Some(s) => keep(b, &Keep::From(s.clone())),
        None => b,
    }
}

/// What is known of the message behind which a listing is to start.
#[derive(Clone, Copy, PartialEq, Eq, Structural, Debug)]
pub enum Anchor {
    /// No message was named.
    NotAsked,
    /// The history, in which the message would be, could not be had.
    Unreachable,
    /// The history was searched.
    Searched(Option<Timestamp>),
}

/// Where a listing starts: behind the message that was named, else behind what was read where
/// only unread messages are asked for. Nowhere, where the message is not found.
pub fn listing_start(anchor: Anchor, unread_only: bool, last_read: Option<Timestamp>) -> (r: Option<
    Since,
>)
    ensures
        r == (match anchor {
            Anchor::NotAsked => Some(
                match last_read {
                    Some(t) => if unread_only {
                        Since::Time(t)
                    } else {
                        Since::Beginning
                    },
                    None => Since::Beginning,
                },
            ),
            Anchor::Unreachable => Some(Since::Beginning),
            Anchor::Searched(Some(t)) => Some(Since::Time(t)),
            Anchor::Searched(None) => None,
        }),
{
    match anchor {
        Anchor::NotAsked => match last_read {
            Some(t) => if unread_only {
                Some(Since::Time(t))
            } else {
                Some(Since::Beginning)
            },
            None => Some(Since::Beginning),
        },
        Anchor::Unreachable => Some(Since::Beginning),
        Anchor::Searched(Some(t)) => Some(Since::Time(t)),
        Anchor::Searched(None) => None,
    }
}

/// The time up to which somebody has seen messages, once `messages` have been shown.
pub open spec fn seen_after(last_read: Option<Timestamp>, messages: Seq<Message>) -> Option<
    Timestamp,
> {
    match newest(messages) {
        Some(t) => match last_read {
            Some(u) => if u.earlier(t) {
                Some(t)
            } else {
                Some(u)
            },
            None => Some(t),
        },
        None => last_read,
    }
}

/// The time up to which somebody has seen messages, once `messages` have been shown.
pub fn update_last_read(last_read: Option<Timestamp>, messages: &Vec<Message>) -> (r: Option<
    Timestamp,
>)
    ensures
        r == seen_after(last_read, messages@),
{
    match newest_time(messages) {
        Some(t) => match last_read {
            Some(u) => if u.is_before(t) {
                Some(t)
            } else {
                Some(u)
            },
            None => Some(t),
        },
        None => last_read,
    }
}

/// What has been shown is not shown again as unread.
pub proof fn shown_messages_are_read(
    messages: Seq<Message>,
    last_read: Option<Timestamp>,
    m: Message,
)
    requires
        messages.contains(m),
    ensures
        seen_after(last_read, messages) is Some,
        !keeps(Keep::After(seen_after(last_read, messages)->0), m),
{
    newest_meaning(messages);
    let i = choose|i: int| 0 <= i < messages.len() && messages[i] == m;
    assert(!(newest(messages)->0).earlier(messages[i].timestamp));
}

/// A prefix of a hash as it is typed: without `@` signs and in small letters.
pub open spec fn typed_prefix(s: Seq<char>) -> Seq<char> {
    outside::lowercase(text::bare_name(s))
}

/// A prefix of a hash as it is typed.
pub fn hash_prefix(s: &str) -> (r: String)
    ensures
        r@ == typed_prefix(s@),
{
    outside::to_lowercase(text::without_at(s).as_str())
}

/// The indices of the messages whose hash begins with `prefix`.
pub open spec fn matching(messages: Seq<Message>, prefix: Seq<char>) -> Seq<int>
    decreases messages.len(),
{
    if messages.len() == 0 {
        Seq::empty()
    } else {
        let r = matching(messages.drop_last(), prefix);
        if prefix.is_prefix_of(messages.last().hash@) {
            r.push(messages.len() - 1)
        } else {
            r
        }
    }
}

/// The outcome of looking a message up by the front of its hash.
#[derive(Clone, Copy, PartialEq, Eq, Structural, Debug)]
pub enum Lookup {
    /// No message matches.
    Missing,
    /// The message at this index, and no other, matches.
    Found(usize),
    /// Several messages match.
    Ambiguous(usize),
}

/// Looks a message up by the front of its hash.
pub fn find_message(messages: &Vec<Message>, prefix: &str) -> (r: Lookup)
    ensures
        ({
            let m = matching(messages@, prefix@);
            match r {
                Lookup::Missing => m.len() == 0,
                Lookup::Found(i) => m.len() == 1 && m[0] == i,
                Lookup::Ambiguous(n) => m.len() > 1 && n == m.len(),
            }
        }),
{
    let mut first: usize = 0;
    let mut n: usize = 0;
    let mut i: usize = 0;
    assert(messages@.take(0) =~= Seq::<Message>::empty());
    while i < messages.len()
        invariant
            i <= messages@.len(),
            n <= i,
            n == matching(messages@.take(i as int), prefix@).len(),
            n > 0 ==> first == matching(messages@.take(i as int), prefix@)[0],
        decreases messages@.len() - i,
    {
        assert(messages@.take(i + 1).drop_last() =~= messages@.take(i as int));
        if text::starts_with(messages[i].hash.as_str(), prefix) {
            if n == 0 {
                first = i;
            }
            n += 1;
        }
        i += 1;
    }
    assert(messages@.take(i as int) =~= messages@);
    if n == 0 {
        Lookup::Missing
    } else if n == 1 {
        Lookup::Found(first)
    } else {
        Lookup::Ambiguous(n)
    }
}

/// The time of the first message whose hash begins with `prefix`.
pub fn anchor_time(messages: &Vec<Message>, prefix: &str) -> (r: Option<Timestamp>)
    ensures
        match r {
            Some(t) => exists|i: int|
                0 <= i < messages@.len() && prefix@.is_prefix_of((#[trigger] messages@[i]).hash@)
                    && messages@[i].timestamp == t && (forall|j: int|
                    0 <= j < i ==> !prefix@.is_prefix_of((#[trigger] messages@[j]).hash@)),
            None => forall|j: int|
                0 <= j < messages@.len() ==> !prefix@.is_prefix_of(
                    (#[trigger] messages@[j]).hash@,
                ),
        },
{
    let mut i: usize = 0;
    while i < messages.len()
        invariant
            i <= messages@.len(),
            forall|j: int| 0 <= j < i ==> !prefix@.is_prefix_of((#[trigger] messages@[j]).hash@),
        decreases messages@.len() - i,
    {
        if text::starts_with(messages[i].hash.as_str(), prefix) {
            assert(prefix@.is_prefix_of(messages@[i as int].hash@));
            return Some(messages[i].timestamp);
        }
        i += 1;
    }
    None
}

/// The message that a reply to `sender` answers: the latest one that `sender` sent, and of
/// several with the same time the last one listed.
pub open spec fn latest_from(messages: Seq<Message>, sender: Seq<char>) -> Option<int>
    decreases messages.len(),
{
    if messages.len() == 0 {
        None
    } else {
        let r = latest_from(messages.drop_last(), sender);
        let m = messages.last();
        if m.sender@ != sender {
            r
        } else {
            match r {
                Some(i) => if m.timestamp.earlier(messages[i].timestamp) {
                    r
                } else {
                    Some(messages.len() - 1)
                },
                None => Some(messages.len() - 1),
            }
        }
    }
}

/// The index of the message that a reply to `sender` answers.
pub fn reply_to_latest(messages: &Vec<Message>, sender: &str) -> (r: Option<usize>)
    ensures
        match r {
            Some(i) => i < messages@.len() && latest_from(messages@, text::bare_name(sender@))
                == Some(i as int),
            None => latest_from(messages@, text::bare_name(sender@)) is None,
        },
{
    let name = text::without_at(sender);
    let mut best: Option<usize> = None;
    let mut i: usize = 0;
    assert(messages@.take(0) =~= Seq::<Message>::empty());
    while i < messages.len()
        invariant
            i <= messages@.len(),
            name@ == text::bare_name(sender@),
            latest_from(messages@.take(i as int), name@) == (match best {
                Some(k) => Some(k as int),
                None => None,
            }),
            best matches Some(k) ==> k < i,
        decreases messages@.len() - i,
    {
        assert(messages@.take(i + 1).drop_last() =~= messages@.take(i as int));
        if text::same(messages[i].sender.as_str(), name.as_str()) {
            best = match best {
                Some(k) => if messages[i].timestamp.is_before(messages[k].timestamp) {
                    Some(k)
                } else {
                    Some(i)
                },
                None => Some(i),
            };
        }
        i += 1;
    }
    assert(messages@.take(i as int) =~= messages@);
    best
}

/// The message that a reply answers is from the sender, and none of theirs is later.
pub proof fn replies_answer_the_latest(messages: Seq<Message>, sender: Seq<char>)
    ensures
        match latest_from(messages, sender) {
            Some(i) => 0 <= i < messages.len() && messages[i].sender@ == sender && (forall|j: int|
                0 <= j < messages.len() && (#[trigger] messages[j]).sender@ == sender
                    ==> !messages[i].timestamp.earlier(messages[j].timestamp)),
            None => forall|j: int|
                0 <= j < messages.len() ==> (#[trigger] messages[j]).sender@ != sender,
        },
    decreases messages.len(),
{
    if messages.len() > 0 {
        let init = messages.drop_last();
        replies_answer_the_latest(init, sender);
        assert(forall|j: int| 0 <= j < init.len() ==> #[trigger] messages[j] == init[j]);
        assert(messages[messages.len() - 1] == messages.last());
    }
}

/// What each way of keeping keeps.
pub proof fn filters_are_exact(m: Message, s: String, t: Timestamp)
    ensures
        keeps(Keep::NotSignal, m) <==> text::trimmed(m.content@) != "__COLLAB_STOP_WATCH__"@,
        keeps(Keep::NotOwnBroadcast(s), m) <==> m.sender@ != s@ || m.recipient@ != "all"@,
        keeps(Keep::After(t), m) <==> m.timestamp.secs > t.secs || (m.timestamp.secs == t.secs
            && m.timestamp.nanos > t.nanos),
        keeps(Keep::From(s), m) <==> m.sender@ == text::bare_name(s@),
        keeps(Keep::With(s), m) <==> m.sender@ == s@ || m.recipient@ == s@,
{
}

/// A message is listed exactly where it is none of the signals, no broadcast of one's own, later than
/// what was seen, and from the one asked for.
pub proof fn inboxes_are_exact(
    messages: Seq<Message>,
    me: String,
    since: Since,
    from: Option<String>,
    m: Message,
)
    ensures
        inbox(messages, me, since, from).contains(m) <==> {
            &&& messages.contains(m)
            &&& text::trimmed(m.content@) != "__COLLAB_STOP_WATCH__"@
            &&& !(m.sender@ == me@ && m.recipient@ == "all"@)
            &&& since matches Since::Time(t) ==> t.earlier(m.timestamp)
            &&& from matches Some(s) ==> m.sender@ == text::bare_name(s@)
        },
{
    let a = kept(messages, Keep::NotSignal);
    let b = kept(a, Keep::NotOwnBroadcast(me));
    kept_meaning(messages, Keep::NotSignal, m);
    kept_meaning(a, Keep::NotOwnBroadcast(me), m);
    let c = match since {
        Since::Beginning => b,
        Since::Time(t) => {
            kept_meaning(b, Keep::After(t), m);
            kept(b, Keep::After(t))
        },
    };
    if let Some(s) = from {
        kept_meaning(c, Keep::From(s), m);
    }
}

/// A message answers to a hash exactly where its own begins with it; each is found once, in order.
pub proof fn matches_are_exact(messages: Seq<Message>, prefix: Seq<char>, i: int)
    ensures
        matching(messages, prefix).contains(i) <==> 0 <= i < messages.len() && prefix.is_prefix_of(
            messages[i].hash@,
        ),
        forall|a: int, b: int|
            0 <= a < b < matching(messages, prefix).len() ==> (#[trigger] matching(
                messages,
                prefix,
            )[a]) < (#[trigger] matching(messages, prefix)[b]),
        forall|a: int|
            0 <= a < matching(messages, prefix).len() ==> 0 <= (#[trigger] matching(
                messages,
                prefix,
            )[a]) < messages.len(),
    decreases messages.len(),
{
    if messages.len() > 0 {
        let init = messages.drop_last();
        let r = matching(init, prefix);
        let all = matching(messages, prefix);
        matches_are_exact(init, prefix, i);
        if all.contains(i) {
            let k = choose|k: int| 0 <= k < all.len() && all[k] == i;
            if k < r.len() {
                assert(r[k] == i);
                assert(init[i] == messages[i]);
            }
        }
        if 0 <= i < messages.len() && prefix.is_prefix_of(messages[i].hash@) {
            if i < init.len() {
                assert(init[i] == messages[i]);
                let k = choose|k: int| 0 <= k < r.len() && r[k] == i;
                assert(all[k] == i);
            } else {
                assert(all[r.len() as int] == i);
            }
        }
        assert forall|a: int, b: int| 0 <= a < b < all.len() implies (#[trigger] all[a]) < (
        #[trigger] all[b]) by {
            assert(all[a] == r[a]);
            if b < r.len() {
                assert(all[b] == r[b]);
            }
        }
        assert forall|a: int| 0 <= a < all.len() implies 0 <= (#[trigger] all[a])
            < messages.len() by {
            if a < r.len() {
                assert(all[a] == r[a]);
            }
        }
    }
}

/// What was seen never goes back, and reaches the newest message shown.
pub proof fn seen_times_only_grow(last_read: Option<Timestamp>, messages: Seq<Message>)
    ensures
        messages.len() == 0 ==> seen_after(last_read, messages) == last_read,
        last_read matches Some(u) ==> seen_after(last_read, messages) is Some && !(seen_after(
            last_read,
            messages,
        )->0).earlier(u),
        seen_after(last_read, messages) == last_read || exists|i: int|
            0 <= i < messages.len() && seen_after(last_read, messages) == Some(
                (#[trigger] messages[i]).timestamp,
            ),
{
    newest_meaning(messages);
}

/// The ending of a repository is dropped as often as it stands there, and nothing else is.
pub proof fn git_endings_are_dropped(s: Seq<char>)
    ensures
        without_git(s + ".git"@) == without_git(s),
        !".git"@.is_suffix_of(s) ==> without_git(s) == s,
        without_git(s).is_prefix_of(s),
        !".git"@.is_suffix_of(without_git(s)),
    decreases s.len(),
{
    reveal_strlit(".git");
    let g = ".git"@;
    let t = s + g;
    assert(g =~= t.subrange(t.len() - g.len(), t.len() as int));
    assert(t.take(t.len() - g.len()) =~= s);
    let r = without_git(s);
    if g.is_suffix_of(s) {
        let rest = s.take(s.len() - g.len());
        git_endings_are_dropped(rest);
        assert(r =~= s.subrange(0, r.len() as int)) by {
            assert(r =~= rest.subrange(0, r.len() as int));
        }
    } else {
        assert(r =~= s.subrange(0, s.len() as int));
    }
}

/// An address for the secure shell becomes one for the web, with a slash for the first colon; any
/// other stays but for its ending.
pub proof fn remotes_become_web_addresses(raw: Seq<char>, host: Seq<char>, path: Seq<char>)
    requires
        forall|j: int| 0 <= j < host.len() ==> host[j] != ':',
        !".git"@.is_suffix_of(host + seq![':'] + path),
    ensures
        text::trimmed(raw) == "git@"@ + (host + seq![':'] + path) ==> remote_address(raw)
            == "https://"@ + (host + seq!['/'] + path),
        text::trimmed(raw) == "git@"@ + (host + seq![':'] + path + ".git"@) ==> remote_address(raw)
            == "https://"@ + (host + seq!['/'] + path),
        !"git@"@.is_prefix_of(text::trimmed(raw)) ==> remote_address(raw) == without_git(
            text::trimmed(raw),
        ),
{
    let bare = host + seq![':'] + path;
    git_endings_are_dropped(bare);
    text::cuts_are_exact(host, ':', path);
    let g = "git@"@;
    let a = g + bare;
    let b = g + (bare + ".git"@);
    assert(g =~= a.subrange(0, g.len() as int));
    assert(g =~= b.subrange(0, g.len() as int));
    assert(a.skip(g.len() as int) =~= bare);
    assert(b.skip(g.len() as int) =~= bare + ".git"@);
}

/// What is configured counts before what the remote says; blanks round it and slashes behind it do
/// not count.
pub proof fn configured_repositories_count_first(
    configured: Option<Seq<char>>,
    remote: Option<Seq<char>>,
)
    ensures
        configured is Some && text::strip_back(
            text::trimmed(configured->0),
            text::Class::Only('/'),
        ).len() > 0 ==> repository(configured, remote) == Some(
            text::strip_back(text::trimmed(configured->0), text::Class::Only('/')),
        ),
        configured is None && remote is Some ==> repository(configured, remote) == Some(
            remote_address(remote->0),
        ),
        configured is None && remote is None ==> repository(configured, remote) is None,
{
}

/// A hash is a link exactly at a terminal where the repository is known: it leads to the commit, and
/// is what is shown.
pub proof fn hashes_are_linked(hash: Seq<char>, tty: bool, repo: Option<Seq<char>>)
    ensures
        !tty || repo is None ==> linked(hash, tty, repo) == hash,
        tty && repo is Some ==> text::holds(
            linked(hash, tty, repo),
            repo->0 + "/commit/"@ + hash,
        ) && text::holds(linked(hash, tty, repo), "\u{1b}\\"@ + hash + "\u{1b}]8;;"@),
{
    if tty && repo is Some {
        let a = "\u{1b}]8;;"@;
        let b = repo->0 + "/commit/"@ + hash;
        let c = "\u{1b}\\"@;
        let e = "\u{1b}]8;;\u{1b}\\"@;
        text::middle_is_held(a, b, c + hash + e);
        assert(a + b + (c + hash + e) =~= linked(hash, tty, repo));
        reveal_strlit("\u{1b}]8;;\u{1b}\\");
        reveal_strlit("\u{1b}]8;;");
        reveal_strlit("\u{1b}\\");
        assert(e =~= a + c);
        text::middle_is_held(a + b, c + hash + a, c);
        assert(a + b + (c + hash + a) + c =~= linked(hash, tty, repo));
    }
}

/// Every message is kept or not by itself, and what is kept stays in order.
pub proof fn each_message_is_kept_alone(a: Seq<Message>, b: Seq<Message>, x: Message, k: Keep)
    ensures
        kept(a + b, k) == kept(a, k) + kept(b, k),
        kept(seq![x], k) == (if keeps(k, x) {
            seq![x]
        } else {
            Seq::empty()
        }),
    decreases b.len(),
{
    let one = seq![x];
    assert(one.drop_last() =~= Seq::<Message>::empty());
    assert(kept(one.drop_last(), k).len() == 0);
    assert(kept(one, k) =~= (if keeps(k, x) {
            seq![x]
        } else {
            Seq::empty()
        }));
    if b.len() == 0 {
        assert(a + b =~= a);
        assert(kept(a, k) + kept(b, k) =~= kept(a, k));
    } else {
        each_message_is_kept_alone(a, b.drop_last(), x, k);
        assert((a + b).drop_last() =~= a + b.drop_last());
        assert((a + b).last() == b.last());
        assert(kept(a + b, k) =~= kept(a, k) + kept(b, k));
    }
}

/// An answer is a success from two hundred on, below three hundred; a hash that is typed counts in
/// small letters, without the sign before it.
pub proof fn successes_are_exact(status: u16, s: Seq<char>)
    ensures
        is_success(status) <==> status / 100 == 2,
        typed_prefix(seq!['@'] + s) == typed_prefix(s),
        typed_prefix(s) == outside::lowercase(text::bare_name(s)),
{
    text::signs_do_not_matter(s);
}

/// The first colon becomes a slash.
pub proof fn colons_become_slashes(a: Seq<char>, b: Seq<char>)
    requires
        forall|j: int| 0 <= j < a.len() ==> a[j] != ':',
    ensures
        colon_to_slash(a + seq![':'] + b) == a + seq!['/'] + b,
        colon_to_slash(a) == a,
{
    text::cuts_are_exact(a, ':', b);
}

} // verus!
