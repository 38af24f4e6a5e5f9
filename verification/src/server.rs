//! The message server: who may ask what, and what the tables hold afterwards.
use crate::outside;
use crate::text;
use vstd::prelude::*;
use vstd::utf8::*;

pub mod lease;
pub mod messages;
pub mod presence;
pub mod store;
pub mod teams;
pub mod todos;
pub mod usage;

verus! {

// ── Limits ──────────────────────────────────────────────────────────────────
pub const MAX_INSTANCE_ID_LEN: usize = 64;

pub const MAX_ROLE_LEN: usize = 256;

pub const MAX_HOST_LEN: usize = 256;

pub const MAX_CONTENT_LEN: usize = 4096;

pub const MAX_REFS_COUNT: usize = 20;

pub const MAX_REF_LEN: usize = 64;

pub const MAX_TODO_DESC_LEN: usize = 2048;

pub const MAX_TEAM_NAME_LEN: usize = 64;

/// Messages and presence older than this are not shown, in seconds.
pub const RECENT_SECS: i64 = 28_800;

// ── Refusals ────────────────────────────────────────────────────────────────
/// Why a request is refused.
#[derive(Clone, Copy, PartialEq, Eq, Structural, Debug)]
pub enum Refusal {
    BadRequest,
    Unauthorized,
    Forbidden,
    NotFound,
    Conflict,
    Internal,
}

/// The HTTP status of a refusal.
pub open spec fn status_of(r: Refusal) -> u16 {
    match r {
        Refusal::BadRequest => 400,
        Refusal::Unauthorized => 401,
        Refusal::Forbidden => 403,
        Refusal::NotFound => 404,
        Refusal::Conflict => 409,
        Refusal::Internal => 500,
    }
}

impl Refusal {
    /// The HTTP status of the refusal.
    pub fn status(self) -> (code: u16)
        ensures
            code == status_of(self),
    {
        match self {
            Refusal::BadRequest => 400,
            Refusal::Unauthorized => 401,
            Refusal::Forbidden => 403,
            Refusal::NotFound => 404,
            Refusal::Conflict => 409,
            Refusal::Internal => 500,
        }
    }
}

// ── Names ───────────────────────────────────────────────────────────────────
/// A character that a name may hold.
pub open spec fn name_char(c: char) -> bool {
    outside::alphanumeric(c) || c == '-' || c == '_'
}

/// Every character of `s` may stand in a name.
pub open spec fn name_chars(s: Seq<char>) -> bool {
    forall|i: int| 0 <= i < s.len() ==> name_char(#[trigger] s[i])
}

/// A valid identifier.
pub open spec fn identifier(s: Seq<char>) -> bool {
    s.len() > 0 && name_chars(s)
}

/// A valid identifier that is not too long.
pub open spec fn instance_name(s: Seq<char>) -> bool {
    s.len() <= MAX_INSTANCE_ID_LEN && identifier(s)
}

/// Whether every character of `s` may stand in a name.
pub fn has_name_chars(s: &str) -> (r: bool)
    ensures
        r == name_chars(s@),
{
    let v = text::chars_of(s);
    let mut i: usize = 0;
    while i < v.len()
        invariant
            i <= v@.len(),
            v@ == s@,
            forall|k: int| 0 <= k < i ==> name_char(#[trigger] v@[k]),
        decreases v@.len() - i,
    {
        let c = v[i];
        if !(outside::is_alphanumeric(c) || c == '-' || c == '_') {
            assert(!name_char(s@[i as int]));
            return false;
        }
        i += 1;
    }
    true
}

/// Whether `s` is a valid identifier.
pub fn is_valid_identifier(s: &str) -> (r: bool)
    ensures
        r == identifier(s@),
{
    !s.is_empty() && has_name_chars(s)
}

/// A valid recipient: an identifier, or everybody.
pub open spec fn recipient_name(s: Seq<char>) -> bool {
    s == "all"@ || identifier(s)
}

/// Whether `s` is a valid recipient.
pub fn is_valid_recipient(s: &str) -> (r: bool)
    ensures
        r == recipient_name(s@),
{
    text::same(s, "all") || is_valid_identifier(s)
}

/// Whether `s` is a valid identifier that is not too long.
pub fn is_instance_name(s: &str) -> (r: bool)
    ensures
        r == instance_name(s@),
{
    text::chars_of(s).len() <= MAX_INSTANCE_ID_LEN && is_valid_identifier(s)
}

/// A valid name of a team.
pub open spec fn team_name(s: Seq<char>) -> bool {
    1 <= s.len() <= MAX_TEAM_NAME_LEN && name_chars(s)
}

/// Whether `s` is a valid name of a team.
pub fn is_valid_team_name(s: &str) -> (r: bool)
    ensures
        r == team_name(s@),
{
    !s.is_empty() && text::chars_of(s).len() <= MAX_TEAM_NAME_LEN && has_name_chars(s)
}

// ── Hexadecimal ─────────────────────────────────────────────────────────────
/// The digit of a number below sixteen.
pub open spec fn hex_digit(n: int) -> char {
    if n < 10 {
        ('0' as u32 + n) as char
    } else {
        ('a' as u32 + n - 10) as char
    }
}

/// The bytes in lower-case hexadecimal, two digits each.
pub open spec fn hex(bytes: Seq<u8>) -> Seq<char>
    decreases bytes.len(),
{
    if bytes.len() == 0 {
        Seq::empty()
    } else {
        hex(bytes.drop_last()).push(hex_digit(bytes.last() as int / 16)).push(
            hex_digit(bytes.last() as int % 16),
        )
    }
}

fn digit_of(n: u8) -> (c: char)
    requires
        n < 16,
    ensures
        c == hex_digit(n as int),
{
    match n {
        0 => '0',
        1 => '1',
        2 => '2',
        3 => '3',
        4 => '4',
        5 => '5',
        6 => '6',
        7 => '7',
        8 => '8',
        9 => '9',
        10 => 'a',
        11 => 'b',
        12 => 'c',
        13 => 'd',
        14 => 'e',
        _ => 'f',
    }
}

/// The bytes in lower-case hexadecimal.
pub fn to_hex(bytes: &Vec<u8>) -> (r: String)
    ensures
        r@ == hex(bytes@),
{
    let mut r = String::new();
    let mut i: usize = 0;
    assert(bytes@.take(0) =~= Seq::<u8>::empty());
    while i < bytes.len()
        invariant
            i <= bytes@.len(),
            r@ == hex(bytes@.take(i as int)),
        decreases bytes@.len() - i,
    {
        assert(bytes@.take(i + 1).drop_last() =~= bytes@.take(i as int));
        r.push(digit_of(bytes[i] / 16));
        r.push(digit_of(bytes[i] % 16));
        i += 1;
    }
    assert(bytes@.take(i as int) =~= bytes@);
    r
}

/// Two digits for each byte.
pub proof fn hex_len(bytes: Seq<u8>)
    ensures
        hex(bytes).len() == 2 * bytes.len(),
    decreases bytes.len(),
{
    if bytes.len() > 0 {
        hex_len(bytes.drop_last());
    }
}

/// Only digits and the letters `a` to `f`.
pub open spec fn lower_hex(c: char) -> bool {
    ('0' <= c <= '9') || ('a' <= c <= 'f')
}

/// What is written in hexadecimal holds nothing but hexadecimal digits.
pub proof fn hex_is_hex(bytes: Seq<u8>)
    ensures
        forall|i: int| 0 <= i < hex(bytes).len() ==> lower_hex(#[trigger] hex(bytes)[i]),
    decreases bytes.len(),
{
    if bytes.len() > 0 {
        hex_is_hex(bytes.drop_last());
        let h = hex(bytes.drop_last());
        let all = hex(bytes);
        let b = bytes.last() as int;
        assert(0 <= b / 16 < 16 && 0 <= b % 16 < 16);
        assert forall|i: int| 0 <= i < all.len() implies lower_hex(#[trigger] all[i]) by {
            if i < h.len() {
                assert(all[i] == h[i]);
            }
        }
    }
}

/// The usual form of a random identifier: five groups of hexadecimal digits.
pub open spec fn id_text(bytes: Seq<u8>) -> Seq<char> {
    let h = hex(bytes);
    h.subrange(0, 8) + seq!['-'] + h.subrange(8, 12) + seq!['-'] + h.subrange(12, 16) + seq!['-']
        + h.subrange(16, 20) + seq!['-'] + h.subrange(20, 32)
}

/// The usual form of a random identifier.
pub fn id_from_bytes(bytes: &Vec<u8>) -> (r: String)
    requires
        bytes@.len() == 16,
    ensures
        r@ == id_text(bytes@),
{
    let h = to_hex(bytes);
    proof {
        hex_len(bytes@);
    }
    let v = text::chars_of(h.as_str());
    let mut r = text::slice_of(&v, 0, 8);
    r.push('-');
    r.append(text::slice_of(&v, 8, 12).as_str());
    r.push('-');
    r.append(text::slice_of(&v, 12, 16).as_str());
    r.push('-');
    r.append(text::slice_of(&v, 16, 20).as_str());
    r.push('-');
    r.append(text::slice_of(&v, 20, 32).as_str());
    assert(r@ =~= id_text(bytes@));
    r
}

/// The text is the usual form of some sixteen bytes: an identifier that may be drawn.
pub open spec fn drawn_id(s: Seq<char>) -> bool {
    exists|bytes: Seq<u8>| #![trigger id_text(bytes)] bytes.len() == 16 && s == id_text(bytes)
}

/// A new random identifier.
pub fn new_id() -> (r: String)
    ensures
        drawn_id(r@),
{
    let bytes = outside::random_id();
    id_from_bytes(&bytes)
}

// ── Digests ─────────────────────────────────────────────────────────────────
/// The hash under which a token is kept.
pub open spec fn token_hash(token: Seq<char>) -> Seq<char> {
    hex(outside::sha256_of(encode_utf8(token)))
}

/// The hash under which a token is kept: its SHA-256 digest in hexadecimal.
pub fn hash_token(token: &str) -> (r: String)
    ensures
        r@ == token_hash(token@),
        r@.len() == 64,
{
    let digest = outside::sha256_digest(token.as_bytes());
    proof {
        hex_len(digest@);
    }
    to_hex(&digest)
}

/// The hash of four fields: the SHA-1 digest, in hexadecimal, of the fields with bars between.
pub open spec fn field_hash(a: Seq<char>, b: Seq<char>, c: Seq<char>, d: Seq<char>) -> Seq<char> {
    hex(outside::sha1_of(encode_utf8(a + "|"@ + b + "|"@ + c + "|"@ + d)))
}

/// The hash of four fields.
pub fn hash_fields(a: &str, b: &str, c: &str, d: &str) -> (r: String)
    ensures
        r@ == field_hash(a@, b@, c@, d@),
        r@.len() == 40,
{
    let mut s = text::glue3(a, "|", b);
    s.append("|");
    s.append(c);
    s.append("|");
    s.append(d);
    let digest = outside::sha1_digest(s.as_str().as_bytes());
    proof {
        hex_len(digest@);
    }
    to_hex(&digest)
}

/// The token made of thirty-two random bytes.
pub open spec fn token_text(bytes: Seq<u8>) -> Seq<char> {
    "tm_"@ + hex(outside::sha256_of(bytes))
}

/// The token made of random bytes.
pub fn token_from_bytes(bytes: &Vec<u8>) -> (r: String)
    ensures
        r@ == token_text(bytes@),
{
    let digest = outside::sha256_digest(bytes.as_slice());
    text::glue("tm_", to_hex(&digest).as_str())
}

/// The text is made of some thirty-two bytes: a token that may be drawn.
pub open spec fn drawn_token(s: Seq<char>) -> bool {
    exists|bytes: Seq<u8>|
        #![trigger token_text(bytes)]
        bytes.len() == 32 && s == token_text(bytes)
}

/// A new token for a team.
pub fn generate_token() -> (r: String)
    ensures
        drawn_token(r@),
{
    let mut bytes = outside::random_id();
    let mut more = outside::random_id();
    bytes.append(&mut more);
    token_from_bytes(&bytes)
}

/// A new token for the administrator, made of two random identifiers.
pub open spec fn admin_token_text(bytes: Seq<u8>) -> Seq<char> {
    "adm_"@ + hex(bytes)
}

/// A new token for the administrator.
pub fn generate_admin_token() -> (r: String)
    ensures
        exists|bytes: Seq<u8>|
            #![trigger admin_token_text(bytes)]
            bytes.len() == 32 && r@ == admin_token_text(bytes),
        r@.len() == "adm_"@.len() + 64,
{
    let mut bytes = outside::random_id();
    let mut more = outside::random_id();
    bytes.append(&mut more);
    proof {
        hex_len(bytes@);
    }
    assert(admin_token_text(bytes@).len() == "adm_"@.len() + 64);
    text::glue("adm_", to_hex(&bytes).as_str())
}

// ── Namespaces ──────────────────────────────────────────────────────────────
/// The namespace of a team; the one without a team is the empty name.
pub open spec fn space_of(team: Option<Seq<char>>) -> Seq<char> {
    match team {
        Some(t) => t,
        None => Seq::empty(),
    }
}

/// Whether two teams share a namespace.
pub fn same_space(a: &Option<String>, b: &Option<String>) -> (r: bool)
    ensures
        r == (space_of(text::opt_text(*a)) == space_of(text::opt_text(*b))),
{
    match a {
        Some(x) => match b {
            Some(y) => text::same(x.as_str(), y.as_str()),
            None => {
                assert(x@.len() == 0 ==> x@ =~= Seq::<char>::empty());
                x.as_str().is_empty()
            },
        },
        None => match b {
            Some(y) => {
                assert(y@.len() == 0 ==> y@ =~= Seq::<char>::empty());
                y.as_str().is_empty()
            },
            None => true,
        },
    }
}

// ── Who asks ────────────────────────────────────────────────────────────────
/// As whom a request runs: a team, or the namespace without one.
pub struct AuthContext {
    pub team_id: Option<String>,
}

impl AuthContext {
    /// The namespace without a team.
    pub fn legacy() -> (a: AuthContext)
        ensures
            a.team_id is None,
    {
        AuthContext { team_id: None }
    }

    /// A team.
    pub fn for_team(team_id: String) -> (a: AuthContext)
        ensures
            a.team_id == Some(team_id),
    {
        AuthContext { team_id: Some(team_id) }
    }
}

/// `v` with the escapes undone that a token may hold in an address.
pub open spec fn unescaped(v: Seq<char>) -> Seq<char> {
    text::replaced(
        text::replaced(text::replaced(v, "%3D"@, "="@), "%2B"@, "+"@),
        "%2F"@,
        "/"@,
    )
}

/// The value of the first parameter `token` among the parameters of an address.
pub open spec fn query_token(parts: Seq<Seq<char>>) -> Option<Seq<char>>
    decreases parts.len(),
{
    if parts.len() == 0 {
        None
    } else {
        match text::cut_at(parts[0], '=') {
            Some(kv) => if kv.0 == "token"@ {
                Some(unescaped(kv.1))
            } else {
                query_token(parts.drop_first())
            },
            None => query_token(parts.drop_first()),
        }
    }
}

/// The token of a request: the one in the header, else the one in the address.
pub open spec fn presented_token(header: Option<Seq<char>>, query: Option<Seq<char>>) -> Option<
    Seq<char>,
> {
    let bearer = match header {
        Some(h) => text::after_prefix(h, "Bearer "@),
        None => None,
    };
    if bearer is Some {
        bearer
    } else {
        match query {
            Some(q) => query_token(text::pieces(q, '&')),
            None => None,
        }
    }
}

/// The token of a request, given its authorization header and the parameters of its address.
pub fn extract_token(header: &Option<String>, query: &Option<String>) -> (r: Option<String>)
    ensures
        text::opt_text(r) == presented_token(text::opt_text(*header), text::opt_text(*query)),
{
    if let Some(h) = header {
        let t = text::strip_prefix(h.as_str(), "Bearer ");
        if t.is_some() {
            return t;
        }
    }
    let q = match query {
        Some(q) => q,
        None => {
            return None;
        },
    };
    let parts = text::split(q.as_str(), '&');
    let ghost all = text::texts(parts@);
    proof {
        reveal_strlit("%3D");
        reveal_strlit("%2B");
        reveal_strlit("%2F");
    }
    let mut i: usize = 0;
    assert(all.skip(0) =~= all);
    while i < parts.len()
        invariant
            i <= parts@.len(),
            all == text::texts(parts@),
            "%3D"@.len() == 3,
            "%2B"@.len() == 3,
            "%2F"@.len() == 3,
            query_token(all) == query_token(all.skip(i as int)),
            presented_token(text::opt_text(*header), text::opt_text(*query)) == query_token(all),
        decreases parts@.len() - i,
    {
        assert(all.skip(i as int).drop_first() =~= all.skip(i + 1));
        assert(all.skip(i as int)[0] == parts@[i as int]@);
        if let Some(kv) = text::split_once(parts[i].as_str(), '=') {
            if text::same(kv.0.as_str(), "token") {
                let a = text::replace(kv.1.as_str(), "%3D", "=");
                let b = text::replace(a.as_str(), "%2B", "+");
                return Some(text::replace(b.as_str(), "%2F", "/"));
            }
        }
        i += 1;
    }
    None
}

/// As whom a request runs, given the team that its token stands for: a team's token always wins;
/// else the token of the server has to match where there is one; else everybody may ask.
pub open spec fn admitted(
    team: Option<Seq<char>>,
    expected: Option<Seq<char>>,
    provided: Option<Seq<char>>,
) -> Result<Option<Seq<char>>, Refusal> {
    if team is Some {
        Ok(team)
    } else if expected is Some && provided != expected {
        Err(Refusal::Unauthorized)
    } else {
        Ok(None)
    }
}

/// As whom a request runs.
pub fn authenticate(team: Option<String>, expected: &Option<String>, provided: &Option<String>) -> (r:
    Result<AuthContext, Refusal>)
    ensures
        (match r {
            Ok(a) => Ok(text::opt_text(a.team_id)),
            Err(e) => Err(e),
        }) == admitted(
            text::opt_text(team),
            text::opt_text(*expected),
            text::opt_text(*provided),
        ),
{
    match team {
        Some(t) => Ok(AuthContext::for_team(t)),
        None => match expected {
            Some(e) => match provided {
                Some(p) => if text::same(p.as_str(), e.as_str()) {
                    Ok(AuthContext::legacy())
                } else {
                    Err(Refusal::Unauthorized)
                },
                None => Err(Refusal::Unauthorized),
            },
            None => Ok(AuthContext::legacy()),
        },
    }
}

/// What somebody is told who presents a team's token where the administrator's is needed.
pub const ADMIN_REQUIRED: &'static str =
    "This endpoint requires the admin token (COLLAB_ADMIN_TOKEN). You presented a team token (COLLAB_TOKEN) \u{2014} team tokens can do worker ops but not admin ops.";

/// Whether a request may administer teams: a team's own token never does.
pub fn require_admin(auth: &AuthContext) -> (r: Result<(), Refusal>)
    ensures
        r == (if auth.team_id is Some {
            Err::<(), Refusal>(Refusal::Forbidden)
        } else {
            Ok(())
        }),
{
    if auth.team_id.is_some() {
        Err(Refusal::Forbidden)
    } else {
        Ok(())
    }
}

/// A server with a token of its own admits nobody who presents neither that one nor a team's.
pub proof fn wrong_tokens_are_refused(expected: Seq<char>, provided: Option<Seq<char>>)
    requires
        provided != Some(expected),
    ensures
        admitted(None, Some(expected), provided) == Err::<Option<Seq<char>>, Refusal>(
            Refusal::Unauthorized,
        ),
{
}

/// A team's token is honoured whether or not the server has a token of its own.
pub proof fn team_tokens_always_count(
    team: Seq<char>,
    expected: Option<Seq<char>>,
    provided: Option<Seq<char>>,
)
    ensures
        admitted(Some(team), expected, provided) == Ok::<Option<Seq<char>>, Refusal>(Some(team)),
{
}

/// The status of each refusal is its usual one, and no two refusals share one.
pub proof fn statuses_are_usual(a: Refusal, b: Refusal)
    ensures
        status_of(a) == status_of(b) ==> a == b,
        status_of(Refusal::BadRequest) == 400,
        status_of(Refusal::Unauthorized) == 401,
        status_of(Refusal::Forbidden) == 403,
        status_of(Refusal::NotFound) == 404,
        status_of(Refusal::Conflict) == 409,
        status_of(Refusal::Internal) == 500,
{
}

/// A name is made of letters, digits, hyphens and underscores; an identity has one to 64 of them, a
/// team too, and a recipient is a name or everybody.
pub proof fn names_are_exact(s: Seq<char>)
    ensures
        identifier(s) <==> s.len() > 0 && forall|i: int|
            0 <= i < s.len() ==> outside::alphanumeric(#[trigger] s[i]) || s[i] == '-' || s[i]
                == '_',
        instance_name(s) <==> s.len() <= 64 && identifier(s),
        team_name(s) <==> s.len() <= 64 && identifier(s),
        recipient_name(s) <==> s == "all"@ || identifier(s),
{
    if identifier(s) {
        assert forall|i: int| 0 <= i < s.len() implies outside::alphanumeric(#[trigger] s[i])
            || s[i] == '-' || s[i] == '_' by {
            assert(name_char(s[i]));
        }
    }
}

/// Each byte is written with two digits, the higher one first, and bytes keep their order.
pub proof fn each_byte_has_two_digits(a: Seq<u8>, b: Seq<u8>, x: u8)
    ensures
        hex(a + b) == hex(a) + hex(b),
        hex(seq![x]) == seq![
            "0123456789abcdef"@[x as int / 16],
            "0123456789abcdef"@[x as int % 16],
        ],
    decreases b.len(),
{
    let one = seq![x];
    assert(one.drop_last() =~= Seq::<u8>::empty());
    assert(hex(one.drop_last()).len() == 0);
    reveal_strlit("0123456789abcdef");
    let h = x as int / 16;
    let l = x as int % 16;
    assert(0 <= h < 16 && 0 <= l < 16);
    digits_are_in_order(h);
    digits_are_in_order(l);
    assert(hex(one) =~= seq![hex_digit(h), hex_digit(l)]);
    if b.len() == 0 {
        assert(a + b =~= a);
        assert(hex(a) + hex(b) =~= hex(a));
    } else {
        each_byte_has_two_digits(a, b.drop_last(), x);
        assert((a + b).drop_last() =~= a + b.drop_last());
        assert((a + b).last() == b.last());
        assert(hex(a + b) =~= hex(a) + hex(b));
    }
}

proof fn digits_are_in_order(n: int)
    requires
        0 <= n < 16,
    ensures
        hex_digit(n) == "0123456789abcdef"@[n],
{
    reveal_strlit("0123456789abcdef");
}

/// An identifier has 36 characters: hyphens at the four usual places, and otherwise the digits of its
/// bytes in order.
pub proof fn ids_have_their_form(bytes: Seq<u8>)
    requires
        bytes.len() == 16,
    ensures
        ({
            let s = id_text(bytes);
            &&& s.len() == 36
            &&& s[8] == '-' && s[13] == '-' && s[18] == '-' && s[23] == '-'
            &&& s.subrange(0, 8) + s.subrange(9, 13) + s.subrange(14, 18) + s.subrange(19, 23)
                + s.subrange(24, 36) == hex(bytes)
        }),
{
    hex_len(bytes);
    let s = id_text(bytes);
    let h = hex(bytes);
    assert(s.subrange(0, 8) =~= h.subrange(0, 8));
    assert(s.subrange(9, 13) =~= h.subrange(8, 12));
    assert(s.subrange(14, 18) =~= h.subrange(12, 16));
    assert(s.subrange(19, 23) =~= h.subrange(16, 20));
    assert(s.subrange(24, 36) =~= h.subrange(20, 32));
    assert(h.subrange(0, 8) + h.subrange(8, 12) + h.subrange(12, 16) + h.subrange(16, 20)
        + h.subrange(20, 32) =~= h);
}

/// A team's token is told by its beginning, and so is the administrator's; behind it stand the 64
/// digits of a digest, or of thirty-two bytes.
pub proof fn tokens_have_their_form(bytes: Seq<u8>)
    ensures
        "tm_"@.is_prefix_of(token_text(bytes)),
        token_text(bytes).skip(3) == hex(outside::sha256_of(bytes)),
        "adm_"@.is_prefix_of(admin_token_text(bytes)),
        admin_token_text(bytes).skip(4) == hex(bytes),
{
    reveal_strlit("tm_");
    reveal_strlit("adm_");
    let t = token_text(bytes);
    let a = admin_token_text(bytes);
    assert("tm_"@ =~= t.subrange(0, 3));
    assert("adm_"@ =~= a.subrange(0, 4));
    assert(t.skip(3) =~= hex(outside::sha256_of(bytes)));
    assert(a.skip(4) =~= hex(bytes));
}

/// Two teams of different names never share a namespace, and none shares that without a team but one
/// without a name.
pub proof fn namespaces_are_apart(a: Option<Seq<char>>, b: Option<Seq<char>>)
    requires
        a matches Some(x) ==> x.len() > 0,
        b matches Some(x) ==> x.len() > 0,
    ensures
        space_of(a) == space_of(b) <==> a == b,
{
}

/// Whom a request runs as: a team where its token stands for one; else nobody in particular where
/// the server has no token or the request presents it; else it is refused.
pub proof fn admission_is_exact(
    team: Option<Seq<char>>,
    expected: Option<Seq<char>>,
    provided: Option<Seq<char>>,
)
    ensures
        team is Some ==> admitted(team, expected, provided) == Ok::<Option<Seq<char>>, Refusal>(
            team,
        ),
        team is None && expected is None ==> admitted(team, expected, provided) == Ok::<
            Option<Seq<char>>,
            Refusal,
        >(None),
        team is None && expected is Some && provided == expected ==> admitted(
            team,
            expected,
            provided,
        ) == Ok::<Option<Seq<char>>, Refusal>(None),
        team is None && expected is Some && provided != expected ==> admitted(
            team,
            expected,
            provided,
        ) == Err::<Option<Seq<char>>, Refusal>(Refusal::Unauthorized),
{
}

/// A token in the header counts before one in the address, and is what stands behind the scheme.
pub proof fn headers_count_first(t: Seq<char>, query: Option<Seq<char>>)
    ensures
        presented_token(Some("Bearer "@ + t), query) == Some(t),
        presented_token(None, None) is None,
        query is Some ==> presented_token(None, query) == query_token(
            text::pieces(query->0, '&'),
        ),
{
    reveal_strlit("Bearer ");
    let h = "Bearer "@ + t;
    assert("Bearer "@ =~= h.subrange(0, 7));
    assert(h.skip(7) =~= t);
}

/// A value without escapes is what it is; an escape is one character.
pub proof fn escapes_are_undone(v: Seq<char>)
    requires
        forall|i: int| 0 <= i < v.len() ==> v[i] != '%',
    ensures
        unescaped(v) == v,
        unescaped("%3D"@) == "="@,
        unescaped("%2B"@) == "+"@,
        unescaped("%2F"@) == "/"@,
{
    reveal_strlit("%3D");
    reveal_strlit("%2B");
    reveal_strlit("%2F");
    reveal_strlit("=");
    reveal_strlit("+");
    reveal_strlit("/");
    let a = "%3D"@;
    let b = "%2B"@;
    let c = "%2F"@;
    assert forall|j: int| !text::occurs_at(v, a, j) by {
        if text::occurs_at(v, a, j) {
            assert(v.subrange(j, j + 3)[0] == v[j]);
        }
    }
    assert forall|j: int| !text::occurs_at(v, b, j) by {
        if text::occurs_at(v, b, j) {
            assert(v.subrange(j, j + 3)[0] == v[j]);
        }
    }
    assert forall|j: int| !text::occurs_at(v, c, j) by {
        if text::occurs_at(v, c, j) {
            assert(v.subrange(j, j + 3)[0] == v[j]);
        }
    }
    text::replacements_are_exact(v, a, "="@);
    text::replacements_are_exact(v, b, "+"@);
    text::replacements_are_exact(v, c, "/"@);
    text::replacements_are_exact("="@, b, "+"@);
    text::replacements_are_exact("="@, c, "/"@);
    text::replacements_are_exact("+"@, c, "/"@);
    assert forall|j: int| !text::occurs_at(b, a, j) by {
        if text::occurs_at(b, a, j) {
            assert(b.subrange(j, j + 3)[1] == b[j + 1]);
        }
    }
    assert forall|j: int| !text::occurs_at(c, a, j) by {
        if text::occurs_at(c, a, j) {
            assert(c.subrange(j, j + 3)[1] == c[j + 1]);
        }
    }
    assert forall|j: int| !text::occurs_at(c, b, j) by {
        if text::occurs_at(c, b, j) {
            assert(c.subrange(j, j + 3)[2] == c[j + 2]);
        }
    }
    text::replacements_are_exact(b, a, "="@);
    text::replacements_are_exact(c, a, "="@);
    text::replacements_are_exact(c, b, "+"@);
}

/// The first parameter of the right name gives the token.
pub proof fn the_first_token_counts(a: Seq<Seq<char>>, b: Seq<Seq<char>>, x: Seq<char>)
    ensures
        query_token(a + b) == (if query_token(a) is Some {
            query_token(a)
        } else {
            query_token(b)
        }),
        query_token(seq![x]) == (match text::cut_at(x, '=') {
            Some(kv) => if kv.0 == "token"@ {
                Some(unescaped(kv.1))
            } else {
                None
            },
            None => None,
        }),
    decreases a.len(),
{
    let one = seq![x];
    assert(one.drop_first() =~= Seq::<Seq<char>>::empty());
    assert(query_token(one.drop_first()) is None);
    if a.len() == 0 {
        assert(a + b =~= b);
    } else {
        the_first_token_counts(a.drop_first(), b, x);
        assert((a + b).drop_first() =~= a.drop_first() + b);
        assert((a + b)[0] == a[0]);
    }
}

} // verus!
