//! What a command-line tool printed: the envelope round the answer, the JSON objects in it, the
//! detail of a failure and the token counts.
use crate::outside;
use crate::text;
use vstd::prelude::*;

verus! {

// ── JSON objects ────────────────────────────────────────────────────────────
/// Where the object ends that is open at `i`: at the brace that closes the outermost of `depth`
/// open ones. A brace inside a string does not count, nor does a quote behind a backslash end the
/// string.
pub open spec fn closing_brace(
    s: Seq<char>,
    i: int,
    depth: int,
    quoted: bool,
    escaped: bool,
) -> Option<int>
    decreases s.len() - i,
{
    if i < 0 || i >= s.len() {
        None
    } else if quoted {
        if escaped {
            closing_brace(s, i + 1, depth, true, false)
        } else {
            closing_brace(s, i + 1, depth, s[i] != '"', s[i] == '\\')
        }
    } else if s[i] == '{' {
        closing_brace(s, i + 1, depth + 1, false, false)
    } else if s[i] == '}' {
        if depth <= 1 {
            Some(i)
        } else {
            closing_brace(s, i + 1, depth - 1, false, false)
        }
    } else {
        closing_brace(s, i + 1, depth, s[i] == '"', false)
    }
}

/// Where the object ends that begins at `a`.
pub open spec fn object_end(s: Seq<char>, a: int) -> Option<int> {
    closing_brace(s, a, 0, false, false)
}

/// The first and the last place of every piece of `s` that may be an object and begins before
/// `n`, in the order of their beginnings. A piece may lie inside another.
pub open spec fn spans(s: Seq<char>, n: int) -> Seq<(int, int)>
    decreases n,
{
    if n <= 0 {
        Seq::empty()
    } else if s[n - 1] == '{' && object_end(s, n - 1) is Some {
        spans(s, n - 1).push((n - 1, object_end(s, n - 1)->0))
    } else {
        spans(s, n - 1)
    }
}

/// A piece of an output that may be an object.
pub struct Candidate {
    /// The place of its first character.
    pub first: usize,
    /// The place of its last character.
    pub last: usize,
    pub text: String,
}

/// The places of the candidates.
pub open spec fn places(v: Seq<Candidate>) -> Seq<(int, int)> {
    Seq::new(v.len(), |i: int| (v[i].first as int, v[i].last as int))
}

fn find_end(v: &Vec<char>, a: usize) -> (r: Option<usize>)
    requires
        a < v@.len(),
    ensures
        (match r {
            Some(e) => Some(e as int),
            None => None,
        }) == object_end(v@, a as int),
{
    let ghost want = object_end(v@, a as int);
    let mut i: usize = a;
    let mut depth: usize = 0;
    let mut quoted = false;
    let mut escaped = false;
    while i < v.len()
        invariant
            a <= i <= v@.len(),
            depth <= i - a,
            escaped ==> quoted,
            closing_brace(v@, i as int, depth as int, quoted, escaped) == want,
            want == object_end(v@, a as int),
        decreases v@.len() - i,
    {
        let c = v[i];
        if quoted {
            if escaped {
                escaped = false;
            } else if c == '"' {
                quoted = false;
            } else if c == '\\' {
                escaped = true;
            }
        } else if c == '{' {
            depth += 1;
        } else if c == '}' {
            if depth <= 1 {
                return Some(i);
            }
            depth -= 1;
        } else if c == '"' {
            quoted = true;
        }
        i += 1;
    }
    None
}

/// The pieces of an output that may be the answer, in the order of their beginnings. What stands
/// round them, a markdown fence too, is passed over.
pub fn json_candidates(output: &str) -> (r: Vec<Candidate>)
    ensures
        places(r@) == spans(output@, output@.len() as int),
        forall|k: int|
            0 <= k < r@.len() ==> (#[trigger] r@[k]).text@ == output@.subrange(
                r@[k].first as int,
                r@[k].last + 1,
            ),
{
    let v = text::chars_of(output);
    let mut r: Vec<Candidate> = Vec::new();
    let mut i: usize = 0;
    assert(places(r@) =~= spans(v@, 0));
    while i < v.len()
        invariant
            i <= v@.len(),
            v@ == output@,
            places(r@) == spans(v@, i as int),
            forall|k: int|
                0 <= k < r@.len() ==> (#[trigger] r@[k]).text@ == output@.subrange(
                    r@[k].first as int,
                    r@[k].last + 1,
                ),
        decreases v@.len() - i,
    {
        if v[i] == '{' {
            if let Some(e) = find_end(&v, i) {
                proof {
                    end_is_behind(v@, i as int, 0, false, false);
                }
                let ghost before = r@;
                r.push(Candidate { first: i, last: e, text: text::slice_of(&v, i, e + 1) });
                assert(places(r@) =~= places(before).push((i as int, e as int)));
            }
        }
        i += 1;
    }
    r
}

proof fn end_is_behind(s: Seq<char>, i: int, depth: int, quoted: bool, escaped: bool)
    ensures
        closing_brace(s, i, depth, quoted, escaped) matches Some(e) ==> i <= e < s.len() && s[e]
            == '}',
    decreases s.len() - i,
{
    if 0 <= i < s.len() {
        if quoted {
            if escaped {
                end_is_behind(s, i + 1, depth, true, false);
            } else {
                end_is_behind(s, i + 1, depth, s[i] != '"', s[i] == '\\');
            }
        } else if s[i] == '{' {
            end_is_behind(s, i + 1, depth + 1, false, false);
        } else if s[i] == '}' {
            end_is_behind(s, i + 1, depth - 1, false, false);
        } else {
            end_is_behind(s, i + 1, depth, s[i] == '"', false);
        }
    }
}

/// The candidates are exactly the braces with an end, each once and in their order.
pub proof fn candidates_are_objects(s: Seq<char>, n: int)
    requires
        0 <= n <= s.len(),
    ensures
        forall|k: int|
            0 <= k < spans(s, n).len() ==> {
                let p = #[trigger] spans(s, n)[k];
                &&& 0 <= p.0 < p.1 < s.len()
                &&& p.0 < n
                &&& s[p.0] == '{'
                &&& s[p.1] == '}'
                &&& object_end(s, p.0) == Some(p.1)
            },
        forall|j: int, k: int|
            0 <= j < k < spans(s, n).len() ==> (#[trigger] spans(s, n)[j]).0 < (
            #[trigger] spans(s, n)[k]).0,
        forall|a: int|
            0 <= a < n && s[a] == '{' && (#[trigger] object_end(s, a)) is Some ==> spans(
                s,
                n,
            ).contains((a, object_end(s, a)->0)),
    decreases n,
{
    if n > 0 {
        let r = spans(s, n - 1);
        let all = spans(s, n);
        candidates_are_objects(s, n - 1);
        end_is_behind(s, n - 1, 0, false, false);
        assert forall|k: int| 0 <= k < all.len() implies {
            let p = #[trigger] all[k];
            &&& 0 <= p.0 < p.1 < s.len()
            &&& p.0 < n
            &&& s[p.0] == '{'
            &&& s[p.1] == '}'
            &&& object_end(s, p.0) == Some(p.1)
        } by {
            if k < r.len() {
                assert(all[k] == r[k]);
            }
        }
        assert forall|j: int, k: int| 0 <= j < k < all.len() implies (#[trigger] all[j]).0 < (
        #[trigger] all[k]).0 by {
            assert(all[j] == r[j]);
            if k < r.len() {
                assert(all[k] == r[k]);
            }
        }
        assert forall|a: int|
            0 <= a < n && s[a] == '{' && (#[trigger] object_end(s, a)) is Some implies all.contains(
            (a, object_end(s, a)->0),
        ) by {
            let p = (a, object_end(s, a)->0);
            if a == n - 1 {
                assert(all[all.len() - 1] == p);
            } else {
                let k = choose|k: int| 0 <= k < r.len() && r[k] == p;
                assert(all[k] == p);
            }
        }
    }
}

/// An object, whatever its strings hold: an opening brace that the last character closes.
pub open spec fn object_text(o: Seq<char>) -> bool {
    o.len() > 0 && o[0] == '{' && object_end(o, 0) == Some(o.len() - 1)
}

proof fn scan_is_local(
    lead: Seq<char>,
    o: Seq<char>,
    tail: Seq<char>,
    i: int,
    depth: int,
    quoted: bool,
    escaped: bool,
)
    requires
        0 <= i <= o.len(),
        closing_brace(o, i, depth, quoted, escaped) is Some,
    ensures
        closing_brace(lead + o + tail, lead.len() + i, depth, quoted, escaped) == Some(
            lead.len() + closing_brace(o, i, depth, quoted, escaped)->0,
        ),
    decreases o.len() - i,
{
    let s = lead + o + tail;
    assert(i < o.len());
    assert(s[lead.len() + i] == o[i]);
    if quoted {
        if escaped {
            scan_is_local(lead, o, tail, i + 1, depth, true, false);
        } else {
            scan_is_local(lead, o, tail, i + 1, depth, o[i] != '"', o[i] == '\\');
        }
    } else if o[i] == '{' {
        scan_is_local(lead, o, tail, i + 1, depth + 1, false, false);
    } else if o[i] == '}' {
        if depth > 1 {
            scan_is_local(lead, o, tail, i + 1, depth - 1, false, false);
        }
    } else {
        scan_is_local(lead, o, tail, i + 1, depth, o[i] == '"', false);
    }
}

/// An object is a candidate whatever stands before it and behind it.
pub proof fn objects_are_found(lead: Seq<char>, o: Seq<char>, tail: Seq<char>)
    requires
        object_text(o),
    ensures
        spans(lead + o + tail, (lead + o + tail).len() as int).contains(
            (lead.len() as int, lead.len() + o.len() - 1),
        ),
        (lead + o + tail).subrange(lead.len() as int, (lead.len() + o.len()) as int) == o,
{
    let s = lead + o + tail;
    let a = lead.len() as int;
    scan_is_local(lead, o, tail, 0, 0, false, false);
    assert(s[a] == o[0]);
    assert(object_end(s, a) == Some(a + o.len() - 1));
    candidates_are_objects(s, s.len() as int);
    assert(s.subrange(a, a + o.len()) =~= o);
}

// ── The decoded answer ──────────────────────────────────────────────────────
/// A task for another worker.
pub struct DelegateTask {
    pub to: String,
    pub task: String,
}

/// A message for another worker.
pub struct DirectMessage {
    pub to: String,
    pub text: String,
}

/// What a tool answers with.
pub struct CollabOutput {
    pub response: Option<String>,
    pub delegate: Vec<DelegateTask>,
    pub state_update: crate::worker::WorkerState,
    pub completed_tasks: Vec<String>,
    pub messages: Vec<DirectMessage>,
    pub wants_to_continue: bool,
}

/// What a candidate turned out to be.
pub enum Reading {
    /// No JSON.
    NotJson,
    /// JSON, but no answer.
    Other,
    /// An answer.
    Answer(CollabOutput),
}

/// What a candidate is: an answer where it could be decoded as one, else other JSON where it is
/// JSON at all.
pub fn reading_of(text: &str, decoded: Option<CollabOutput>) -> (r: Reading)
    ensures
        r == (match decoded {
            Some(o) => Reading::Answer(o),
            None => if outside::json_parses(text@) {
                Reading::Other
            } else {
                Reading::NotJson
            },
        }),
{
    match decoded {
        Some(o) => Reading::Answer(o),
        None => if outside::json_is_valid(text) {
            Reading::Other
        } else {
            Reading::NotJson
        },
    }
}

/// The outcome for the first `n` candidates: how far the JSON that was found reaches, and which
/// candidate is the last answer in it. A candidate inside other JSON is a part of that.
pub open spec fn picked(at: Seq<(int, int)>, readings: Seq<Reading>, n: int) -> (int, Option<int>)
    decreases n,
{
    if n <= 0 {
        (-1, None)
    } else {
        let (reach, best) = picked(at, readings, n - 1);
        if at[n - 1].0 <= reach || readings[n - 1] is NotJson {
            (reach, best)
        } else {
            (
                at[n - 1].1,
                if readings[n - 1] is Answer {
                    Some(n - 1)
                } else {
                    best
                },
            )
        }
    }
}

/// The last answer among the candidates that were read; none where there are not as many readings
/// as candidates.
pub open spec fn last_answer(at: Seq<(int, int)>, readings: Seq<Reading>) -> Option<CollabOutput> {
    if at.len() != readings.len() {
        None
    } else {
        match picked(at, readings, at.len() as int).1 {
            Some(k) => Some(readings[k]->Answer_0),
            None => None,
        }
    }
}

proof fn picked_is_an_answer(at: Seq<(int, int)>, readings: Seq<Reading>, n: int)
    ensures
        picked(at, readings, n).1 matches Some(k) ==> 0 <= k < n && readings[k] is Answer,
    decreases n,
{
    if n > 0 {
        picked_is_an_answer(at, readings, n - 1);
    }
}

/// The answer in an output: the last one among its candidates, given what each of them turned out
/// to be.
pub fn parse_collab_output(candidates: &Vec<Candidate>, readings: Vec<Reading>) -> (r: Option<
    CollabOutput,
>)
    ensures
        r == last_answer(places(candidates@), readings@),
{
    if candidates.len() != readings.len() {
        return None;
    }
    let ghost at = places(candidates@);
    let mut reach: Option<usize> = None;
    let mut best: Option<usize> = None;
    let mut i: usize = 0;
    while i < candidates.len()
        invariant
            i <= candidates@.len(),
            candidates@.len() == readings@.len(),
            at == places(candidates@),
            picked(at, readings@, i as int) == (
                match reach {
                    Some(e) => e as int,
                    None => -1int,
                },
                match best {
                    Some(b) => Some(b as int),
                    None => None,
                },
            ),
        decreases candidates@.len() - i,
    {
        assert(at[i as int] == (candidates@[i as int].first as int, candidates@[i as int].last as int));
        let part = match reach {
            Some(e) => candidates[i].first <= e,
            None => false,
        };
        if !part {
            match &readings[i] {
                Reading::NotJson => {},
                Reading::Other => {
                    reach = Some(candidates[i].last);
                },
                Reading::Answer(_) => {
                    reach = Some(candidates[i].last);
                    best = Some(i);
                },
            }
        }
        i += 1;
    }
    proof {
        picked_is_an_answer(at, readings@, i as int);
    }
    match best {
        None => None,
        Some(b) => {
            let mut readings = readings;
            match readings.remove(b) {
                Reading::Answer(o) => Some(o),
                _ => None,
            }
        },
    }
}

proof fn picked_before(at: Seq<(int, int)>, readings: Seq<Reading>, k: int, n: int)
    requires
        0 <= n <= k < at.len(),
        forall|i: int, j: int| 0 <= i < j < at.len() ==> (#[trigger] at[i]).0 < (#[trigger] at[j]).0,
        forall|j: int| 0 <= j < k && !(readings[j] is NotJson) ==> (#[trigger] at[j]).1 < at[k].0,
        0 <= at[0].0,
    ensures
        picked(at, readings, n).0 < at[k].0,
    decreases n,
{
    if n > 0 {
        picked_before(at, readings, k, n - 1);
        assert(at[n - 1].0 < at[k].0);
    } else {
        assert(at[0].0 <= at[k].0);
    }
}

proof fn picked_behind(at: Seq<(int, int)>, readings: Seq<Reading>, k: int, n: int)
    requires
        0 <= k < n <= at.len(),
        forall|i: int, j: int| 0 <= i < j < at.len() ==> (#[trigger] at[i]).0 < (#[trigger] at[j]).0,
        forall|j: int| 0 <= j < k && !(readings[j] is NotJson) ==> (#[trigger] at[j]).1 < at[k].0,
        forall|j: int|
            0 <= j < at.len() && (#[trigger] at[j]).0 > at[k].1 ==> !(readings[j] is Answer),
        forall|j: int| 0 <= j < at.len() ==> (#[trigger] at[j]).0 < at[j].1,
        0 <= at[0].0,
        readings[k] is Answer,
    ensures
        picked(at, readings, n).0 >= at[k].1,
        picked(at, readings, n).1 == Some(k),
    decreases n,
{
    if n == k + 1 {
        picked_before(at, readings, k, k);
    } else {
        picked_behind(at, readings, k, n - 1);
        assert(at[n - 1].0 < at[n - 1].1);
    }
}

/// The last JSON of an output that is an answer is taken: one that is no part of other JSON and
/// has no answer behind it.
pub proof fn the_last_answer_is_taken(s: Seq<char>, readings: Seq<Reading>, k: int)
    requires
        ({
            let at = spans(s, s.len() as int);
            &&& readings.len() == at.len()
            &&& 0 <= k < at.len()
            &&& readings[k] is Answer
            &&& forall|j: int|
                0 <= j < k && !(readings[j] is NotJson) ==> (#[trigger] at[j]).1 < at[k].0
            &&& forall|j: int|
                0 <= j < at.len() && (#[trigger] at[j]).0 > at[k].1 ==> !(readings[j] is Answer)
        }),
    ensures
        last_answer(spans(s, s.len() as int), readings) == Some(readings[k]->Answer_0),
{
    let at = spans(s, s.len() as int);
    candidates_are_objects(s, s.len() as int);
    assert(0 <= at[0].0);
    picked_behind(at, readings, k, at.len() as int);
}

// ── The envelope ────────────────────────────────────────────────────────────
/// The answer of a tool with the token counts that came with it.
pub struct Envelope {
    pub stdout: String,
    pub input_tokens: u64,
    pub cache_creation_tokens: u64,
    pub cache_read_tokens: u64,
    pub output_tokens: u64,
}

pub open spec fn or_zero(n: Option<u64>) -> u64 {
    match n {
        Some(k) => k,
        None => 0,
    }
}

fn zero_or(n: Option<u64>) -> (k: u64)
    ensures
        k == or_zero(n),
{
    match n {
        Some(k) => k,
        None => 0,
    }
}

/// The envelope made of what was found in it: a text that is no envelope is the answer itself,
/// and a field that is missing counts as empty or zero.
pub fn envelope_from(
    raw: &str,
    valid: bool,
    result: Option<String>,
    input: Option<u64>,
    creation: Option<u64>,
    read: Option<u64>,
    output: Option<u64>,
) -> (e: Envelope)
    ensures
        !valid ==> e.stdout@ == raw@ && e.input_tokens == 0 && e.cache_creation_tokens == 0
            && e.cache_read_tokens == 0 && e.output_tokens == 0,
        valid ==> e.stdout@ == (match result {
            Some(s) => s@,
            None => Seq::<char>::empty(),
        }),
        valid ==> e.input_tokens == or_zero(input) && e.cache_creation_tokens == or_zero(creation)
            && e.cache_read_tokens == or_zero(read) && e.output_tokens == or_zero(output),
{
    if !valid {
        return Envelope {
            stdout: raw.to_owned(),
            input_tokens: 0,
            cache_creation_tokens: 0,
            cache_read_tokens: 0,
            output_tokens: 0,
        };
    }
    Envelope {
        stdout: match result {
            Some(s) => s,
            None => String::new(),
        },
        input_tokens: zero_or(input),
        cache_creation_tokens: zero_or(creation),
        cache_read_tokens: zero_or(read),
        output_tokens: zero_or(output),
    }
}

/// Takes the JSON envelope off what a tool printed. A tool that prints none, and a text that is
/// not JSON, are passed on as they are.
pub fn unwrap_envelope(raw: &str, enveloped: bool) -> (e: Envelope)
    ensures
        !(enveloped && outside::json_parses(raw@)) ==> e.stdout@ == raw@ && e.input_tokens == 0
            && e.cache_creation_tokens == 0 && e.cache_read_tokens == 0 && e.output_tokens == 0,
        enveloped && outside::json_parses(raw@) ==> {
            &&& e.stdout@ == (match outside::json_string(raw@, "/result"@) {
                Some(s) => s,
                None => Seq::<char>::empty(),
            })
            &&& e.input_tokens == or_zero(outside::json_number(raw@, "/usage/input_tokens"@))
            &&& e.cache_creation_tokens == or_zero(
                outside::json_number(raw@, "/usage/cache_creation_input_tokens"@),
            )
            &&& e.cache_read_tokens == or_zero(
                outside::json_number(raw@, "/usage/cache_read_input_tokens"@),
            )
            &&& e.output_tokens == or_zero(outside::json_number(raw@, "/usage/output_tokens"@))
        },
{
    if !enveloped || !outside::json_is_valid(raw) {
        return envelope_from(raw, false, None, None, None, None, None);
    }
    envelope_from(
        raw,
        true,
        outside::json_str_at(raw, "/result"),
        outside::json_u64_at(raw, "/usage/input_tokens"),
        outside::json_u64_at(raw, "/usage/cache_creation_input_tokens"),
        outside::json_u64_at(raw, "/usage/cache_read_input_tokens"),
        outside::json_u64_at(raw, "/usage/output_tokens"),
    )
}

/// Token counts of one call.
#[derive(Clone, Copy, PartialEq, Eq, Structural, Debug)]
pub struct TokenCounts {
    pub input: u64,
    pub cache_creation: u64,
    pub cache_read: u64,
    pub output: u64,
}

/// The counts to report: those of the envelope where the tool gives them, else one token for each
/// four bytes.
pub fn token_counts(enveloped: bool, e: &Envelope, prompt: &str) -> (t: TokenCounts)
    ensures
        enveloped ==> t == (TokenCounts {
            input: e.input_tokens,
            cache_creation: e.cache_creation_tokens,
            cache_read: e.cache_read_tokens,
            output: e.output_tokens,
        }),
        !enveloped ==> {
            &&& t.input == text::byte_len(prompt@) / 4
            &&& t.cache_creation == 0
            &&& t.cache_read == 0
            &&& t.output == text::byte_len(e.stdout@) / 4
        },
{
    if enveloped {
        TokenCounts {
            input: e.input_tokens,
            cache_creation: e.cache_creation_tokens,
            cache_read: e.cache_read_tokens,
            output: e.output_tokens,
        }
    } else {
        TokenCounts {
            input: text::bytes_in(prompt) as u64 / 4,
            cache_creation: 0,
            cache_read: 0,
            output: text::bytes_in(e.stdout.as_str()) as u64 / 4,
        }
    }
}

// ── Failures ────────────────────────────────────────────────────────────────
/// The file that holds what is known of the last failure of a worker.
pub open spec fn debug_file(instance: Seq<char>) -> Seq<char> {
    "/tmp/collab-debug-"@ + instance + ".txt"@
}

/// The file that holds what is known of the last failure of a worker.
pub fn debug_path(instance: &str) -> (r: String)
    ensures
        r@ == debug_file(instance@),
{
    text::glue3("/tmp/collab-debug-", instance, ".txt")
}

/// What is said of a tool that failed: what it printed on its error stream, else what it printed,
/// else where to look.
pub open spec fn failure_text(stdout: Seq<char>, stderr: Seq<char>, instance: Seq<char>) -> Seq<
    char,
> {
    if text::trimmed(stderr).len() > 0 {
        stderr
    } else if text::trimmed(stdout).len() > 0 {
        stdout
    } else {
        "(empty output \u{2014} see "@ + debug_file(instance) + ")"@
    }
}

/// What is said of a tool that failed.
pub fn failure_detail(stdout: &str, stderr: &str, instance: &str) -> (r: String)
    ensures
        r@ == failure_text(stdout@, stderr@, instance@),
{
    if !text::trim(stderr).as_str().is_empty() {
        stderr.to_owned()
    } else if !text::trim(stdout).as_str().is_empty() {
        stdout.to_owned()
    } else {
        text::glue3("(empty output \u{2014} see ", debug_path(instance).as_str(), ")")
    }
}

proof fn plain_is_skipped(s: Seq<char>, i: int, j: int, depth: int)
    requires
        0 <= i <= j <= s.len(),
        forall|k: int| i <= k < j ==> s[k] != '"' && s[k] != '{' && s[k] != '}',
    ensures
        closing_brace(s, i, depth, false, false) == closing_brace(s, j, depth, false, false),
    decreases j - i,
{
    if i < j {
        assert(s[i] != '"' && s[i] != '{' && s[i] != '}');
        plain_is_skipped(s, i + 1, j, depth);
    }
}

proof fn quoted_is_skipped(s: Seq<char>, i: int, j: int, depth: int)
    requires
        0 <= i <= j <= s.len(),
        forall|k: int| i <= k < j ==> s[k] != '"' && s[k] != '\\',
    ensures
        closing_brace(s, i, depth, true, false) == closing_brace(s, j, depth, true, false),
    decreases j - i,
{
    if i < j {
        assert(s[i] != '"' && s[i] != '\\');
        quoted_is_skipped(s, i + 1, j, depth);
    }
}

/// Braces with nothing between them that counts are an object.
pub proof fn plain_objects_end_at_their_brace(x: Seq<char>)
    requires
        forall|k: int| 0 <= k < x.len() ==> x[k] != '"' && x[k] != '{' && x[k] != '}',
    ensures
        object_text(seq!['{'] + x + seq!['}']),
{
    let o = seq!['{'] + x + seq!['}'];
    let n = o.len() - 1;
    assert(closing_brace(o, 0, 0, false, false) == closing_brace(o, 1, 1, false, false));
    assert forall|k: int| 1 <= k < n implies o[k] != '"' && o[k] != '{' && o[k] != '}' by {
        assert(o[k] == x[k - 1]);
    }
    plain_is_skipped(o, 1, n, 1);
    assert(o[n] == '}');
}

/// Braces within a quoted text do not count, nor does a quotation mark behind a backslash.
pub proof fn quoted_braces_do_not_count(a: Seq<char>, c: char, b: Seq<char>)
    requires
        forall|k: int| 0 <= k < a.len() ==> a[k] != '"' && a[k] != '\\',
        forall|k: int| 0 <= k < b.len() ==> b[k] != '"' && b[k] != '\\',
    ensures
        object_text(seq!['{', '"'] + a + seq!['\\', c] + b + seq!['"', '}']),
{
    let o = seq!['{', '"'] + a + seq!['\\', c] + b + seq!['"', '}'];
    let m = 2 + a.len() as int;
    let n = m + 2 + b.len();
    assert(o[0] == '{' && o[1] == '"' && o[m] == '\\' && o[m + 1] == c && o[n] == '"' && o[n + 1]
        == '}');
    assert(closing_brace(o, 0, 0, false, false) == closing_brace(o, 1, 1, false, false));
    assert(closing_brace(o, 1, 1, false, false) == closing_brace(o, 2, 1, true, false));
    assert forall|k: int| 2 <= k < m implies o[k] != '"' && o[k] != '\\' by {
        assert(o[k] == a[k - 2]);
    }
    quoted_is_skipped(o, 2, m, 1);
    assert(closing_brace(o, m, 1, true, false) == closing_brace(o, m + 1, 1, true, true));
    assert(closing_brace(o, m + 1, 1, true, true) == closing_brace(o, m + 2, 1, true, false));
    assert forall|k: int| m + 2 <= k < n implies o[k] != '"' && o[k] != '\\' by {
        assert(o[k] == b[k - m - 2]);
    }
    quoted_is_skipped(o, m + 2, n, 1);
    assert(closing_brace(o, n, 1, true, false) == closing_brace(o, n + 1, 1, false, false));
    assert(closing_brace(o, n + 1, 1, false, false) == Some(n + 1));
}

proof fn inner_braces_are_paired(
    lead: Seq<char>,
    o: Seq<char>,
    tail: Seq<char>,
    i: int,
    depth: int,
    quoted: bool,
    escaped: bool,
    more: int,
)
    requires
        0 <= i < o.len(),
        closing_brace(o, i, depth, quoted, escaped) == Some(o.len() - 1),
        depth >= 1 || (depth == 0 && i == 0 && o[0] == '{' && !quoted),
        more >= 1,
    ensures
        closing_brace(lead + o + tail, lead.len() + i, depth + more, quoted, escaped)
            == closing_brace(lead + o + tail, (lead.len() + o.len()) as int, more, false, false),
    decreases o.len() - i,
{
    let all = lead + o + tail;
    assert(all[lead.len() + i] == o[i]);
    if i < o.len() - 1 {
        if quoted {
            if escaped {
                inner_braces_are_paired(lead, o, tail, i + 1, depth, true, false, more);
            } else {
                inner_braces_are_paired(
                    lead,
                    o,
                    tail,
                    i + 1,
                    depth,
                    o[i] != '"',
                    o[i] == '\\',
                    more,
                );
            }
        } else if o[i] == '{' {
            inner_braces_are_paired(lead, o, tail, i + 1, depth + 1, false, false, more);
        } else if o[i] == '}' {
            if depth > 1 {
                inner_braces_are_paired(lead, o, tail, i + 1, depth - 1, false, false, more);
            }
        } else {
            inner_braces_are_paired(lead, o, tail, i + 1, depth, o[i] == '"', false, more);
        }
    } else {
        if quoted {
            if escaped {
                assert(closing_brace(o, i + 1, depth, true, false) is None);
            } else {
                assert(closing_brace(o, i + 1, depth, o[i] != '"', o[i] == '\\') is None);
            }
        } else if o[i] == '{' {
            assert(closing_brace(o, i + 1, depth + 1, false, false) is None);
        } else if o[i] == '}' {
            assert(closing_brace(o, i + 1, depth - 1, false, false) is None);
        } else {
            assert(closing_brace(o, i + 1, depth, o[i] == '"', false) is None);
        }
        assert(!quoted && o[i] == '}' && depth <= 1);
        assert(depth == 1);
        assert(lead.len() + i + 1 == lead.len() + o.len());
    }
}

/// An object within an object ends before the outer one does.
pub proof fn objects_nest(lead: Seq<char>, o: Seq<char>, tail: Seq<char>)
    requires
        object_text(o),
        forall|k: int| 0 <= k < lead.len() ==> lead[k] != '"' && lead[k] != '{' && lead[k] != '}',
        forall|k: int| 0 <= k < tail.len() ==> tail[k] != '"' && tail[k] != '{' && tail[k] != '}',
    ensures
        object_text(seq!['{'] + lead + o + tail + seq!['}']),
{
    let front = seq!['{'] + lead;
    let back = tail + seq!['}'];
    let all = seq!['{'] + lead + o + tail + seq!['}'];
    assert(all =~= front + o + back);
    let m = front.len() as int;
    let n = m + o.len();
    assert(closing_brace(all, 0, 0, false, false) == closing_brace(all, 1, 1, false, false));
    assert forall|k: int| 1 <= k < m implies all[k] != '"' && all[k] != '{' && all[k] != '}' by {
        assert(all[k] == lead[k - 1]);
    }
    plain_is_skipped(all, 1, m, 1);
    assert(o.len() > 0);
    inner_braces_are_paired(front, o, back, 0, 0, false, false, 1);
    let e = all.len() - 1;
    assert forall|k: int| n <= k < e implies all[k] != '"' && all[k] != '{' && all[k] != '}' by {
        assert(all[k] == tail[k - n]);
    }
    plain_is_skipped(all, n, e, 1);
    assert(all[e] == '}');
}

/// An answer is taken only where one was read, and it is one of those that were.
pub proof fn answers_are_never_made_up(at: Seq<(int, int)>, readings: Seq<Reading>)
    ensures
        last_answer(at, readings) matches Some(o) ==> exists|k: int|
            0 <= k < readings.len() && (#[trigger] readings[k]) == Reading::Answer(o),
        (forall|k: int| 0 <= k < readings.len() ==> !((#[trigger] readings[k]) is Answer))
            ==> last_answer(at, readings) is None,
{
    picked_is_an_answer(at, readings, at.len() as int);
    if at.len() == readings.len() {
        if let Some(k) = picked(at, readings, at.len() as int).1 {
            assert(readings[k] == Reading::Answer(readings[k]->Answer_0));
        }
    }
}

/// A failure is told by what the tool said of it: what it wrote as an error, else what it wrote, else
/// where to look.
pub proof fn failures_are_told(stdout: Seq<char>, stderr: Seq<char>, instance: Seq<char>)
    ensures
        (exists|i: int| 0 <= i < stderr.len() && !text::is_space(#[trigger] stderr[i]))
            ==> failure_text(stdout, stderr, instance) == stderr,
        (forall|i: int| 0 <= i < stderr.len() ==> text::is_space(#[trigger] stderr[i])) && (exists|
            i: int,
        |
            0 <= i < stdout.len() && !text::is_space(#[trigger] stdout[i])) ==> failure_text(
            stdout,
            stderr,
            instance,
        ) == stdout,
        (forall|i: int| 0 <= i < stderr.len() ==> text::is_space(#[trigger] stderr[i])) && (forall|
            i: int,
        |
            0 <= i < stdout.len() ==> text::is_space(#[trigger] stdout[i])) ==> text::holds(
            failure_text(stdout, stderr, instance),
            "/tmp/collab-debug-"@ + instance + ".txt"@,
        ),
{
    text::blanks_are_trimmed(stdout);
    text::blanks_are_trimmed(stderr);
    text::middle_is_held("(empty output \u{2014} see "@, debug_file(instance), ")"@);
}

/// A count that is not there is none.
pub proof fn missing_counts_are_none(n: Option<u64>)
    ensures
        n matches Some(k) ==> or_zero(n) == k,
        n is None ==> or_zero(n) == 0,
{
}

} // verus!
