//! The event stream and the files of a worker: cutting a stream into events, reading a role out of
//! an instruction file, reconnecting and giving up.
use crate::text;
use vstd::prelude::*;

verus! {

// ── Events ──────────────────────────────────────────────────────────────────
/// What ends an event.
pub open spec fn blank_line() -> Seq<char> {
    seq!['\n', '\n']
}

/// The payloads among the lines of an event.
pub open spec fn payloads(lines: Seq<Seq<char>>) -> Seq<Seq<char>>
    decreases lines.len(),
{
    if lines.len() == 0 {
        Seq::empty()
    } else {
        let r = payloads(lines.drop_last());
        match text::after_prefix(lines.last(), "data: "@) {
            Some(d) => r.push(d),
            None => r,
        }
    }
}

/// The payloads of the complete events in a buffer.
pub open spec fn events_in(buffer: Seq<char>) -> Seq<Seq<char>>
    decreases buffer.len(),
{
    proof {
        text::find_from_meaning(buffer, blank_line(), 0);
    }
    match text::find_from(buffer, blank_line(), 0) {
        Some(k) => payloads(text::lines_of(buffer.take(k))) + events_in(buffer.skip(k + 2)),
        None => Seq::empty(),
    }
}

/// What is left of a buffer behind its complete events.
pub open spec fn unfinished(buffer: Seq<char>) -> Seq<char>
    decreases buffer.len(),
{
    proof {
        text::find_from_meaning(buffer, blank_line(), 0);
    }
    match text::find_from(buffer, blank_line(), 0) {
        Some(k) => unfinished(buffer.skip(k + 2)),
        None => buffer,
    }
}

fn payloads_of(event: &str) -> (r: Vec<String>)
    ensures
        text::texts(r@) == payloads(text::lines_of(event@)),
{
    let lines = text::lines(event);
    let ghost all = text::texts(lines@);
    let mut r: Vec<String> = Vec::new();
    let mut i: usize = 0;
    assert(text::texts(r@) =~= payloads(all.take(0)));
    while i < lines.len()
        invariant
            i <= lines@.len(),
            all == text::texts(lines@),
            text::texts(r@) == payloads(all.take(i as int)),
        decreases lines@.len() - i,
    {
        assert(all.take(i + 1).drop_last() =~= all.take(i as int));
        match text::strip_prefix(lines[i].as_str(), "data: ") {
            Some(d) => {
                let ghost before = r@;
                let ghost name = d@;
                r.push(d);
                assert(text::texts(r@) =~= text::texts(before).push(name));
            },
            None => {},
        }
        i += 1;
    }
    assert(all.take(i as int) =~= all);
    r
}

/// Takes the complete events out of a buffer: their payloads, and what is left.
pub fn take_events(buffer: &str) -> (r: (Vec<String>, String))
    ensures
        text::texts(r.0@) == events_in(buffer@),
        r.1@ == unfinished(buffer@),
{
    let v = text::chars_of(buffer);
    let mut stop: Vec<char> = Vec::new();
    stop.push('\n');
    stop.push('\n');
    assert(stop@ =~= blank_line());
    let mut out: Vec<String> = Vec::new();
    let mut from: usize = 0;
    assert(v@.skip(0) =~= v@);
    assert(text::texts(out@) + events_in(v@.skip(0)) =~= events_in(v@));
    loop
        invariant
            from <= v.len(),
            v@ == buffer@,
            stop@ == blank_line(),
            text::texts(out@) + events_in(v@.skip(from as int)) == events_in(buffer@),
            unfinished(v@.skip(from as int)) == unfinished(buffer@),
        decreases v@.len() - from,
    {
        let ghost t = v@.skip(from as int);
        proof {
            found_behind(v@, stop@, from as int, 0);
        }
        match text::find_in(&v, &stop, from) {
            Some(k) => {
                let event = text::slice_of(&v, from, k);
                let ps = payloads_of(event.as_str());
                let ghost before = out@;
                let ghost news = ps@;
                let mut ps = ps;
                out.append(&mut ps);
                proof {
                    assert(event@ =~= t.take(k - from));
                    assert(t.skip(k - from + 2) =~= v@.skip(k + 2));
                    assert(text::texts(out@) =~= text::texts(before) + text::texts(news));
                    assert(text::texts(out@) + events_in(v@.skip(k + 2)) =~= text::texts(before) + (
                    text::texts(news) + events_in(v@.skip(k + 2))));
                }
                from = k + 2;
            },
            None => {
                let rest = text::slice_of(&v, from, v.len());
                assert(rest@ =~= t);
                assert(text::texts(out@) + Seq::<Seq<char>>::empty() =~= text::texts(out@));
                return (out, rest);
            },
        }
    }
}

/// Searching a string from `from` on is searching what is left behind `from`.
proof fn found_behind(h: Seq<char>, n: Seq<char>, from: int, i: int)
    requires
        0 <= from <= h.len(),
        0 <= i,
    ensures
        text::find_from(h.skip(from), n, i) == (match text::find_from(h, n, from + i) {
            Some(k) => Some(k - from),
            None => None,
        }),
    decreases h.len() - from - i + 1,
{
    let t = h.skip(from);
    if i + n.len() <= t.len() {
        assert(t.subrange(i, i + n.len()) =~= h.subrange(from + i, from + i + n.len()));
        if !text::occurs_at(t, n, i) {
            found_behind(h, n, from, i + 1);
        }
    }
}

/// An occurrence is found again in a longer string.
proof fn found_in_longer(a: Seq<char>, b: Seq<char>, n: Seq<char>)
    requires
        text::find_from(a, n, 0) is Some,
    ensures
        text::find_from(a + b, n, 0) == text::find_from(a, n, 0),
{
    let c = a + b;
    text::find_from_meaning(a, n, 0);
    text::find_from_meaning(c, n, 0);
    let k = text::find_from(a, n, 0)->0;
    assert(c.subrange(k, k + n.len()) =~= a.subrange(k, k + n.len()));
    assert(text::occurs_at(c, n, k));
    let j = text::find_from(c, n, 0)->0;
    if j < k {
        assert(a.subrange(j, j + n.len()) =~= c.subrange(j, j + n.len()));
        assert(text::occurs_at(a, n, j));
    }
}

/// A stream may be cut anywhere: the events of two chunks, with what the first left unfinished
/// put before the second, are the events of the whole.
pub proof fn chunks_do_not_matter(a: Seq<char>, b: Seq<char>)
    ensures
        events_in(a + b) == events_in(a) + events_in(unfinished(a) + b),
        unfinished(a + b) == unfinished(unfinished(a) + b),
    decreases a.len(),
{
    text::find_from_meaning(a, blank_line(), 0);
    match text::find_from(a, blank_line(), 0) {
        Some(k) => {
            found_in_longer(a, b, blank_line());
            let rest = a.skip(k + 2);
            chunks_do_not_matter(rest, b);
            assert((a + b).take(k) =~= a.take(k));
            assert((a + b).skip(k + 2) =~= rest + b);
            let head = payloads(text::lines_of(a.take(k)));
            let tail = events_in(unfinished(rest) + b);
            assert(head + (events_in(rest) + tail) =~= (head + events_in(rest)) + tail);
        },
        None => {
            assert(Seq::<Seq<char>>::empty() + events_in(a + b) =~= events_in(a + b));
        },
    }
}

// ── Roles ───────────────────────────────────────────────────────────────────
/// What stands between the first label in a line and the next one.
pub open spec fn after_label(line: Seq<char>, label: Seq<char>) -> Option<Seq<char>> {
    match text::find_from(line, label, 0) {
        Some(k) => {
            let rest = line.skip(k + label.len());
            match text::find_from(rest, label, 0) {
                Some(j) => Some(rest.take(j)),
                None => Some(rest),
            }
        },
        None => None,
    }
}

/// The role that a file gives: what follows the label in the first line that holds it, without
/// markup at its end.
pub open spec fn role_in_lines(lines: Seq<Seq<char>>) -> Option<Seq<char>>
    decreases lines.len(),
{
    if lines.len() == 0 {
        None
    } else {
        match after_label(lines[0], "Your role:"@) {
            Some(r) => Some(text::strip_back(text::trimmed(r), text::Class::Only('*'))),
            None => role_in_lines(lines.drop_first()),
        }
    }
}

/// The role of a worker: from the first of its two instruction files that gives one.
pub open spec fn role_from(agent: Option<Seq<char>>, older: Option<Seq<char>>) -> Seq<char> {
    let first = match agent {
        Some(s) => role_in_lines(text::lines_of(s)),
        None => None,
    };
    let second = match older {
        Some(s) => role_in_lines(text::lines_of(s)),
        None => None,
    };
    if first is Some {
        first->0
    } else if second is Some {
        second->0
    } else {
        "Worker"@
    }
}

fn label_rest(line: &str) -> (r: Option<String>)
    ensures
        text::opt_text(r) == after_label(line@, "Your role:"@),
{
    let v = text::chars_of(line);
    let label = text::chars_of("Your role:");
    let k = match text::find_in(&v, &label, 0) {
        Some(k) => k,
        None => {
            return None;
        },
    };
    let start: usize = k + label.len();
    let rest = text::slice_of(&v, start, v.len());
    assert(rest@ =~= line@.skip(start as int));
    let w = text::chars_of(rest.as_str());
    match text::find_in(&w, &label, 0) {
        Some(j) => {
            let r = text::slice_of(&w, 0, j);
            assert(r@ =~= rest@.take(j as int));
            Some(r)
        },
        None => Some(rest),
    }
}

fn role_in(contents: &str) -> (r: Option<String>)
    ensures
        text::opt_text(r) == role_in_lines(text::lines_of(contents@)),
{
    let lines = text::lines(contents);
    let ghost all = text::texts(lines@);
    let mut i: usize = 0;
    assert(all.skip(0) =~= all);
    while i < lines.len()
        invariant
            i <= lines@.len(),
            all == text::texts(lines@),
            all == text::lines_of(contents@),
            role_in_lines(all) == role_in_lines(all.skip(i as int)),
        decreases lines@.len() - i,
    {
        assert(all.skip(i as int).drop_first() =~= all.skip(i + 1));
        assert(all.skip(i as int)[0] == lines@[i as int]@);
        match label_rest(lines[i].as_str()) {
            Some(rest) => {
                let t = text::trim(rest.as_str());
                return Some(text::trim_back(t.as_str(), text::Class::Only('*')));
            },
            None => {},
        }
        i += 1;
    }
    None
}

/// The role of a worker, given the contents of its instruction files where they could be read.
pub fn get_role(agent: &Option<String>, older: &Option<String>) -> (r: String)
    ensures
        r@ == role_from(text::opt_text(*agent), text::opt_text(*older)),
{
    if let Some(s) = agent {
        if let Some(role) = role_in(s.as_str()) {
            return role;
        }
    }
    if let Some(s) = older {
        if let Some(role) = role_in(s.as_str()) {
            return role;
        }
    }
    "Worker".to_owned()
}

/// The role that a line gives to the heartbeat: what follows the label, without markup.
pub open spec fn beat_role(line: Seq<char>) -> Option<Seq<char>> {
    match text::find_from(line, "Your role"@, 0) {
        Some(k) => {
            let rest = line.skip(k + "Your role"@.len());
            let r = text::strip_back(
                text::strip_front(rest, text::Class::Markup),
                text::Class::Only('*'),
            );
            if r.len() > 0 {
                Some(r)
            } else {
                None
            }
        },
        None => None,
    }
}

/// The first role among the lines of a file.
pub open spec fn beat_role_in(lines: Seq<Seq<char>>) -> Option<Seq<char>>
    decreases lines.len(),
{
    if lines.len() == 0 {
        None
    } else if beat_role(lines[0]) is Some {
        beat_role(lines[0])
    } else {
        beat_role_in(lines.drop_first())
    }
}

/// `current`, replaced by the role that a file gives.
pub open spec fn read_role(current: Seq<char>, file: Option<Seq<char>>) -> Seq<char> {
    match file {
        Some(s) => match beat_role_in(text::lines_of(s)) {
            Some(r) => r,
            None => current,
        },
        None => current,
    }
}

/// What the heartbeat reports: the current status, replaced by the role that the first file
/// gives; the second file is read where there is no first one or it left no role but the default.
pub open spec fn beat_text(
    status: Seq<char>,
    agent: Option<Seq<char>>,
    older: Option<Seq<char>>,
) -> Seq<char> {
    let first = read_role(status, agent);
    if agent is Some && first.len() > 0 && first != "Worker"@ {
        first
    } else {
        read_role(first, older)
    }
}

fn role_of_line(line: &str) -> (r: Option<String>)
    ensures
        text::opt_text(r) == beat_role(line@),
{
    let v = text::chars_of(line);
    let label = text::chars_of("Your role");
    match text::find_in(&v, &label, 0) {
        Some(k) => {
            let start: usize = k + label.len();
            let rest = text::slice_of(&v, start, v.len());
            assert(rest@ =~= line@.skip(start as int));
            let a = text::trim_front(rest.as_str(), text::Class::Markup);
            let b = text::trim_back(a.as_str(), text::Class::Only('*'));
            if b.as_str().is_empty() {
                None
            } else {
                Some(b)
            }
        },
        None => None,
    }
}

fn role_or(current: String, file: &Option<String>) -> (r: String)
    ensures
        r@ == read_role(current@, text::opt_text(*file)),
{
    match file {
        Some(s) => {
            let lines = text::lines(s.as_str());
            let ghost all = text::texts(lines@);
            let mut i: usize = 0;
            assert(all.skip(0) =~= all);
            while i < lines.len()
                invariant
                    i <= lines@.len(),
                    all == text::texts(lines@),
                    *file == Some(*s),
                    all == text::lines_of(s@),
                    beat_role_in(all) == beat_role_in(all.skip(i as int)),
                decreases lines@.len() - i,
            {
                assert(all.skip(i as int).drop_first() =~= all.skip(i + 1));
                assert(all.skip(i as int)[0] == lines@[i as int]@);
                match role_of_line(lines[i].as_str()) {
                    Some(r) => {
                        return r;
                    },
                    None => {},
                }
                i += 1;
            }
            current
        },
        None => current,
    }
}

/// What the heartbeat reports, given the contents of the instruction files where they could be
/// read.
pub fn heartbeat_role(status: &str, agent: &Option<String>, older: &Option<String>) -> (r: String)
    ensures
        r@ == beat_text(status@, text::opt_text(*agent), text::opt_text(*older)),
{
    let first = role_or(status.to_owned(), agent);
    if agent.is_some() && !first.as_str().is_empty() && !text::same(first.as_str(), "Worker") {
        first
    } else {
        role_or(first, older)
    }
}

// ── Reconnecting and giving up ──────────────────────────────────────────────
/// The longest pause between two attempts to connect, in seconds.
pub const MAX_BACKOFF_SECS: u64 = 30;

/// The pause behind the next failure: twice as long, up to the longest.
pub fn next_backoff(secs: u64) -> (r: u64)
    ensures
        r == (if 2 * secs < MAX_BACKOFF_SECS {
            2 * secs
        } else {
            MAX_BACKOFF_SECS as int
        }),
{
    if secs < MAX_BACKOFF_SECS / 2 {
        2 * secs
    } else {
        MAX_BACKOFF_SECS
    }
}

/// The pause behind `n` failures in a row.
pub open spec fn backoff_after(n: nat) -> int
    decreases n,
{
    if n == 0 {
        1
    } else {
        let b = 2 * backoff_after((n - 1) as nat);
        if b < MAX_BACKOFF_SECS {
            b
        } else {
            MAX_BACKOFF_SECS as int
        }
    }
}

/// Pauses never shrink while the failures last, and never exceed the longest.
pub proof fn backoff_grows_to_its_bound(n: nat)
    ensures
        1 <= backoff_after(n) <= MAX_BACKOFF_SECS,
        backoff_after(n) <= backoff_after(n + 1),
    decreases n,
{
    if n > 0 {
        backoff_grows_to_its_bound((n - 1) as nat);
    }
    reveal_with_fuel(backoff_after, 2);
}

/// How many heartbeats in a row may fail before a worker ends itself.
pub const SELF_KILL_AFTER: u32 = 1;

/// Heartbeats that failed in a row behind one more heartbeat, and whether the worker ends itself.
pub fn after_heartbeat(failures: u32, ok: bool) -> (r: (u32, bool))
    requires
        failures < u32::MAX,
    ensures
        r.0 == (if ok {
            0
        } else {
            failures + 1
        }),
        r.1 == (!ok && failures + 1 >= SELF_KILL_AFTER),
        r.1 <==> !ok,
{
    if ok {
        (0, false)
    } else {
        let n: u32 = failures + 1;
        (n, n >= SELF_KILL_AFTER)
    }
}

/// Every line of an event that begins with the mark of data gives what stands behind the mark; the
/// other lines give nothing.
pub proof fn each_line_is_read_alone(a: Seq<Seq<char>>, b: Seq<Seq<char>>, x: Seq<char>)
    ensures
        payloads(a + b) == payloads(a) + payloads(b),
        payloads(seq![x]) == (if x.len() >= 6 && x.take(6) == seq!['d', 'a', 't', 'a', ':', ' '] {
            seq![x.skip(6)]
        } else {
            Seq::empty()
        }),
    decreases b.len(),
{
    let one = seq![x];
    assert(one.drop_last() =~= Seq::<Seq<char>>::empty());
    assert(payloads(one.drop_last()).len() == 0);
    reveal_strlit("data: ");
    let mark = "data: "@;
    assert(mark =~= seq!['d', 'a', 't', 'a', ':', ' ']);
    if x.len() >= 6 && x.take(6) == mark {
        assert(mark =~= x.subrange(0, 6));
    }
    if mark.is_prefix_of(x) {
        assert(x.take(6) =~= mark);
    }
    assert(payloads(one) =~= (if x.len() >= 6 && x.take(6) == seq!['d', 'a', 't', 'a', ':', ' '] {
            seq![x.skip(6)]
        } else {
            Seq::empty()
        }));
    if b.len() == 0 {
        assert(a + b =~= a);
        assert(payloads(a) + payloads(b) =~= payloads(a));
    } else {
        each_line_is_read_alone(a, b.drop_last(), x);
        assert((a + b).drop_last() =~= a + b.drop_last());
        assert((a + b).last() == b.last());
        assert(payloads(a + b) =~= payloads(a) + payloads(b));
    }
}

/// An event of one line of data is read as soon as its blank line is there, and nothing is left over;
/// without a blank line everything is kept and nothing is read.
pub proof fn events_are_read_whole(d: Seq<char>)
    requires
        forall|i: int| 0 <= i < d.len() ==> d[i] != '\n',
    ensures
        events_in("data: "@ + d + blank_line()) == seq![d],
        unfinished("data: "@ + d + blank_line()).len() == 0,
        events_in(d).len() == 0,
        unfinished(d) == d,
{
    reveal_strlit("data: ");
    let line = "data: "@ + d;
    let s = line + blank_line();
    let none = Seq::<char>::empty();
    let k = line.len() as int;
    assert forall|i: int| 0 <= i < line.len() implies line[i] != '\n' by {
        if i >= 6 {
            assert(line[i] == d[i - 6]);
        }
    }
    assert(s + none =~= s);
    assert forall|j: int| 0 <= j < line.len() implies !text::occurs_at(
        line + blank_line() + none,
        blank_line(),
        j,
    ) by {
        let h = line + blank_line() + none;
        if text::occurs_at(h, blank_line(), j) {
            assert(h.subrange(j, j + 2)[0] == h[j]);
            assert(h[j] == line[j]);
        }
    }
    text::first_places_are_found(line, blank_line(), none);
    assert(s.take(k) =~= line);
    assert(s.skip(k + 2) =~= none);
    text::lines_are_read_alone(line, none);
    let one = seq![line];
    assert(text::lines_of(line) == one);
    each_line_is_read_alone(one, one, line);
    assert(line.take(6) =~= seq!['d', 'a', 't', 'a', ':', ' ']);
    assert(line.skip(6) =~= d);
    text::find_from_meaning(none, blank_line(), 0);
    text::find_from_meaning(d, blank_line(), 0);
    if let Some(j) = text::find_from(d, blank_line(), 0) {
        assert(d.subrange(j, j + 2)[0] == d[j]);
    }
    if let Some(j) = text::find_from(none, blank_line(), 0) {
        assert(false);
    }
    assert(events_in(none).len() == 0);
    assert(unfinished(none) == none);
    assert(unfinished(s) == unfinished(s.skip(k + 2)));
    assert(events_in(s) =~= seq![d]);
}

/// The first line that names a role decides; what stands between its label and the next one is the
/// role, without blanks round it and stars behind it.
pub proof fn the_first_role_counts(a: Seq<Seq<char>>, b: Seq<Seq<char>>, x: Seq<char>)
    ensures
        role_in_lines(a + b) == (if role_in_lines(a) is Some {
            role_in_lines(a)
        } else {
            role_in_lines(b)
        }),
        role_in_lines(seq![x]) == (match after_label(x, "Your role:"@) {
            Some(r) => Some(text::strip_back(text::trimmed(r), text::Class::Only('*'))),
            None => None,
        }),
    decreases a.len(),
{
    let one = seq![x];
    assert(one.drop_first() =~= Seq::<Seq<char>>::empty());
    assert(role_in_lines(one.drop_first()) is None);
    if a.len() == 0 {
        assert(a + b =~= b);
    } else {
        the_first_role_counts(a.drop_first(), b, x);
        assert((a + b).drop_first() =~= a.drop_first() + b);
        assert((a + b)[0] == a[0]);
    }
}

/// The first line that names a role which is not empty decides what a heartbeat says.
pub proof fn the_first_status_counts(a: Seq<Seq<char>>, b: Seq<Seq<char>>, x: Seq<char>)
    ensures
        beat_role_in(a + b) == (if beat_role_in(a) is Some {
            beat_role_in(a)
        } else {
            beat_role_in(b)
        }),
        beat_role_in(seq![x]) == (beat_role(x)),
    decreases a.len(),
{
    let one = seq![x];
    assert(one.drop_first() =~= Seq::<Seq<char>>::empty());
    assert(beat_role_in(one.drop_first()) is None);
    if a.len() == 0 {
        assert(a + b =~= b);
    } else {
        the_first_status_counts(a.drop_first(), b, x);
        assert((a + b).drop_first() =~= a.drop_first() + b);
        assert((a + b)[0] == a[0]);
    }
}

/// What stands behind the label is found wherever the label first stands.
pub proof fn labels_are_found(lead: Seq<char>, label: Seq<char>, rest: Seq<char>)
    requires
        label.len() > 0,
        forall|j: int| 0 <= j < lead.len() ==> !text::occurs_at(lead + label + rest, label, j),
        forall|j: int| 0 <= j ==> !text::occurs_at(rest, label, j),
    ensures
        after_label(lead + label + rest, label) == Some(rest),
        after_label(rest, label) is None,
{
    text::first_places_are_found(lead, label, rest);
    let line = lead + label + rest;
    let k = lead.len() as int;
    assert(line.skip(k + label.len()) =~= rest);
    text::find_from_meaning(rest, label, 0);
}

/// The role in the newer file counts before that in the older one; without either a worker is just
/// that.
pub proof fn newer_files_count_first(agent: Option<Seq<char>>, older: Option<Seq<char>>)
    ensures
        agent is Some && role_in_lines(text::lines_of(agent->0)) is Some ==> role_from(agent, older)
            == role_in_lines(text::lines_of(agent->0))->0,
        (agent is None || role_in_lines(text::lines_of(agent->0)) is None) && older is Some
            && role_in_lines(text::lines_of(older->0)) is Some ==> role_from(agent, older)
            == role_in_lines(text::lines_of(older->0))->0,
        (agent is None || role_in_lines(text::lines_of(agent->0)) is None) && (older is None
            || role_in_lines(text::lines_of(older->0)) is None) ==> role_from(agent, older)
            == "Worker"@,
{
}

/// A heartbeat says the role of the newer file where it names one other than the usual, else that of
/// the older file, else what it said before.
pub proof fn heartbeats_say_the_role(
    status: Seq<char>,
    agent: Option<Seq<char>>,
    older: Option<Seq<char>>,
)
    ensures
        agent is Some && beat_role_in(text::lines_of(agent->0)) is Some && beat_role_in(
            text::lines_of(agent->0),
        )->0 != "Worker"@ ==> beat_text(status, agent, older) == beat_role_in(
            text::lines_of(agent->0),
        )->0,
        agent is None && older is Some && beat_role_in(text::lines_of(older->0)) is Some
            ==> beat_text(status, agent, older) == beat_role_in(text::lines_of(older->0))->0,
        agent is None && older is None ==> beat_text(status, agent, older) == status,
{
    if let Some(s) = agent {
        status_is_not_empty(text::lines_of(s));
    }
}

proof fn status_is_not_empty(lines: Seq<Seq<char>>)
    ensures
        beat_role_in(lines) matches Some(r) ==> r.len() > 0,
    decreases lines.len(),
{
    if lines.len() > 0 {
        status_is_not_empty(lines.drop_first());
    }
}

/// A waiting time begins with one second and doubles up to half a minute.
pub proof fn backoff_doubles(n: nat)
    ensures
        backoff_after(0) == 1,
        n < 4 ==> backoff_after(n + 1) == 2 * backoff_after(n),
        n >= 5 ==> backoff_after(n) == 30,
    decreases n,
{
    reveal_with_fuel(backoff_after, 7);
    if n > 5 {
        backoff_doubles((n - 1) as nat);
    }
}

/// What stands behind the label ends where the label stands again.
pub proof fn labels_end_what_they_label(
    lead: Seq<char>,
    label: Seq<char>,
    mid: Seq<char>,
    rest: Seq<char>,
)
    requires
        label.len() > 0,
        forall|j: int|
            0 <= j < lead.len() ==> !text::occurs_at(
                lead + label + (mid + label + rest),
                label,
                j,
            ),
        forall|j: int| 0 <= j < mid.len() ==> !text::occurs_at(mid + label + rest, label, j),
    ensures
        after_label(lead + label + (mid + label + rest), label) == Some(mid),
{
    let behind = mid + label + rest;
    text::first_places_are_found(lead, label, behind);
    text::first_places_are_found(mid, label, rest);
    let line = lead + label + behind;
    assert(line.skip(lead.len() as int + label.len()) =~= behind);
    assert(behind.take(mid.len() as int) =~= mid);
}

/// A role in a heartbeat is what stands behind the words, without the marks round it, where anything
/// is left.
pub proof fn statuses_are_bare(lead: Seq<char>, rest: Seq<char>)
    requires
        forall|j: int|
            0 <= j < lead.len() ==> !text::occurs_at(lead + "Your role"@ + rest, "Your role"@, j),
    ensures
        ({
            let r = text::strip_back(
                text::strip_front(rest, text::Class::Markup),
                text::Class::Only('*'),
            );
            beat_role(lead + "Your role"@ + rest) == (if r.len() > 0 {
                Some(r)
            } else {
                None
            })
        }),
{
    let label = "Your role"@;
    text::first_places_are_found(lead, label, rest);
    let line = lead + label + rest;
    assert(line.skip(lead.len() as int + label.len()) =~= rest);
}

} // verus!
