//! Small tables with string keys.
use crate::clock::Timestamp;
use crate::text;
use vstd::prelude::*;

verus! {

/// The time that a table holds for a key.
pub open spec fn time_in(t: Seq<(String, Timestamp)>, key: Seq<char>) -> Option<Timestamp>
    decreases t.len(),
{
    if t.len() == 0 {
        None
    } else if t[0].0@ == key {
        Some(t[0].1)
    } else {
        time_in(t.drop_first(), key)
    }
}

/// The text that a table holds for a key.
pub open spec fn text_in(t: Seq<(String, String)>, key: Seq<char>) -> Option<Seq<char>>
    decreases t.len(),
{
    if t.len() == 0 {
        None
    } else if t[0].0@ == key {
        Some(t[0].1@)
    } else {
        text_in(t.drop_first(), key)
    }
}

/// The time held for `key`.
pub fn get_time(t: &Vec<(String, Timestamp)>, key: &str) -> (r: Option<Timestamp>)
    ensures
        r == time_in(t@, key@),
{
    let mut i: usize = 0;
    assert(t@.skip(0) =~= t@);
    while i < t.len()
        invariant
            i <= t@.len(),
            time_in(t@, key@) == time_in(t@.skip(i as int), key@),
        decreases t@.len() - i,
    {
        assert(t@.skip(i as int).drop_first() =~= t@.skip(i + 1));
        assert(t@.skip(i as int)[0] == t@[i as int]);
        if text::same(t[i].0.as_str(), key) {
            return Some(t[i].1);
        }
        i += 1;
    }
    None
}

/// The text held for `key`.
pub fn get_text(t: &Vec<(String, String)>, key: &str) -> (r: Option<String>)
    ensures
        text::opt_text(r) == text_in(t@, key@),
{
    let mut i: usize = 0;
    assert(t@.skip(0) =~= t@);
    while i < t.len()
        invariant
            i <= t@.len(),
            text_in(t@, key@) == text_in(t@.skip(i as int), key@),
        decreases t@.len() - i,
    {
        assert(t@.skip(i as int).drop_first() =~= t@.skip(i + 1));
        assert(t@.skip(i as int)[0] == t@[i as int]);
        if text::same(t[i].0.as_str(), key) {
            return Some(t[i].1.clone());
        }
        i += 1;
    }
    None
}

/// A row with another key does not change what a table holds for `k`, nor does one behind the
/// first row for `k`.
proof fn time_set_meaning(
    t: Seq<(String, Timestamp)>,
    i: int,
    row: (String, Timestamp),
    k: Seq<char>,
)
    requires
        0 <= i <= t.len(),
        forall|j: int| 0 <= j < i ==> (#[trigger] t[j]).0@ != row.0@,
        i < t.len() ==> t[i].0@ == row.0@,
    ensures
        ({
            let u = if i < t.len() {
                t.update(i, row)
            } else {
                t.push(row)
            };
            time_in(u, k) == (if k == row.0@ {
                Some(row.1)
            } else {
                time_in(t, k)
            })
        }),
    decreases t.len(),
{
    let u = if i < t.len() {
        t.update(i, row)
    } else {
        t.push(row)
    };
    if t.len() == 0 {
        assert(u.drop_first() =~= t);
    } else if i == 0 {
        assert(u.drop_first() =~= t.drop_first());
    } else {
        let rest = t.drop_first();
        assert forall|j: int| 0 <= j < i - 1 implies (#[trigger] rest[j]).0@ != row.0@ by {
            assert(rest[j] == t[j + 1]);
        }
        time_set_meaning(rest, i - 1, row, k);
        let v = if i - 1 < rest.len() {
            rest.update(i - 1, row)
        } else {
            rest.push(row)
        };
        assert(u.drop_first() =~= v);
        assert(u[0] == t[0]);
    }
}

/// Holds `value` for `key` from now on.
pub fn set_time(t: &mut Vec<(String, Timestamp)>, key: &str, value: Timestamp)
    ensures
        forall|k: Seq<char>|
            #[trigger] time_in(final(t)@, k) == (if k == key@ {
                Some(value)
            } else {
                time_in(old(t)@, k)
            }),
{
    let ghost before = t@;
    let mut i: usize = 0;
    while i < t.len() && !text::same(t[i].0.as_str(), key)
        invariant
            i <= t@.len(),
            t@ == before,
            before == old(t)@,
            forall|j: int| 0 <= j < i ==> (#[trigger] before[j]).0@ != key@,
        decreases t@.len() - i,
    {
        i += 1;
    }
    let row = (key.to_owned(), value);
    let ghost r = row;
    if i < t.len() {
        t.set(i, row);
    } else {
        t.push(row);
    }
    assert forall|k: Seq<char>| #[trigger] time_in(t@, k) == (if k == key@ {
        Some(value)
    } else {
        time_in(before, k)
    }) by {
        time_set_meaning(before, i as int, r, k);
    }
}

proof fn text_set_meaning(t: Seq<(String, String)>, i: int, row: (String, String), k: Seq<char>)
    requires
        0 <= i <= t.len(),
        forall|j: int| 0 <= j < i ==> (#[trigger] t[j]).0@ != row.0@,
        i < t.len() ==> t[i].0@ == row.0@,
    ensures
        ({
            let u = if i < t.len() {
                t.update(i, row)
            } else {
                t.push(row)
            };
            text_in(u, k) == (if k == row.0@ {
                Some(row.1@)
            } else {
                text_in(t, k)
            })
        }),
    decreases t.len(),
{
    let u = if i < t.len() {
        t.update(i, row)
    } else {
        t.push(row)
    };
    if t.len() == 0 {
        assert(u.drop_first() =~= t);
    } else if i == 0 {
        assert(u.drop_first() =~= t.drop_first());
    } else {
        let rest = t.drop_first();
        assert forall|j: int| 0 <= j < i - 1 implies (#[trigger] rest[j]).0@ != row.0@ by {
            assert(rest[j] == t[j + 1]);
        }
        text_set_meaning(rest, i - 1, row, k);
        let v = if i - 1 < rest.len() {
            rest.update(i - 1, row)
        } else {
            rest.push(row)
        };
        assert(u.drop_first() =~= v);
        assert(u[0] == t[0]);
    }
}

/// Holds `value` for `key` from now on.
pub fn set_text(t: &mut Vec<(String, String)>, key: &str, value: &str)
    ensures
        forall|k: Seq<char>|
            #[trigger] text_in(final(t)@, k) == (if k == key@ {
                Some(value@)
            } else {
                text_in(old(t)@, k)
            }),
{
    let ghost before = t@;
    let mut i: usize = 0;
    while i < t.len() && !text::same(t[i].0.as_str(), key)
        invariant
            i <= t@.len(),
            t@ == before,
            before == old(t)@,
            forall|j: int| 0 <= j < i ==> (#[trigger] before[j]).0@ != key@,
        decreases t@.len() - i,
    {
        i += 1;
    }
    let row = (key.to_owned(), value.to_owned());
    let ghost r = row;
    if i < t.len() {
        t.set(i, row);
    } else {
        t.push(row);
    }
    assert forall|k: Seq<char>| #[trigger] text_in(t@, k) == (if k == key@ {
        Some(value@)
    } else {
        text_in(before, k)
    }) by {
        text_set_meaning(before, i as int, r, k);
    }
}

/// The first row of a key gives its time.
pub proof fn the_first_time_counts(
    a: Seq<(String, Timestamp)>,
    b: Seq<(String, Timestamp)>,
    x: (String, Timestamp),
    key: Seq<char>,
)
    ensures
        time_in(a + b, key) == (if time_in(a, key) is Some {
            time_in(a, key)
        } else {
            time_in(b, key)
        }),
        time_in(seq![x], key) == (if x.0@ == key {
            Some(x.1)
        } else {
            None
        }),
    decreases a.len(),
{
    let one = seq![x];
    assert(one.drop_first() =~= Seq::<(String, Timestamp)>::empty());
    assert(time_in(one.drop_first(), key) is None);
    if a.len() == 0 {
        assert(a + b =~= b);
    } else {
        the_first_time_counts(a.drop_first(), b, x, key);
        assert((a + b).drop_first() =~= a.drop_first() + b);
        assert((a + b)[0] == a[0]);
    }
}

/// The first row of a key gives its text.
pub proof fn the_first_text_counts(
    a: Seq<(String, String)>,
    b: Seq<(String, String)>,
    x: (String, String),
    key: Seq<char>,
)
    ensures
        text_in(a + b, key) == (if text_in(a, key) is Some {
            text_in(a, key)
        } else {
            text_in(b, key)
        }),
        text_in(seq![x], key) == (if x.0@ == key {
            Some(x.1@)
        } else {
            None
        }),
    decreases a.len(),
{
    let one = seq![x];
    assert(one.drop_first() =~= Seq::<(String, String)>::empty());
    assert(text_in(one.drop_first(), key) is None);
    if a.len() == 0 {
        assert(a + b =~= b);
    } else {
        the_first_text_counts(a.drop_first(), b, x, key);
        assert((a + b).drop_first() =~= a.drop_first() + b);
        assert((a + b)[0] == a[0]);
    }
}

} // verus!
