//! Paths as text, with `/` between their parts.
use crate::text;
use vstd::prelude::*;

verus! {

/// `rest` below `base`; a path that starts at the root stands for itself.
pub open spec fn below(base: Seq<char>, rest: Seq<char>) -> Seq<char> {
    if rest.len() > 0 && rest[0] == '/' {
        rest
    } else if base.len() == 0 || base.last() == '/' {
        base + rest
    } else {
        base + "/"@ + rest
    }
}

/// `rest` below `base`.
pub fn join(base: &str, rest: &str) -> (r: String)
    ensures
        r@ == below(base@, rest@),
{
    let b = text::chars_of(base);
    let v = text::chars_of(rest);
    if v.len() > 0 && v[0] == '/' {
        rest.to_owned()
    } else if b.len() == 0 || b[b.len() - 1] == '/' {
        text::glue(base, rest)
    } else {
        text::glue3(base, "/", rest)
    }
}

/// A path without the slashes and the steps to itself at its end.
pub open spec fn bare(p: Seq<char>) -> Seq<char>
    decreases p.len(),
{
    if p.len() > 1 && p.last() == '/' {
        bare(p.drop_last())
    } else if p.len() > 1 && p.last() == '.' && p[p.len() - 2] == '/' {
        bare(p.drop_last())
    } else {
        p
    }
}

/// Where the last slash stands.
pub open spec fn last_slash(p: Seq<char>) -> Option<int>
    decreases p.len(),
{
    if p.len() == 0 {
        None
    } else if p.last() == '/' {
        Some(p.len() - 1)
    } else {
        last_slash(p.drop_last())
    }
}

proof fn bare_len(p: Seq<char>)
    ensures
        bare(p).len() <= p.len(),
    decreases p.len(),
{
    if p.len() > 1 {
        bare_len(p.drop_last());
    }
}

proof fn last_slash_meaning(p: Seq<char>)
    ensures
        last_slash(p) matches Some(i) ==> 0 <= i < p.len() && p[i] == '/',
    decreases p.len(),
{
    if p.len() > 0 {
        last_slash_meaning(p.drop_last());
    }
}

/// The directory that holds a path; the root and the empty path are held by none.
pub open spec fn parent(p: Seq<char>) -> Option<Seq<char>> {
    let b = bare(p);
    if b.len() == 0 || b == seq!['/'] {
        None
    } else {
        match last_slash(b) {
            None => Some(Seq::empty()),
            Some(i) => if i == 0 {
                Some(seq!['/'])
            } else {
                Some(bare(b.take(i)))
            },
        }
    }
}

/// The directory that holds a path is written with fewer characters.
pub proof fn parent_is_shorter(p: Seq<char>)
    ensures
        parent(p) matches Some(q) ==> q.len() < p.len(),
{
    let b = bare(p);
    bare_len(p);
    last_slash_meaning(b);
    if let Some(i) = last_slash(b) {
        if i > 0 {
            bare_len(b.take(i));
        } else if b.len() == 1 {
            assert(b =~= seq!['/']);
        }
    }
}

/// A path and the directories that hold it, the nearest first.
pub open spec fn upward(p: Seq<char>) -> Seq<Seq<char>>
    decreases p.len(),
{
    proof {
        parent_is_shorter(p);
    }
    match parent(p) {
        Some(q) => seq![p] + upward(q),
        None => seq![p],
    }
}

fn bare_chars(v: Vec<char>) -> (r: Vec<char>)
    ensures
        r@ == bare(v@),
{
    let ghost all = v@;
    let mut v = v;
    while v.len() > 1 && (v[v.len() - 1] == '/' || (v[v.len() - 1] == '.' && v[v.len() - 2] == '/'))
        invariant
            bare(v@) == bare(all),
        decreases v@.len(),
    {
        let ghost before = v@;
        v.pop();
        assert(v@ =~= before.drop_last());
    }
    v
}

/// Whether two paths differ at most in slashes and steps to themselves at their ends.
pub fn same_path(a: &str, b: &str) -> (r: bool)
    ensures
        r == (bare(a@) == bare(b@)),
{
    let x = bare_chars(text::chars_of(a));
    let y = bare_chars(text::chars_of(b));
    text::same(text::string_of(&x).as_str(), text::string_of(&y).as_str())
}

fn slash_in(v: &Vec<char>) -> (r: Option<usize>)
    ensures
        (match r {
            Some(i) => Some(i as int),
            None => None,
        }) == last_slash(v@),
        r matches Some(i) ==> i < v.len(),
{
    let mut n: usize = v.len();
    assert(v@.take(n as int) =~= v@);
    while n > 0
        invariant
            n <= v.len(),
            last_slash(v@) == last_slash(v@.take(n as int)),
        decreases n,
    {
        let ghost t = v@.take(n as int);
        assert(t.drop_last() =~= v@.take(n - 1));
        if v[n - 1] == '/' {
            return Some(n - 1);
        }
        n -= 1;
    }
    None
}

/// The directory that holds a path.
pub fn parent_of(p: &str) -> (r: Option<String>)
    ensures
        text::opt_text(r) == parent(p@),
{
    let b = bare_chars(text::chars_of(p));
    proof {
        last_slash_meaning(b@);
    }
    if b.len() == 0 {
        return None;
    }
    if b.len() == 1 && b[0] == '/' {
        assert(b@ =~= seq!['/']);
        return None;
    }
    assert(b@ != seq!['/']);
    match slash_in(&b) {
        None => {
            let r = String::new();
            assert(r@ =~= Seq::<char>::empty());
            Some(r)
        },
        Some(i) => if i == 0 {
            let mut r = String::new();
            r.push('/');
            assert(r@ =~= seq!['/']);
            Some(r)
        } else {
            let mut front = b;
            front.truncate(i);
            assert(front@ =~= bare(p@).take(i as int));
            let r = bare_chars(front);
            Some(text::string_of(&r))
        },
    }
}

/// A path and the directories that hold it, the nearest first.
pub fn ancestors(p: &str) -> (r: Vec<String>)
    ensures
        text::texts(r@) == upward(p@),
{
    let mut r: Vec<String> = Vec::new();
    let mut here = p.to_owned();
    let mut more = true;
    assert(text::texts(r@) + upward(here@) =~= upward(p@));
    while more
        invariant
            more ==> text::texts(r@) + upward(here@) == upward(p@),
            !more ==> text::texts(r@) == upward(p@),
        decreases
            (if more {
                here@.len() + 1
            } else {
                0
            }),
    {
        proof {
            parent_is_shorter(here@);
        }
        let ghost before = r@;
        let ghost h = here@;
        let up = parent_of(here.as_str());
        r.push(here);
        assert(text::texts(r@) =~= text::texts(before).push(h));
        match up {
            Some(q) => {
                assert(text::texts(before).push(h) + upward(q@) =~= text::texts(before) + (seq![h]
                    + upward(q@)));
                here = q;
            },
            None => {
                assert(text::texts(before).push(h) =~= text::texts(before) + seq![h]);
                here = String::new();
                more = false;
            },
        }
    }
    r
}

/// The last part of a path; the root, the empty path, and one that ends in a step up have none.
pub open spec fn last_part(p: Seq<char>) -> Option<Seq<char>> {
    let b = bare(p);
    let name = match last_slash(b) {
        Some(i) => b.skip(i + 1),
        None => b,
    };
    if name.len() == 0 || name == ".."@ || name == "."@ {
        None
    } else {
        Some(name)
    }
}

/// The last part of a path.
pub fn file_name(p: &str) -> (r: Option<String>)
    ensures
        text::opt_text(r) == last_part(p@),
{
    let b = bare_chars(text::chars_of(p));
    proof {
        last_slash_meaning(b@);
    }
    let name = match slash_in(&b) {
        Some(i) => text::slice_of(&b, i + 1, b.len()),
        None => text::string_of(&b),
    };
    assert(name@ == match last_slash(b@) {
        Some(i) => b@.skip(i + 1),
        None => b@,
    });
    if name.as_str().is_empty() || text::same(name.as_str(), "..") || text::same(
        name.as_str(),
        ".",
    ) {
        None
    } else {
        Some(name)
    }
}

/// What is joined to a directory, one step down, is held by that directory.
pub proof fn joined_paths_are_held(base: Seq<char>, name: Seq<char>)
    requires
        base.len() > 0,
        bare(base) == base,
        name.len() > 0,
        name != "."@,
        forall|i: int| 0 <= i < name.len() ==> name[i] != '/',
    ensures
        parent(below(base, name)) == Some(base),
        last_part(below(base, name)) == (if name == ".."@ {
            None::<Seq<char>>
        } else {
            Some(name)
        }),
{
    reveal_strlit("/");
    reveal_strlit(".");
    let p = below(base, name);
    let n = p.len() - name.len();
    assert(p.skip(n) =~= name);
    assert(p.last() == name.last());
    assert(p.last() != '/');
    if p.last() == '.' && p[p.len() - 2] == '/' {
        if name.len() > 1 {
            assert(p[p.len() - 2] == name[name.len() - 2]);
        }
        assert(name =~= "."@);
    }
    assert(bare(p) == p);
    slash_before(p, n - 1);
    assert(p[n - 1] == '/');
    if base == seq!['/'] {
        assert(n - 1 == 0);
    } else if base.last() == '/' {
        if base.len() > 1 {
            bare_len(base.drop_last());
        }
        assert(base =~= seq!['/']);
    } else {
        assert(p.take(n - 1) =~= base);
    }
}

proof fn slash_before(p: Seq<char>, i: int)
    requires
        0 <= i < p.len(),
        p[i] == '/',
        forall|k: int| i < k < p.len() ==> p[k] != '/',
    ensures
        last_slash(p) == Some(i),
    decreases p.len(),
{
    if i < p.len() - 1 {
        slash_before(p.drop_last(), i);
    }
}

/// A name below a directory stands behind it and one slash; a path from the root stays.
pub proof fn paths_are_joined(base: Seq<char>, rest: Seq<char>)
    ensures
        rest.len() > 0 && rest[0] == '/' ==> below(base, rest) == rest,
        (rest.len() == 0 || rest[0] != '/') && base.len() > 0 && base.last() != '/' ==> below(
            base,
            rest,
        ) == base + seq!['/'] + rest,
        (rest.len() == 0 || rest[0] != '/') && base.len() > 0 && base.last() == '/' ==> below(
            base,
            rest,
        ) == base + rest,
        rest.len() > 0 && rest[0] != '/' && base.len() == 0 ==> below(base, rest) == rest,
{
    reveal_strlit("/");
    assert("/"@ =~= seq!['/']);
    if base.len() == 0 {
        assert(base + rest =~= rest);
    }
}

/// Slashes and dots behind a path do not count, and what is left ends with neither.
pub proof fn trailing_slashes_do_not_count(p: Seq<char>)
    requires
        p.len() > 0,
    ensures
        bare(p + seq!['/']) == bare(p),
        bare(p + seq!['/', '.']) == bare(p),
        bare(p).is_prefix_of(p),
        bare(p).len() > 1 ==> bare(p).last() != '/',
        p.len() == 1 || (p.last() != '/' && p.last() != '.') ==> bare(p) == p,
    decreases p.len(),
{
    let s = p + seq!['/'];
    let d = p + seq!['/', '.'];
    assert(s.drop_last() =~= p);
    assert(d.drop_last() =~= s);
    assert(d.last() == '.' && d[d.len() - 2] == '/');
    assert(bare(d) == bare(s));
    assert(bare(s) == bare(p));
    let b = bare(p);
    if p.len() > 1 && (p.last() == '/' || (p.last() == '.' && p[p.len() - 2] == '/')) {
        trailing_slashes_do_not_count(p.drop_last());
        assert(b =~= p.subrange(0, b.len() as int)) by {
            assert(b =~= p.drop_last().subrange(0, b.len() as int));
        }
    } else {
        assert(b =~= p.subrange(0, p.len() as int));
    }
}

/// The way up begins with the path itself, and goes on with that of its parent.
pub proof fn ways_lead_up(p: Seq<char>)
    ensures
        upward(p).len() > 0,
        upward(p)[0] == p,
        parent(p) is None ==> upward(p).len() == 1,
        parent(p) matches Some(q) ==> upward(p).drop_first() == upward(q),
{
    parent_is_shorter(p);
    if let Some(q) = parent(p) {
        assert((seq![p] + upward(q)).drop_first() =~= upward(q));
    }
}

/// The last slash is the last one.
pub proof fn the_last_slash_is_last(p: Seq<char>)
    ensures
        last_slash(p) matches Some(i) ==> 0 <= i < p.len() && p[i] == '/' && forall|k: int|
            i < k < p.len() ==> p[k] != '/',
        last_slash(p) is None ==> forall|k: int| 0 <= k < p.len() ==> p[k] != '/',
    decreases p.len(),
{
    if p.len() > 0 && p.last() != '/' {
        let q = p.drop_last();
        the_last_slash_is_last(q);
        if let Some(i) = last_slash(p) {
            assert(p[i] == q[i]);
            assert forall|k: int| i < k < p.len() implies p[k] != '/' by {
                if k < q.len() {
                    assert(q[k] == p[k]);
                }
            }
        } else {
            assert forall|k: int| 0 <= k < p.len() implies p[k] != '/' by {
                if k < q.len() {
                    assert(q[k] == p[k]);
                }
            }
        }
    }
}

} // verus!
