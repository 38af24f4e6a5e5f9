//! Strings as sequences of characters: the operations that the rest of the library is
//! written with, each tied to a short specification function.
use vstd::prelude::*;
use vstd::utf8::*;

verus! {

/// `String::push` appends one character.
pub assume_specification[ String::push ](s: &mut String, c: char)
    ensures
        final(s)@ == old(s)@.push(c),
;

/// The characters of a string, in order.
pub fn chars_of(s: &str) -> (v: Vec<char>)
    ensures
        v@ == s@,
{
    let mut v: Vec<char> = Vec::new();
    for c in it: s.chars()
        invariant
            it.seq() == s@,
            v@ == it.seq().take(it.index() as int),
    {
        v.push(c);
    }
    v
}

/// The string that holds the given characters.
pub fn string_of(v: &Vec<char>) -> (s: String)
    ensures
        s@ == v@,
{
    let mut s = String::new();
    let mut i: usize = 0;
    while i < v.len()
        invariant
            i <= v.len(),
            s@ == v@.take(i as int),
        decreases v.len() - i,
    {
        s.push(v[i]);
        i += 1;
    }
    s
}

/// Length of the UTF-8 encoding of `s`.
pub open spec fn byte_len(s: Seq<char>) -> nat {
    encode_utf8(s).len()
}

/// Number of bytes in `s`.
pub fn bytes_in(s: &str) -> (n: usize)
    ensures
        n == byte_len(s@),
{
    s.as_bytes().len()
}

/// Number of bytes in the UTF-8 encoding of `c`.
pub open spec fn char_width(c: char) -> nat {
    encode_scalar(c as u32).len()
}

/// Number of bytes in the UTF-8 encoding of `c`.
pub fn width_of(c: char) -> (n: usize)
    ensures
        n == char_width(c),
        1 <= n <= 4,
{
    let v: u32 = c as u32;
    proof {
        char_is_scalar(c);
    }
    if v <= 0x7f {
        1
    } else if v <= 0x7ff {
        2
    } else if v <= 0xffff {
        3
    } else {
        4
    }
}

/// The encoding of two strings in a row is the two encodings in a row.
pub proof fn encoding_of_sum(a: Seq<char>, b: Seq<char>)
    ensures
        encode_utf8(a + b) == encode_utf8(a) + encode_utf8(b),
        byte_len(a + b) == byte_len(a) + byte_len(b),
    decreases a.len(),
{
    if a.len() == 0 {
        assert(a + b =~= b);
        assert(encode_utf8(a) + encode_utf8(b) =~= encode_utf8(b));
    } else {
        assert((a + b).drop_first() =~= a.drop_first() + b);
        encoding_of_sum(a.drop_first(), b);
        assert(encode_utf8(a + b) =~= encode_utf8(a) + encode_utf8(b));
    }
}

/// One more character adds its width.
pub proof fn byte_len_of_push(a: Seq<char>, c: char)
    ensures
        byte_len(a.push(c)) == byte_len(a) + char_width(c),
{
    let one = seq![c];
    assert(a.push(c) =~= a + one);
    encoding_of_sum(a, one);
    assert(one.drop_first() =~= Seq::<char>::empty());
    assert(encode_utf8(one.drop_first()).len() == 0);
    assert(encode_utf8(one) =~= encode_scalar(c as u32));
}

/// Whether two strings hold the same characters.
pub fn same(a: &str, b: &str) -> (r: bool)
    ensures
        r == (a@ == b@),
{
    let x = a.as_bytes();
    let y = b.as_bytes();
    proof {
        encode_utf8_decode_utf8(a@);
        encode_utf8_decode_utf8(b@);
    }
    if x.len() != y.len() {
        return false;
    }
    let mut i: usize = 0;
    while i < x.len()
        invariant
            x@ == encode_utf8(a@),
            y@ == encode_utf8(b@),
            x@.len() == y@.len(),
            i <= x@.len(),
            forall|k: int| 0 <= k < i ==> x@[k] == y@[k],
        decreases x@.len() - i,
    {
        if x[i] != y[i] {
            return false;
        }
        i += 1;
    }
    assert(x@ =~= y@);
    true
}

/// The model of a list of strings.
pub open spec fn texts(v: Seq<String>) -> Seq<Seq<char>> {
    Seq::new(v.len(), |i: int| v[i]@)
}

/// The models of pairs of strings.
pub open spec fn pair_texts(v: Seq<(String, String)>) -> Seq<(Seq<char>, Seq<char>)> {
    Seq::new(v.len(), |i: int| (v[i].0@, v[i].1@))
}

/// The model of an optional string.
pub open spec fn opt_text(o: Option<String>) -> Option<Seq<char>> {
    match o {
        Some(s) => Some(s@),
        None => None,
    }
}

/// A copy of an optional string.
pub fn copy_opt(o: &Option<String>) -> (r: Option<String>)
    ensures
        opt_text(r) == opt_text(*o),
        r == *o,
{
    match o {
        Some(s) => Some(s.clone()),
        None => None,
    }
}

/// A copy of a list of strings.
pub fn copy_list(v: &Vec<String>) -> (r: Vec<String>)
    ensures
        r@ == v@,
{
    let mut r: Vec<String> = Vec::new();
    let mut i: usize = 0;
    while i < v.len()
        invariant
            i <= v.len(),
            r@ == v@.take(i as int),
        decreases v.len() - i,
    {
        r.push(v[i].clone());
        i += 1;
    }
    r
}

/// Whether `x` is among the strings of `v`.
pub fn list_has(v: &Vec<String>, x: &str) -> (r: bool)
    ensures
        r == texts(v@).contains(x@),
{
    let mut i: usize = 0;
    while i < v.len()
        invariant
            i <= v.len(),
            forall|k: int| 0 <= k < i ==> v@[k]@ != x@,
        decreases v.len() - i,
    {
        if same(v[i].as_str(), x) {
            assert(texts(v@)[i as int] == x@);
            return true;
        }
        i += 1;
    }
    assert forall|k: int| 0 <= k < texts(v@).len() implies texts(v@)[k] != x@ by {}
    false
}

/// `a` followed by `b`.
pub fn glue(a: &str, b: &str) -> (r: String)
    ensures
        r@ == a@ + b@,
{
    let mut r = a.to_owned();
    r.append(b);
    r
}

/// `a`, `b`, `c` in a row.
pub fn glue3(a: &str, b: &str, c: &str) -> (r: String)
    ensures
        r@ == a@ + b@ + c@,
{
    let mut r = a.to_owned();
    r.append(b);
    r.append(c);
    r
}

/// The characters of `v` from `from` up to `to`, as a string.
pub fn slice_of(v: &Vec<char>, from: usize, to: usize) -> (s: String)
    requires
        from <= to <= v@.len(),
    ensures
        s@ == v@.subrange(from as int, to as int),
{
    let mut s = String::new();
    let mut i: usize = from;
    while i < to
        invariant
            from <= i <= to <= v@.len(),
            s@ == v@.subrange(from as int, i as int),
        decreases to - i,
    {
        s.push(v[i]);
        i += 1;
    }
    s
}

/// How many characters from the front of `s` fit into `n` bytes.
pub open spec fn fitting(s: Seq<char>, n: nat) -> nat
    decreases s.len(),
{
    if s.len() > 0 && char_width(s[0]) <= n {
        1 + fitting(s.drop_first(), (n - char_width(s[0])) as nat)
    } else {
        0
    }
}

/// The count in other words: that many characters take at most `n` bytes, and one more takes
/// more.
pub proof fn fitting_meaning(s: Seq<char>, n: nat)
    ensures
        fitting(s, n) <= s.len(),
        byte_len(s.take(fitting(s, n) as int)) <= n,
        fitting(s, n) < s.len() ==> byte_len(s.take(fitting(s, n) as int + 1)) > n,
    decreases s.len(),
{
    if s.len() > 0 {
        let one = seq![s[0]];
        assert(one =~= Seq::<char>::empty().push(s[0]));
        byte_len_of_push(Seq::<char>::empty(), s[0]);
        if char_width(s[0]) <= n {
            let rest = s.drop_first();
            let m = (n - char_width(s[0])) as nat;
            fitting_meaning(rest, m);
            let k = fitting(rest, m) as int;
            assert(s.take(k + 1) =~= one + rest.take(k));
            encoding_of_sum(one, rest.take(k));
            if k < rest.len() {
                assert(s.take(k + 2) =~= one + rest.take(k + 1));
                encoding_of_sum(one, rest.take(k + 1));
            }
        } else {
            assert(s.take(1) =~= one);
        }
    }
    assert(s.take(0) =~= Seq::<char>::empty());
}

/// The longest front part of `s` that fits into `n` bytes.
pub fn clip_bytes(s: &str, n: usize) -> (r: String)
    ensures
        r@ == s@.take(fitting(s@, n as nat) as int),
{
    let v = chars_of(s);
    let mut out = String::new();
    let mut left: usize = n;
    let mut i: usize = 0;
    assert(v@.skip(0) =~= v@);
    while i < v.len()
        invariant
            i <= v@.len(),
            v@ == s@,
            out@ == v@.take(i as int),
            fitting(s@, n as nat) == i + fitting(v@.skip(i as int), left as nat),
        decreases v@.len() - i,
    {
        let w: usize = width_of(v[i]);
        if w > left {
            return out;
        }
        assert(v@.skip(i as int).drop_first() =~= v@.skip(i + 1));
        left -= w;
        out.push(v[i]);
        i += 1;
    }
    out
}

/// The first `n` characters of `s`.
pub fn clip_chars(s: &str, n: usize) -> (r: String)
    ensures
        r@ == (if s@.len() <= n {
            s@
        } else {
            s@.take(n as int)
        }),
{
    let v = chars_of(s);
    if v.len() <= n {
        string_of(&v)
    } else {
        slice_of(&v, 0, n)
    }
}

// ── Character classes ───────────────────────────────────────────────────────
/// Unicode white space.
pub open spec fn is_space(c: char) -> bool {
    let n = c as u32;
    ||| 0x09 <= n <= 0x0d
    ||| n == 0x20
    ||| n == 0x85
    ||| n == 0xa0
    ||| n == 0x1680
    ||| 0x2000 <= n <= 0x200a
    ||| n == 0x2028
    ||| n == 0x2029
    ||| n == 0x202f
    ||| n == 0x205f
    ||| n == 0x3000
}

/// A set of characters that can be stripped from an end of a string.
#[derive(Clone, Copy)]
pub enum Class {
    /// White space.
    Space,
    /// One character.
    Only(char),
    /// White space, `*` and `:`, which may stand between a label and its text in markdown.
    Markup,
}

pub open spec fn in_class(k: Class, c: char) -> bool {
    match k {
        Class::Space => is_space(c),
        Class::Only(x) => c == x,
        Class::Markup => c == '*' || c == ':' || is_space(c),
    }
}

/// Whether `c` is white space.
pub fn space(c: char) -> (r: bool)
    ensures
        r == is_space(c),
{
    let n: u32 = c as u32;
    (0x09 <= n && n <= 0x0d) || n == 0x20 || n == 0x85 || n == 0xa0 || n == 0x1680 || (0x2000 <= n
        && n <= 0x200a) || n == 0x2028 || n == 0x2029 || n == 0x202f || n == 0x205f || n == 0x3000
}

/// Whether `c` belongs to `k`.
pub fn has_class(k: Class, c: char) -> (r: bool)
    ensures
        r == in_class(k, c),
{
    match k {
        Class::Space => space(c),
        Class::Only(x) => c == x,
        Class::Markup => c == '*' || c == ':' || space(c),
    }
}

// ── Stripping ───────────────────────────────────────────────────────────────
/// `s` without the characters of `k` that it begins with.
pub open spec fn strip_front(s: Seq<char>, k: Class) -> Seq<char>
    decreases s.len(),
{
    if s.len() > 0 && in_class(k, s[0]) {
        strip_front(s.drop_first(), k)
    } else {
        s
    }
}

/// `s` without the characters of `k` that it ends with.
pub open spec fn strip_back(s: Seq<char>, k: Class) -> Seq<char>
    decreases s.len(),
{
    if s.len() > 0 && in_class(k, s.last()) {
        strip_back(s.drop_last(), k)
    } else {
        s
    }
}

/// `s` without the characters of `k` at either end.
pub open spec fn strip_both(s: Seq<char>, k: Class) -> Seq<char> {
    strip_back(strip_front(s, k), k)
}

/// `s` without white space at either end.
pub open spec fn trimmed(s: Seq<char>) -> Seq<char> {
    strip_both(s, Class::Space)
}

/// Strips characters of `k` off the front.
pub fn trim_front(s: &str, k: Class) -> (r: String)
    ensures
        r@ == strip_front(s@, k),
{
    let v = chars_of(s);
    let mut i: usize = 0;
    assert(v@.skip(0) =~= v@);
    while i < v.len() && has_class(k, v[i])
        invariant
            i <= v.len(),
            strip_front(v@, k) == strip_front(v@.skip(i as int), k),
        decreases v.len() - i,
    {
        assert(v@.skip(i as int).drop_first() =~= v@.skip(i + 1));
        i += 1;
    }
    slice_of(&v, i, v.len())
}

/// Strips characters of `k` off the back.
pub fn trim_back(s: &str, k: Class) -> (r: String)
    ensures
        r@ == strip_back(s@, k),
{
    let v = chars_of(s);
    let mut i: usize = v.len();
    assert(v@.take(i as int) =~= v@);
    while i > 0 && has_class(k, v[i - 1])
        invariant
            i <= v.len(),
            strip_back(v@, k) == strip_back(v@.take(i as int), k),
        decreases i,
    {
        assert(v@.take(i as int).drop_last() =~= v@.take(i - 1));
        i -= 1;
    }
    slice_of(&v, 0, i)
}

/// Strips characters of `k` off both ends.
pub fn trim_both(s: &str, k: Class) -> (r: String)
    ensures
        r@ == strip_both(s@, k),
{
    trim_back(trim_front(s, k).as_str(), k)
}

/// Strips white space off both ends.
pub fn trim(s: &str) -> (r: String)
    ensures
        r@ == trimmed(s@),
{
    trim_both(s, Class::Space)
}

/// What is left of `s` behind every leading `@`.
pub open spec fn bare_name(s: Seq<char>) -> Seq<char> {
    strip_front(s, Class::Only('@'))
}

/// Strips leading `@` signs.
pub fn without_at(s: &str) -> (r: String)
    ensures
        r@ == bare_name(s@),
{
    trim_front(s, Class::Only('@'))
}

// ── Searching ───────────────────────────────────────────────────────────────
/// `n` stands in `h` at index `i`.
pub open spec fn occurs_at(h: Seq<char>, n: Seq<char>, i: int) -> bool {
    0 <= i && i + n.len() <= h.len() && h.subrange(i, i + n.len()) == n
}

/// The first index at or behind `i` at which `n` stands in `h`.
pub open spec fn find_from(h: Seq<char>, n: Seq<char>, i: int) -> Option<int>
    decreases h.len() + 1 - i,
{
    if i < 0 || i + n.len() > h.len() {
        None
    } else if occurs_at(h, n, i) {
        Some(i)
    } else {
        find_from(h, n, i + 1)
    }
}

/// `n` stands somewhere in `h`.
pub open spec fn contains_text(h: Seq<char>, n: Seq<char>) -> bool {
    exists|i: int| occurs_at(h, n, i)
}

/// What `find_from` gives, in the words of `occurs_at`.
pub proof fn find_from_meaning(h: Seq<char>, n: Seq<char>, i: int)
    requires
        0 <= i,
    ensures
        find_from(h, n, i) matches Some(k) ==> i <= k && occurs_at(h, n, k) && (forall|j: int|
            i <= j < k ==> !occurs_at(h, n, j)),
        find_from(h, n, i) is None ==> forall|j: int| i <= j ==> !occurs_at(h, n, j),
    decreases h.len() + 1 - i,
{
    if i + n.len() > h.len() {
    } else if occurs_at(h, n, i) {
    } else {
        find_from_meaning(h, n, i + 1);
    }
}

/// Whether `n` stands in `h` at index `i`.
pub fn stands_at(h: &Vec<char>, n: &Vec<char>, i: usize) -> (r: bool)
    ensures
        r == occurs_at(h@, n@, i as int),
{
    if n.len() > h.len() || i > h.len() - n.len() {
        return false;
    }
    let mut j: usize = 0;
    while j < n.len()
        invariant
            i + n@.len() <= h.len(),
            j <= n@.len(),
            forall|k: int| 0 <= k < j ==> h@[i + k] == n@[k],
        decreases n@.len() - j,
    {
        if h[i + j] != n[j] {
            assert(h@.subrange(i as int, i + n@.len())[j as int] != n@[j as int]);
            return false;
        }
        j += 1;
    }
    assert(h@.subrange(i as int, i + n@.len()) =~= n@);
    true
}

/// The first index at or behind `from` at which `n` stands in `h`.
pub fn find_in(h: &Vec<char>, n: &Vec<char>, from: usize) -> (r: Option<usize>)
    ensures
        match r {
            Some(k) => find_from(h@, n@, from as int) == Some(k as int) && from <= k && k
                + n@.len() <= h.len() && occurs_at(h@, n@, k as int),
            None => find_from(h@, n@, from as int) is None,
        },
{
    if n.len() > h.len() {
        return None;
    }
    let last: usize = h.len() - n.len();
    let mut i: usize = from;
    while i <= last
        invariant
            from <= i,
            last + n@.len() == h@.len(),
            i <= last + 1 || i == from,
            find_from(h@, n@, from as int) == find_from(h@, n@, i as int),
        decreases last + 1 - i,
    {
        if stands_at(h, n, i) {
            return Some(i);
        }
        if i == last {
            assert(find_from(h@, n@, i + 1) is None);
            return None;
        }
        i += 1;
    }
    None
}

/// Whether `n` stands somewhere in `h`.
pub fn contains(h: &str, n: &str) -> (r: bool)
    ensures
        r == contains_text(h@, n@),
{
    let hv = chars_of(h);
    let nv = chars_of(n);
    let r = find_in(&hv, &nv, 0);
    proof {
        find_from_meaning(h@, n@, 0);
    }
    r.is_some()
}

/// Whether `s` begins with `p`.
pub fn starts_with(s: &str, p: &str) -> (r: bool)
    ensures
        r == p@.is_prefix_of(s@),
{
    let sv = chars_of(s);
    let pv = chars_of(p);
    stands_at(&sv, &pv, 0)
}

/// Whether `s` ends with `p`.
pub fn ends_with(s: &str, p: &str) -> (r: bool)
    ensures
        r == p@.is_suffix_of(s@),
{
    let sv = chars_of(s);
    let pv = chars_of(p);
    if pv.len() > sv.len() {
        return false;
    }
    stands_at(&sv, &pv, sv.len() - pv.len())
}

/// What follows the prefix `p` of `s`; nothing where `s` does not begin with `p`.
pub open spec fn after_prefix(s: Seq<char>, p: Seq<char>) -> Option<Seq<char>> {
    if p.is_prefix_of(s) {
        Some(s.skip(p.len() as int))
    } else {
        None
    }
}

/// Removes the prefix `p`.
pub fn strip_prefix(s: &str, p: &str) -> (r: Option<String>)
    ensures
        opt_text(r) == after_prefix(s@, p@),
{
    let sv = chars_of(s);
    let pv = chars_of(p);
    if stands_at(&sv, &pv, 0) {
        Some(slice_of(&sv, pv.len(), sv.len()))
    } else {
        None
    }
}

/// The index of the first `c` in `s`.
pub open spec fn char_at(s: Seq<char>, c: char) -> Option<int>
    decreases s.len(),
{
    if s.len() == 0 {
        None
    } else if s[0] == c {
        Some(0)
    } else {
        match char_at(s.drop_first(), c) {
            Some(k) => Some(k + 1),
            None => None,
        }
    }
}

/// What `char_at` gives: the least index that holds `c`.
pub proof fn char_at_meaning(s: Seq<char>, c: char)
    ensures
        match char_at(s, c) {
            Some(k) => 0 <= k < s.len() && s[k] == c && (forall|j: int| 0 <= j < k ==> s[j] != c),
            None => forall|j: int| 0 <= j < s.len() ==> s[j] != c,
        },
    decreases s.len(),
{
    if s.len() > 0 && s[0] != c {
        let t = s.drop_first();
        char_at_meaning(t, c);
        assert(forall|j: int| 1 <= j < s.len() ==> s[j] == t[j - 1]);
    }
}

/// The index of the first `c` in `v`, counted from `from`.
pub fn index_of(v: &Vec<char>, c: char, from: usize) -> (r: Option<usize>)
    requires
        from <= v@.len(),
    ensures
        match r {
            Some(k) => from <= k < v.len() && char_at(v@.skip(from as int), c) == Some(
                (k - from) as int,
            ),
            None => char_at(v@.skip(from as int), c) is None,
        },
{
    let mut i: usize = from;
    let ghost t = v@.skip(from as int);
    proof {
        char_at_meaning(t, c);
    }
    while i < v.len()
        invariant
            from <= i <= v@.len(),
            t == v@.skip(from as int),
            forall|j: int| 0 <= j < i - from ==> t[j] != c,
            match char_at(t, c) {
                Some(k) => 0 <= k < t.len() && t[k] == c && (forall|j: int|
                    0 <= j < k ==> t[j] != c),
                None => forall|j: int| 0 <= j < t.len() ==> t[j] != c,
            },
        decreases v@.len() - i,
    {
        assert(t[i - from] == v@[i as int]);
        if v[i] == c {
            return Some(i);
        }
        i += 1;
    }
    None
}

/// `s` cut at the first `c`: what stands before it and what stands behind it.
pub open spec fn cut_at(s: Seq<char>, c: char) -> Option<(Seq<char>, Seq<char>)> {
    match char_at(s, c) {
        Some(k) => Some((s.take(k), s.skip(k + 1))),
        None => None,
    }
}

/// Cuts `s` at the first `c`.
pub fn split_once(s: &str, c: char) -> (r: Option<(String, String)>)
    ensures
        match r {
            Some(p) => cut_at(s@, c) == Some((p.0@, p.1@)),
            None => cut_at(s@, c) is None,
        },
{
    let v = chars_of(s);
    assert(v@.skip(0) =~= v@);
    match index_of(&v, c, 0) {
        Some(k) => {
            let a = slice_of(&v, 0, k);
            let b = slice_of(&v, k + 1, v.len());
            Some((a, b))
        },
        None => None,
    }
}

// ── Splitting ───────────────────────────────────────────────────────────────
/// The pieces of `s` between the occurrences of `c`.
pub open spec fn pieces(s: Seq<char>, c: char) -> Seq<Seq<char>>
    decreases s.len(),
{
    proof {
        char_at_meaning(s, c);
    }
    match char_at(s, c) {
        Some(k) => seq![s.take(k)] + pieces(s.skip(k + 1), c),
        None => seq![s],
    }
}

/// The pieces of `s` between the occurrences of `c`.
pub fn split(s: &str, c: char) -> (r: Vec<String>)
    ensures
        texts(r@) == pieces(s@, c),
        r@.len() >= 1,
{
    let v = chars_of(s);
    let mut out: Vec<String> = Vec::new();
    let mut from: usize = 0;
    assert(v@.skip(0) =~= v@);
    assert(texts(out@) + pieces(v@.skip(0), c) =~= pieces(v@, c));
    loop
        invariant
            from <= v@.len(),
            v@ == s@,
            texts(out@) + pieces(v@.skip(from as int), c) == pieces(s@, c),
        decreases v@.len() - from,
    {
        let ghost t = v@.skip(from as int);
        proof {
            char_at_meaning(t, c);
        }
        match index_of(&v, c, from) {
            Some(k) => {
                let ghost before = out@;
                out.push(slice_of(&v, from, k));
                proof {
                    assert(out@.last()@ =~= t.take(k - from));
                    assert(texts(out@) =~= texts(before).push(t.take(k - from)));
                    assert(t.skip(k - from + 1) =~= v@.skip(k + 1));
                    assert(texts(out@) + pieces(v@.skip(k + 1), c) =~= texts(before) + (seq![
                        t.take(k - from),
                    ] + pieces(v@.skip(k + 1), c)));
                }
                from = k + 1;
            },
            None => {
                let ghost before = out@;
                out.push(slice_of(&v, from, v.len()));
                proof {
                    assert(out@.last()@ =~= t);
                    assert(texts(out@) =~= texts(before) + seq![t]);
                }
                return out;
            },
        }
    }
}

/// `s` without one carriage return at its end.
pub open spec fn without_cr(s: Seq<char>) -> Seq<char> {
    if s.len() > 0 && s.last() == '\r' {
        s.drop_last()
    } else {
        s
    }
}

/// The lines of `s`: each ends at a line feed, with a carriage return before it dropped; what
/// follows the last line feed is a line where it is not empty.
pub open spec fn lines_of(s: Seq<char>) -> Seq<Seq<char>>
    decreases s.len(),
{
    proof {
        char_at_meaning(s, '\n');
    }
    if s.len() == 0 {
        Seq::empty()
    } else {
        match char_at(s, '\n') {
            Some(k) => seq![without_cr(s.take(k))] + lines_of(s.skip(k + 1)),
            None => seq![s],
        }
    }
}

/// The lines of `s`.
pub fn lines(s: &str) -> (r: Vec<String>)
    ensures
        texts(r@) == lines_of(s@),
{
    let v = chars_of(s);
    let mut out: Vec<String> = Vec::new();
    let mut from: usize = 0;
    assert(v@.skip(0) =~= v@);
    assert(texts(out@) + lines_of(v@.skip(0)) =~= lines_of(v@));
    while from < v.len()
        invariant
            from <= v@.len(),
            v@ == s@,
            texts(out@) + lines_of(v@.skip(from as int)) == lines_of(s@),
        decreases v@.len() - from,
    {
        let ghost t = v@.skip(from as int);
        proof {
            char_at_meaning(t, '\n');
        }
        match index_of(&v, '\n', from) {
            Some(k) => {
                let ghost before = out@;
                let end: usize = if k > from && v[k - 1] == '\r' {
                    k - 1
                } else {
                    k
                };
                out.push(slice_of(&v, from, end));
                proof {
                    let line = without_cr(t.take(k - from));
                    assert(out@.last()@ =~= line);
                    assert(texts(out@) =~= texts(before).push(line));
                    assert(t.skip(k - from + 1) =~= v@.skip(k + 1));
                    assert(texts(out@) + lines_of(v@.skip(k + 1)) =~= texts(before) + (seq![line]
                        + lines_of(v@.skip(k + 1))));
                }
                from = k + 1;
            },
            None => {
                let ghost before = out@;
                out.push(slice_of(&v, from, v.len()));
                proof {
                    assert(out@.last()@ =~= t);
                    assert(texts(out@) =~= texts(before) + seq![t]);
                }
                return out;
            },
        }
    }
    assert(v@.skip(from as int) =~= Seq::<char>::empty());
    assert(texts(out@) + Seq::<Seq<char>>::empty() =~= texts(out@));
    out
}

/// How many characters `s` begins with that are not white space.
pub open spec fn word_len(s: Seq<char>) -> nat
    decreases s.len(),
{
    if s.len() == 0 || is_space(s[0]) {
        0
    } else {
        1 + word_len(s.drop_first())
    }
}

/// The words of `s`: its longest runs without white space.
pub open spec fn words_of(s: Seq<char>) -> Seq<Seq<char>>
    decreases s.len(),
{
    proof {
        word_len_bound(s);
    }
    if s.len() == 0 {
        Seq::empty()
    } else if is_space(s[0]) {
        words_of(s.drop_first())
    } else {
        seq![s.take(word_len(s) as int)] + words_of(s.skip(word_len(s) as int))
    }
}

/// A first word is no longer than the string, and not empty where the string begins with one.
pub proof fn word_len_bound(s: Seq<char>)
    ensures
        word_len(s) <= s.len(),
        s.len() > 0 && !is_space(s[0]) ==> word_len(s) > 0,
    decreases s.len(),
{
    if s.len() > 0 && !is_space(s[0]) {
        word_len_bound(s.drop_first());
    }
}

/// The words of `s`.
pub fn words(s: &str) -> (r: Vec<String>)
    ensures
        texts(r@) == words_of(s@),
{
    let v = chars_of(s);
    let mut out: Vec<String> = Vec::new();
    let mut from: usize = 0;
    assert(v@.skip(0) =~= v@);
    assert(texts(out@) + words_of(v@.skip(0)) =~= words_of(v@));
    while from < v.len()
        invariant
            from <= v@.len(),
            v@ == s@,
            texts(out@) + words_of(v@.skip(from as int)) == words_of(s@),
        decreases v@.len() - from,
    {
        let ghost t = v@.skip(from as int);
        proof {
            word_len_bound(t);
        }
        if space(v[from]) {
            assert(t.drop_first() =~= v@.skip(from + 1));
            from += 1;
        } else {
            let mut end: usize = from;
            assert(v@.skip(end as int) =~= t);
            while end < v.len() && !space(v[end])
                invariant
                    from <= end <= v@.len(),
                    word_len(t) == (end - from) + word_len(v@.skip(end as int)),
                decreases v@.len() - end,
            {
                assert(v@.skip(end as int).drop_first() =~= v@.skip(end + 1));
                end += 1;
            }
            let ghost before = out@;
            out.push(slice_of(&v, from, end));
            proof {
                assert(word_len(t) == end - from);
                assert(out@.last()@ =~= t.take(end - from));
                assert(texts(out@) =~= texts(before).push(t.take(end - from)));
                assert(t.skip(end - from) =~= v@.skip(end as int));
                assert(texts(out@) + words_of(v@.skip(end as int)) =~= texts(before) + (seq![
                    t.take(end - from),
                ] + words_of(v@.skip(end as int))));
            }
            from = end;
        }
    }
    assert(v@.skip(from as int) =~= Seq::<char>::empty());
    assert(texts(out@) + Seq::<Seq<char>>::empty() =~= texts(out@));
    out
}

// ── Joining and replacing ───────────────────────────────────────────────────
/// The strings of `parts` in a row with `sep` between neighbours.
pub open spec fn joined(parts: Seq<Seq<char>>, sep: Seq<char>) -> Seq<char>
    decreases parts.len(),
{
    if parts.len() == 0 {
        Seq::empty()
    } else if parts.len() == 1 {
        parts[0]
    } else {
        joined(parts.drop_last(), sep) + sep + parts.last()
    }
}

/// The strings of `parts` in a row with `sep` between neighbours.
pub fn join(parts: &Vec<String>, sep: &str) -> (r: String)
    ensures
        r@ == joined(texts(parts@), sep@),
{
    let mut r = String::new();
    let mut i: usize = 0;
    while i < parts.len()
        invariant
            i <= parts@.len(),
            r@ == joined(texts(parts@).take(i as int), sep@),
        decreases parts@.len() - i,
    {
        if i > 0 {
            r.append(sep);
        }
        r.append(parts[i].as_str());
        proof {
            let p = texts(parts@).take(i + 1);
            assert(p.drop_last() =~= texts(parts@).take(i as int));
            assert(p.last() == parts@[i as int]@);
            if i == 0 {
                assert(Seq::<char>::empty() + p[0] =~= p[0]);
            }
        }
        i += 1;
    }
    assert(texts(parts@).take(i as int) =~= texts(parts@));
    r
}

/// `s` from index `i` on, with each occurrence of `from`, taken left to right, replaced by `to`.
pub open spec fn replaced_from(s: Seq<char>, from: Seq<char>, to: Seq<char>, i: int) -> Seq<char>
    decreases s.len() - i,
{
    if i < 0 || i >= s.len() {
        Seq::empty()
    } else if from.len() > 0 && occurs_at(s, from, i) {
        to + replaced_from(s, from, to, i + from.len())
    } else {
        seq![s[i]] + replaced_from(s, from, to, i + 1)
    }
}

/// `s` with each occurrence of `from` replaced by `to`.
pub open spec fn replaced(s: Seq<char>, from: Seq<char>, to: Seq<char>) -> Seq<char> {
    replaced_from(s, from, to, 0)
}

/// `s` with each occurrence of `from` replaced by `to`.
pub fn replace(s: &str, from: &str, to: &str) -> (r: String)
    requires
        from@.len() > 0,
    ensures
        r@ == replaced(s@, from@, to@),
{
    let v = chars_of(s);
    let f = chars_of(from);
    let mut out = String::new();
    let mut i: usize = 0;
    assert(out@ + replaced_from(v@, f@, to@, 0) =~= replaced(v@, f@, to@));
    while i < v.len()
        invariant
            i <= v@.len(),
            v@ == s@,
            f@ == from@,
            f@.len() > 0,
            out@ + replaced_from(v@, f@, to@, i as int) == replaced(s@, from@, to@),
        decreases v@.len() - i,
    {
        let ghost before = out@;
        if stands_at(&v, &f, i) {
            out.append(to);
            assert(out@ + replaced_from(v@, f@, to@, i + f@.len()) =~= before + (to@
                + replaced_from(v@, f@, to@, i + f@.len())));
            i += f.len();
        } else {
            out.push(v[i]);
            assert(out@ + replaced_from(v@, f@, to@, i + 1) =~= before + (seq![v@[i as int]]
                + replaced_from(v@, f@, to@, i + 1)));
            i += 1;
        }
    }
    assert(out@ + Seq::<char>::empty() =~= out@);
    out
}

// ── Columns ─────────────────────────────────────────────────────────────────
/// A character `n` times.
pub open spec fn repeated(c: char, n: nat) -> Seq<char> {
    Seq::new(n, |i: int| c)
}

/// A character `n` times.
pub fn repeat(c: char, n: usize) -> (r: String)
    ensures
        r@ == repeated(c, n as nat),
{
    let mut r = String::new();
    let mut i: usize = 0;
    while i < n
        invariant
            i <= n,
            r@.len() == i,
            forall|k: int| 0 <= k < i ==> #[trigger] r@[k] == c,
        decreases n - i,
    {
        r.push(c);
        i += 1;
    }
    assert(r@ =~= repeated(c, n as nat));
    r
}

/// A text with blanks behind it, so that it takes up at least `n` characters.
pub open spec fn padded_end(s: Seq<char>, n: nat) -> Seq<char> {
    if s.len() >= n {
        s
    } else {
        s + repeated(' ', (n - s.len()) as nat)
    }
}

/// A text with blanks before it, so that it takes up at least `n` characters.
pub open spec fn padded_start(s: Seq<char>, n: nat) -> Seq<char> {
    if s.len() >= n {
        s
    } else {
        repeated(' ', (n - s.len()) as nat) + s
    }
}

/// A text with blanks behind it.
pub fn pad_end(s: &str, n: usize) -> (r: String)
    ensures
        r@ == padded_end(s@, n as nat),
{
    let len: usize = chars_of(s).len();
    if len >= n {
        s.to_owned()
    } else {
        glue(s, repeat(' ', n - len).as_str())
    }
}

/// A text with blanks before it.
pub fn pad_start(s: &str, n: usize) -> (r: String)
    ensures
        r@ == padded_start(s@, n as nat),
{
    let len: usize = chars_of(s).len();
    if len >= n {
        s.to_owned()
    } else {
        glue(repeat(' ', n - len).as_str(), s)
    }
}

// ── Numbers ─────────────────────────────────────────────────────────────────
/// The digit character of `d`.
pub open spec fn digit(d: nat) -> char {
    ('0' as u32 + d) as char
}

/// `n` in decimal digits, without leading zeros.
pub open spec fn decimal(n: nat) -> Seq<char>
    decreases n,
{
    if n < 10 {
        seq![digit(n)]
    } else {
        decimal(n / 10).push(digit(n % 10))
    }
}

fn digit_char(d: u64) -> (c: char)
    requires
        d < 10,
    ensures
        c == digit(d as nat),
{
    if d == 0 {
        '0'
    } else if d == 1 {
        '1'
    } else if d == 2 {
        '2'
    } else if d == 3 {
        '3'
    } else if d == 4 {
        '4'
    } else if d == 5 {
        '5'
    } else if d == 6 {
        '6'
    } else if d == 7 {
        '7'
    } else if d == 8 {
        '8'
    } else {
        '9'
    }
}

/// `n` in decimal digits.
pub fn number(n: u64) -> (r: String)
    ensures
        r@ == decimal(n as nat),
    decreases n,
{
    if n < 10 {
        let mut r = String::new();
        r.push(digit_char(n));
        assert(Seq::<char>::empty().push(digit(n as nat)) =~= seq![digit(n as nat)]);
        r
    } else {
        let mut r = number(n / 10);
        r.push(digit_char(n % 10));
        r
    }
}

/// `n` in decimal digits.
pub fn count(n: usize) -> (r: String)
    ensures
        r@ == decimal(n as nat),
{
    number(n as u64)
}

/// A number in decimal, with a sign where it is negative.
pub open spec fn signed_decimal(n: int) -> Seq<char> {
    if n < 0 {
        "-"@ + decimal((-n) as nat)
    } else {
        decimal(n as nat)
    }
}

/// A number in decimal, with a sign where it is negative.
pub fn signed(n: i64) -> (r: String)
    ensures
        r@ == signed_decimal(n as int),
{
    if n < 0 {
        let m: i128 = -(n as i128);
        glue("-", number(m as u64).as_str())
    } else {
        number(n as u64)
    }
}

/// Every character of `s` is a decimal digit.
pub open spec fn all_digits(s: Seq<char>) -> bool {
    forall|i: int| 0 <= i < s.len() ==> '0' <= #[trigger] s[i] <= '9'
}

/// The number that decimal digits stand for.
pub open spec fn digits_value(s: Seq<char>) -> nat
    decreases s.len(),
{
    if s.len() == 0 {
        0
    } else {
        10 * digits_value(s.drop_last()) + (s.last() as nat - '0' as nat) as nat
    }
}

/// The digits of a number that may be led by a plus sign.
pub open spec fn unsigned_digits(s: Seq<char>) -> Seq<char> {
    if s.len() > 0 && s[0] == '+' {
        s.drop_first()
    } else {
        s
    }
}

/// The number that `s` writes in decimal, if it writes one that fits into 64 bits.
pub open spec fn number_of(s: Seq<char>) -> Option<u64> {
    let d = unsigned_digits(s);
    if d.len() > 0 && all_digits(d) && digits_value(d) <= u64::MAX {
        Some(digits_value(d) as u64)
    } else {
        None
    }
}

/// Reads a number in decimal.
pub fn parse_number(s: &str) -> (r: Option<u64>)
    ensures
        r == number_of(s@),
{
    let v = chars_of(s);
    let start: usize = if v.len() > 0 && v[0] == '+' {
        1
    } else {
        0
    };
    let ghost d = unsigned_digits(s@);
    assert(d =~= v@.skip(start as int));
    if start >= v.len() {
        return None;
    }
    let mut n: u64 = 0;
    let mut i: usize = start;
    let mut fits = true;
    assert(d.take(0) =~= Seq::<char>::empty());
    while i < v.len()
        invariant
            start <= i <= v@.len(),
            d == v@.skip(start as int),
            d == unsigned_digits(s@),
            forall|k: int| 0 <= k < i - start ==> '0' <= #[trigger] d[k] <= '9',
            fits ==> n == digits_value(d.take(i - start)),
            !fits ==> digits_value(d.take(i - start)) > u64::MAX,
        decreases v@.len() - i,
    {
        let c = v[i];
        assert(d[i - start] == c);
        if !('0' <= c && c <= '9') {
            assert(!('0' <= d[i - start] <= '9'));
            return None;
        }
        let k: u64 = (c as u32 - '0' as u32) as u64;
        proof {
            let t = d.take(i - start + 1);
            assert(t.drop_last() =~= d.take(i - start));
            assert(t.last() == c);
        }
        if fits {
            if n > (u64::MAX - k) / 10 {
                fits = false;
            } else {
                n = n * 10 + k;
            }
        }
        i += 1;
    }
    assert(d.take(i - start) =~= d);
    assert(all_digits(d));
    if fits {
        Some(n)
    } else {
        None
    }
}

// ── Order ───────────────────────────────────────────────────────────────────
/// `a` stands before `b` in the order of strings.
pub open spec fn before(a: Seq<char>, b: Seq<char>) -> bool
    decreases a.len(),
{
    if b.len() == 0 {
        false
    } else if a.len() == 0 {
        true
    } else if a[0] == b[0] {
        before(a.drop_first(), b.drop_first())
    } else {
        a[0] < b[0]
    }
}

/// Whether `a` stands before `b` in the order of strings.
pub fn less(a: &str, b: &str) -> (r: bool)
    ensures
        r == before(a@, b@),
{
    let x = chars_of(a);
    let y = chars_of(b);
    let mut i: usize = 0;
    assert(x@.skip(0) =~= x@);
    assert(y@.skip(0) =~= y@);
    while i < x.len() && i < y.len() && x[i] == y[i]
        invariant
            i <= x@.len(),
            i <= y@.len(),
            before(x@, y@) == before(x@.skip(i as int), y@.skip(i as int)),
        decreases x@.len() - i,
    {
        assert(x@.skip(i as int).drop_first() =~= x@.skip(i + 1));
        assert(y@.skip(i as int).drop_first() =~= y@.skip(i + 1));
        i += 1;
    }
    if i >= y.len() {
        false
    } else if i >= x.len() {
        true
    } else {
        x[i] < y[i]
    }
}

/// A string stands before no string that stands before it, nor before itself.
pub proof fn before_is_strict(a: Seq<char>, b: Seq<char>)
    ensures
        !(before(a, b) && before(b, a)),
        !before(a, a),
    decreases a.len() + b.len(),
{
    if a.len() > 0 {
        if b.len() > 0 {
            before_is_strict(a.drop_first(), b.drop_first());
        } else {
            before_is_strict(a.drop_first(), b);
        }
    }
}

/// Of two different strings one stands before the other.
pub proof fn before_is_total(a: Seq<char>, b: Seq<char>)
    ensures
        a == b || before(a, b) || before(b, a),
    decreases a.len(),
{
    if a.len() == 0 || b.len() == 0 {
        assert(a.len() == 0 && b.len() == 0 ==> a =~= b);
    } else if a[0] == b[0] {
        before_is_total(a.drop_first(), b.drop_first());
        assert(a =~= seq![a[0]] + a.drop_first());
        assert(b =~= seq![b[0]] + b.drop_first());
    }
}

/// The order of strings is transitive.
pub proof fn before_is_transitive(a: Seq<char>, b: Seq<char>, c: Seq<char>)
    requires
        before(a, b),
        before(b, c),
    ensures
        before(a, c),
    decreases a.len(),
{
    if a.len() > 0 && b.len() > 0 && c.len() > 0 && a[0] == b[0] && b[0] == c[0] {
        before_is_transitive(a.drop_first(), b.drop_first(), c.drop_first());
    }
}

// ── What a text holds ───────────────────────────────────────────────────────
/// `part` stands somewhere in `whole`, in one piece.
pub open spec fn holds(whole: Seq<char>, part: Seq<char>) -> bool {
    exists|i: int|
        0 <= i && i + part.len() <= whole.len() && #[trigger] whole.subrange(i, i + part.len())
            == part
}

/// What stands in the middle is held.
pub proof fn middle_is_held(lead: Seq<char>, part: Seq<char>, tail: Seq<char>)
    ensures
        holds(lead + part + tail, part),
{
    let whole = lead + part + tail;
    let i = lead.len() as int;
    assert(whole.subrange(i, i + part.len()) =~= part);
}

/// What a part holds, the whole holds.
pub proof fn held_in_part(lead: Seq<char>, inner: Seq<char>, tail: Seq<char>, part: Seq<char>)
    requires
        holds(inner, part),
    ensures
        holds(lead + inner + tail, part),
{
    let i = choose|i: int|
        0 <= i && i + part.len() <= inner.len() && #[trigger] inner.subrange(i, i + part.len())
            == part;
    let whole = lead + inner + tail;
    let j = lead.len() + i;
    assert(whole.subrange(j, j + part.len()) =~= part);
}

/// A name is the same with and without the sign before it.
pub proof fn signs_do_not_matter(name: Seq<char>)
    ensures
        bare_name(seq!['@'] + name) == bare_name(name),
        name.len() > 0 && name[0] != '@' ==> bare_name(name) == name,
        bare_name(name).len() > 0 ==> bare_name(name)[0] != '@',
        bare_name(name).is_suffix_of(name),
    decreases name.len(),
{
    let s = seq!['@'] + name;
    assert(s.drop_first() =~= name);
    if name.len() > 0 && name[0] == '@' {
        signs_do_not_matter(name.drop_first());
        assert(bare_name(name) == bare_name(name.drop_first()));
        let b = bare_name(name);
        let rest = name.drop_first();
        assert(b =~= name.subrange(name.len() - b.len(), name.len() as int)) by {
            assert(b =~= rest.subrange(rest.len() - b.len(), rest.len() as int));
        }
    } else {
        assert(bare_name(name) =~= name);
    }
}

/// What a held part holds is held.
pub proof fn held_through(whole: Seq<char>, inner: Seq<char>, part: Seq<char>)
    requires
        holds(whole, inner),
        holds(inner, part),
    ensures
        holds(whole, part),
{
    let i = choose|i: int|
        0 <= i && i + inner.len() <= whole.len() && #[trigger] whole.subrange(i, i + inner.len())
            == inner;
    let j = choose|j: int|
        0 <= j && j + part.len() <= inner.len() && #[trigger] inner.subrange(j, j + part.len())
            == part;
    let k = i + j;
    let x = whole.subrange(k, k + part.len());
    let y = inner.subrange(j, j + part.len());
    assert forall|n: int| 0 <= n < part.len() implies #[trigger] x[n] == y[n] by {
        assert(whole.subrange(i, i + inner.len())[j + n] == whole[k + n]);
    }
    assert(x =~= y);
}

/// What is stripped off the front is all of the class, and what is left does not begin with it.
pub proof fn fronts_are_stripped(s: Seq<char>, k: Class)
    ensures
        strip_front(s, k).is_suffix_of(s),
        strip_front(s, k).len() > 0 ==> !in_class(k, strip_front(s, k)[0]),
        forall|i: int| 0 <= i < s.len() - strip_front(s, k).len() ==> in_class(k, #[trigger] s[i]),
    decreases s.len(),
{
    let r = strip_front(s, k);
    if s.len() > 0 && in_class(k, s[0]) {
        let rest = s.drop_first();
        fronts_are_stripped(rest, k);
        assert(r =~= s.subrange(s.len() - r.len(), s.len() as int)) by {
            assert(r =~= rest.subrange(rest.len() - r.len(), rest.len() as int));
        }
        assert forall|i: int| 0 <= i < s.len() - r.len() implies in_class(k, #[trigger] s[i]) by {
            if i > 0 {
                assert(rest[i - 1] == s[i]);
            }
        }
    } else {
        assert(r =~= s.subrange(0, s.len() as int));
    }
}

/// What is stripped off the back is all of the class, and what is left does not end with it.
pub proof fn backs_are_stripped(s: Seq<char>, k: Class)
    ensures
        strip_back(s, k).is_prefix_of(s),
        strip_back(s, k).len() > 0 ==> !in_class(k, strip_back(s, k).last()),
        forall|i: int| strip_back(s, k).len() <= i < s.len() ==> in_class(k, #[trigger] s[i]),
    decreases s.len(),
{
    let r = strip_back(s, k);
    if s.len() > 0 && in_class(k, s.last()) {
        let rest = s.drop_last();
        backs_are_stripped(rest, k);
        assert(r =~= s.subrange(0, r.len() as int)) by {
            assert(r =~= rest.subrange(0, r.len() as int));
        }
        assert forall|i: int| r.len() <= i < s.len() implies in_class(k, #[trigger] s[i]) by {
            if i < rest.len() {
                assert(rest[i] == s[i]);
            }
        }
    } else {
        assert(r =~= s.subrange(0, s.len() as int));
    }
}

/// A trimmed text neither begins nor ends with a blank and stands in the text; it is empty exactly
/// where the text is all blanks, and a text without blanks at its ends is left alone.
pub proof fn blanks_are_trimmed(s: Seq<char>)
    ensures
        holds(s, trimmed(s)),
        trimmed(s).len() > 0 ==> !is_space(trimmed(s)[0]) && !is_space(trimmed(s).last()),
        trimmed(s).len() == 0 <==> forall|i: int| 0 <= i < s.len() ==> is_space(#[trigger] s[i]),
        s.len() > 0 && !is_space(s[0]) && !is_space(s.last()) ==> trimmed(s) == s,
{
    let f = strip_front(s, Class::Space);
    let t = trimmed(s);
    fronts_are_stripped(s, Class::Space);
    backs_are_stripped(f, Class::Space);
    let k = s.len() - f.len();
    assert(f =~= s.subrange(k, s.len() as int));
    assert(t =~= f.subrange(0, t.len() as int));
    assert(s.subrange(k, k + t.len()) =~= t);
    if t.len() == 0 {
        assert forall|i: int| 0 <= i < s.len() implies is_space(#[trigger] s[i]) by {
            if i >= k {
                assert(f[i - k] == s[i]);
                assert(in_class(Class::Space, f[i - k]));
            } else {
                assert(in_class(Class::Space, s[i]));
            }
        }
    } else {
        assert(t[0] == f[0] && s[k] == f[0]);
    }
}

/// What is cut at a character holds it nowhere, and joined with it again is the text.
pub proof fn pieces_join_again(s: Seq<char>, c: char)
    ensures
        joined(pieces(s, c), seq![c]) == s,
        pieces(s, c).len() > 0,
        forall|i: int, j: int|
            0 <= i < pieces(s, c).len() && 0 <= j < pieces(s, c)[i].len()
                ==> #[trigger] pieces(s, c)[i][j] != c,
    decreases s.len(),
{
    char_at_meaning(s, c);
    let p = pieces(s, c);
    match char_at(s, c) {
        Some(k) => {
            let rest = pieces(s.skip(k + 1), c);
            pieces_join_again(s.skip(k + 1), c);
            assert(p =~= seq![s.take(k)] + rest);
            joined_from_the_front(p, seq![c]);
            assert(p.drop_first() =~= rest);
            assert(s.take(k) + seq![c] + s.skip(k + 1) =~= s);
            assert forall|i: int, j: int| 0 <= i < p.len() && 0 <= j < p[i].len() implies
                #[trigger] p[i][j] != c by {
                if i > 0 {
                    assert(p[i] == rest[i - 1]);
                    assert(rest[i - 1][j] != c);
                }
            }
        },
        None => {
            assert(p =~= seq![s]);
        },
    }
}

/// Joining puts the separator behind every text but the last.
pub proof fn joined_from_the_front(parts: Seq<Seq<char>>, sep: Seq<char>)
    requires
        parts.len() >= 2,
    ensures
        joined(parts, sep) == parts[0] + sep + joined(parts.drop_first(), sep),
    decreases parts.len(),
{
    if parts.len() == 2 {
        assert(parts.drop_last() =~= seq![parts[0]]);
        assert(parts.drop_first() =~= seq![parts[1]]);
        assert(joined(seq![parts[0]], sep) == parts[0]);
    } else {
        let init = parts.drop_last();
        joined_from_the_front(init, sep);
        assert(parts.drop_first().drop_last() =~= init.drop_first());
        assert(parts.drop_first().last() == parts.last());
        assert(joined(parts, sep) =~= parts[0] + sep + joined(parts.drop_first(), sep));
    }
}

/// Every joined text stands in the whole.
pub proof fn joined_texts_are_held(parts: Seq<Seq<char>>, sep: Seq<char>, i: int)
    requires
        0 <= i < parts.len(),
    ensures
        holds(joined(parts, sep), parts[i]),
    decreases parts.len(),
{
    let none = Seq::<char>::empty();
    let whole = joined(parts, sep);
    if parts.len() == 1 {
        middle_is_held(none, parts[0], none);
        assert(none + parts[0] + none =~= whole);
    } else {
        let init = parts.drop_last();
        if i < init.len() {
            joined_texts_are_held(init, sep, i);
            assert(init[i] == parts[i]);
            held_in_part(none, joined(init, sep), sep + parts.last(), parts[i]);
            assert(none + joined(init, sep) + (sep + parts.last()) =~= whole);
        } else {
            middle_is_held(joined(init, sep) + sep, parts.last(), none);
            assert(joined(init, sep) + sep + parts.last() + none =~= whole);
        }
    }
}

/// A line ends with the line break, which is no part of it, nor is the carriage return before it;
/// what stands behind is read on its own.
pub proof fn lines_are_read_alone(line: Seq<char>, rest: Seq<char>)
    requires
        forall|i: int| 0 <= i < line.len() ==> line[i] != '\n',
    ensures
        lines_of(line + seq!['\n'] + rest) == seq![
            if line.len() > 0 && line.last() == '\r' {
                line.drop_last()
            } else {
                line
            },
        ] + lines_of(rest),
        line.len() > 0 ==> lines_of(line) == seq![line],
        lines_of(Seq::empty()).len() == 0,
{
    let s = line + seq!['\n'] + rest;
    char_at_meaning(s, '\n');
    char_at_meaning(line, '\n');
    let k = line.len() as int;
    assert(s[k] == '\n');
    let f = char_at(s, '\n')->0;
    if f < k {
        assert(s[f] == line[f]);
    }
    assert(f == k);
    assert(s.take(k) =~= line);
    assert(s.skip(k + 1) =~= rest);
}

/// Words hold no blanks and are not empty.
pub proof fn words_hold_no_blanks(s: Seq<char>, i: int)
    requires
        0 <= i < words_of(s).len(),
    ensures
        words_of(s)[i].len() > 0,
        forall|j: int| 0 <= j < words_of(s)[i].len() ==> !is_space(#[trigger] words_of(s)[i][j]),
    decreases s.len(),
{
    word_len_bound(s);
    if is_space(s[0]) {
        words_hold_no_blanks(s.drop_first(), i);
    } else {
        let n = word_len(s) as int;
        if i > 0 {
            words_hold_no_blanks(s.skip(n), i - 1);
            assert(words_of(s)[i] == words_of(s.skip(n))[i - 1]);
        } else {
            word_has_no_blanks(s);
        }
    }
}

proof fn word_has_no_blanks(s: Seq<char>)
    ensures
        forall|j: int| 0 <= j < word_len(s) ==> !is_space(#[trigger] s[j]),
        word_len(s) <= s.len(),
        word_len(s) < s.len() ==> is_space(s[word_len(s) as int]),
    decreases s.len(),
{
    if s.len() > 0 && !is_space(s[0]) {
        let rest = s.drop_first();
        word_has_no_blanks(rest);
        assert forall|j: int| 0 <= j < word_len(s) implies !is_space(#[trigger] s[j]) by {
            if j > 0 {
                assert(rest[j - 1] == s[j]);
            }
        }
    }
}

/// A blank parts words: a word, a blank and what follows are the word and the words of what follows;
/// blanks alone are no words.
pub proof fn blanks_part_words(word: Seq<char>, c: char, rest: Seq<char>)
    requires
        forall|j: int| 0 <= j < word.len() ==> !is_space(#[trigger] word[j]),
        is_space(c),
    ensures
        word.len() > 0 ==> words_of(word + seq![c] + rest) == seq![word] + words_of(rest),
        words_of(seq![c] + rest) == words_of(rest),
        word.len() > 0 ==> words_of(word) == seq![word],
{
    let s = word + seq![c] + rest;
    let n = word.len() as int;
    assert((seq![c] + rest).drop_first() =~= rest);
    if word.len() > 0 {
        word_has_no_blanks(s);
        let m = word_len(s) as int;
        assert(s[n] == c);
        if m > n {
            assert(!is_space(s[n]));
        }
        if m < n {
            assert(s[m] == word[m]);
        }
        assert(m == n);
        assert(s.take(n) =~= word);
        assert(s.skip(n) =~= seq![c] + rest);
        assert(s[0] == word[0]);
        assert(!is_space(s[0]));
        assert(words_of(s) == seq![s.take(m)] + words_of(s.skip(m)));
        assert((seq![c] + rest)[0] == c);
        assert(words_of(seq![c] + rest) == words_of(rest));
        word_has_no_blanks(word);
        let w = word_len(word) as int;
        if w < n {
            assert(is_space(word[w]));
        }
        assert(word.take(n) =~= word);
        assert(words_of(word.skip(n)).len() == 0);
        assert(words_of(word) =~= seq![word]);
    }
}

/// A number is written in digits, without zeros in front, and reads back as the number.
pub proof fn numbers_read_back(n: nat)
    ensures
        decimal(n).len() > 0,
        all_digits(decimal(n)),
        digits_value(decimal(n)) == n,
        n > 0 ==> decimal(n)[0] != '0',
        n <= u64::MAX ==> number_of(decimal(n)) == Some(n as u64),
    decreases n,
{
    if n < 10 {
        let d = seq![digit(n)];
        assert(d.drop_last() =~= Seq::<char>::empty());
        assert(digits_value(d.drop_last()) == 0);
        assert(d.last() as nat - '0' as nat == n);
        assert(digits_value(d) == n);
    } else {
        numbers_read_back(n / 10);
        let d = decimal(n);
        assert(d.drop_last() =~= decimal(n / 10));
        assert(d.last() as nat - '0' as nat == n % 10);
        assert forall|i: int| 0 <= i < d.len() implies '0' <= #[trigger] d[i] <= '9' by {
            if i < d.len() - 1 {
                assert(decimal(n / 10)[i] == d[i]);
            }
        }
        assert(d[0] == decimal(n / 10)[0]);
    }
    let d = decimal(n);
    assert(d[0] != '+');
    assert(unsigned_digits(d) == d);
}

/// What is padded keeps its text, at the front or at the back, and is as long as was asked or as the
/// text; the rest are blanks.
pub proof fn padding_is_blank(s: Seq<char>, n: nat)
    ensures
        s.is_prefix_of(padded_end(s, n)),
        s.is_suffix_of(padded_start(s, n)),
        padded_end(s, n).len() == (if s.len() < n {
            n
        } else {
            s.len()
        }),
        padded_start(s, n).len() == padded_end(s, n).len(),
        forall|i: int| s.len() <= i < padded_end(s, n).len() ==> #[trigger] padded_end(s, n)[i]
            == ' ',
        forall|i: int|
            0 <= i < padded_start(s, n).len() - s.len() ==> #[trigger] padded_start(s, n)[i] == ' ',
{
    let e = padded_end(s, n);
    let f = padded_start(s, n);
    assert(s =~= e.subrange(0, s.len() as int));
    assert(s =~= f.subrange(f.len() - s.len(), f.len() as int));
}

proof fn replaced_tail(s: Seq<char>, from: Seq<char>, to: Seq<char>, i: int)
    requires
        0 <= i <= s.len(),
        forall|j: int| i <= j ==> !occurs_at(s, from, j),
    ensures
        replaced_from(s, from, to, i) == s.skip(i),
    decreases s.len() - i,
{
    if i < s.len() {
        replaced_tail(s, from, to, i + 1);
        assert(seq![s[i]] + s.skip(i + 1) =~= s.skip(i));
    } else {
        assert(s.skip(i) =~= Seq::<char>::empty());
    }
}

/// Where the text to be replaced does not occur, nothing changes; where it is the whole text, it is
/// replaced as a whole.
pub proof fn replacements_are_exact(s: Seq<char>, from: Seq<char>, to: Seq<char>)
    ensures
        (forall|j: int| !occurs_at(s, from, j)) ==> replaced(s, from, to) == s,
        from.len() > 0 ==> replaced(from, from, to) == to,
{
    if forall|j: int| !occurs_at(s, from, j) {
        replaced_tail(s, from, to, 0);
        assert(s.skip(0) =~= s);
    }
    if from.len() > 0 {
        assert(from.subrange(0, from.len() as int) =~= from);
        assert(occurs_at(from, from, 0));
        assert(replaced_from(from, from, to, from.len() as int) =~= Seq::<char>::empty());
        assert(to + Seq::<char>::empty() =~= to);
    }
}

proof fn replaced_lead(lead: Seq<char>, s: Seq<char>, from: Seq<char>, to: Seq<char>, i: int)
    requires
        0 <= i <= lead.len(),
        forall|j: int| i <= j < lead.len() ==> !occurs_at(lead + s, from, j),
    ensures
        replaced_from(lead + s, from, to, i) == lead.skip(i) + replaced_from(
            lead + s,
            from,
            to,
            lead.len() as int,
        ),
    decreases lead.len() - i,
{
    let all = lead + s;
    if i < lead.len() {
        replaced_lead(lead, s, from, to, i + 1);
        assert(all[i] == lead[i]);
        assert(seq![lead[i]] + lead.skip(i + 1) =~= lead.skip(i));
        let r = replaced_from(all, from, to, lead.len() as int);
        assert(seq![all[i]] + (lead.skip(i + 1) + r) =~= lead.skip(i) + r);
    } else {
        assert(lead.skip(i) =~= Seq::<char>::empty());
        let r = replaced_from(all, from, to, lead.len() as int);
        assert(lead.skip(i) + r =~= r);
    }
}

proof fn replaced_behind(lead: Seq<char>, s: Seq<char>, from: Seq<char>, to: Seq<char>, i: int)
    requires
        0 <= i,
    ensures
        replaced_from(lead + s, from, to, lead.len() + i) == replaced_from(s, from, to, i),
    decreases s.len() - i,
{
    let all = lead + s;
    if i < s.len() {
        assert(occurs_at(all, from, lead.len() + i) == occurs_at(s, from, i)) by {
            if i + from.len() <= s.len() {
                assert(all.subrange(lead.len() + i, lead.len() + i + from.len()) =~= s.subrange(
                    i,
                    i + from.len(),
                ));
            }
        }
        assert(all[lead.len() + i] == s[i]);
        if from.len() > 0 && occurs_at(s, from, i) {
            replaced_behind(lead, s, from, to, i + from.len());
        } else {
            replaced_behind(lead, s, from, to, i + 1);
        }
    }
}

/// The first occurrence is replaced, what stands before it stays, and what stands behind it is
/// replaced on its own.
pub proof fn replacements_go_on(lead: Seq<char>, from: Seq<char>, rest: Seq<char>, to: Seq<char>)
    requires
        from.len() > 0,
        forall|j: int| 0 <= j < lead.len() ==> !occurs_at(lead + from + rest, from, j),
    ensures
        replaced(lead + from + rest, from, to) == lead + to + replaced(rest, from, to),
{
    let all = lead + from + rest;
    assert(all =~= lead + (from + rest));
    replaced_lead(lead, from + rest, from, to, 0);
    assert(lead.skip(0) =~= lead);
    let k = lead.len() as int;
    assert(all.subrange(k, k + from.len()) =~= from);
    assert(occurs_at(all, from, k));
    replaced_behind(lead + from, rest, from, to, 0);
    assert(lead + (to + replaced(rest, from, to)) =~= lead + to + replaced(rest, from, to));
}

/// The place found is the first one, and it is found wherever there is one.
pub proof fn first_places_are_found(lead: Seq<char>, n: Seq<char>, rest: Seq<char>)
    requires
        forall|j: int| 0 <= j < lead.len() ==> !occurs_at(lead + n + rest, n, j),
    ensures
        find_from(lead + n + rest, n, 0) == Some(lead.len() as int),
{
    let h = lead + n + rest;
    let k = lead.len() as int;
    find_from_meaning(h, n, 0);
    assert(h.subrange(k, k + n.len()) =~= n);
    assert(occurs_at(h, n, k));
}

/// Cutting at a character gives what stands before its first place and what stands behind.
pub proof fn cuts_are_exact(a: Seq<char>, c: char, b: Seq<char>)
    requires
        forall|j: int| 0 <= j < a.len() ==> a[j] != c,
    ensures
        cut_at(a + seq![c] + b, c) == Some((a, b)),
        cut_at(a, c) is None,
{
    let s = a + seq![c] + b;
    char_at_meaning(s, c);
    char_at_meaning(a, c);
    let k = char_at(s, c)->0;
    assert(s[a.len() as int] == c);
    if k < a.len() {
        assert(s[k] == a[k]);
    }
    assert(s.take(k) =~= a);
    assert(s.skip(k + 1) =~= b);
}

/// A text is held in itself.
pub proof fn self_is_held(s: Seq<char>)
    ensures
        holds(s, s),
{
    let i: int = 0;
    assert(s.subrange(i, i + s.len()) =~= s);
}

/// What stands at the end is held.
pub proof fn end_is_held(lead: Seq<char>, part: Seq<char>)
    ensures
        holds(lead + part, part),
{
    let whole = lead + part;
    let i = lead.len() as int;
    assert(whole.subrange(i, i + part.len()) =~= part);
}

/// What is held stays so when more follows.
pub proof fn held_with_more(whole: Seq<char>, more: Seq<char>, part: Seq<char>)
    requires
        holds(whole, part),
    ensures
        holds(whole + more, part),
{
    let none = Seq::<char>::empty();
    held_in_part(none, whole, more, part);
    assert(none + whole + more =~= whole + more);
}

/// What stands in front stays in front.
pub proof fn fronts_stay(a: Seq<char>, b: Seq<char>)
    ensures
        a.is_prefix_of(a + b),
{
    assert(a =~= (a + b).subrange(0, a.len() as int));
}

/// A text is the front of itself.
pub proof fn whole_is_front(whole: Seq<char>)
    ensures
        whole.is_prefix_of(whole),
{
    assert(whole =~= whole.subrange(0, whole.len() as int));
}

/// The front of a front is a front.
pub proof fn front_of_front(a: Seq<char>, b: Seq<char>, whole: Seq<char>)
    requires
        (a + b).is_prefix_of(whole),
    ensures
        a.is_prefix_of(whole),
{
    let front = a + b;
    assert(front =~= whole.subrange(0, front.len() as int));
    assert forall|i: int| 0 <= i < a.len() implies a[i] == whole[i] by {
        assert(front[i] == whole.subrange(0, front.len() as int)[i]);
    }
    assert(a =~= whole.subrange(0, a.len() as int));
}

/// What a front ends with is held.
pub proof fn part_of_front(a: Seq<char>, b: Seq<char>, whole: Seq<char>)
    requires
        (a + b).is_prefix_of(whole),
    ensures
        holds(whole, b),
{
    let front = a + b;
    let k = a.len() as int;
    assert(front =~= whole.subrange(0, front.len() as int));
    let x = whole.subrange(k, k + b.len());
    assert forall|i: int| 0 <= i < b.len() implies #[trigger] x[i] == b[i] by {
        assert(front[k + i] == whole.subrange(0, front.len() as int)[k + i]);
    }
    assert(x =~= b);
}

/// A text is found exactly where it is held.
pub proof fn finding_is_holding(h: Seq<char>, n: Seq<char>)
    ensures
        contains_text(h, n) <==> holds(h, n),
{
    if contains_text(h, n) {
        let i = choose|i: int| occurs_at(h, n, i);
        assert(h.subrange(i, i + n.len()) == n);
    }
    if holds(h, n) {
        let i = choose|i: int|
            0 <= i && i + n.len() <= h.len() && #[trigger] h.subrange(i, i + n.len()) == n;
        assert(occurs_at(h, n, i));
    }
}

/// What stands behind the front is what is left without it.
pub proof fn fronts_are_taken_off(p: Seq<char>, rest: Seq<char>, s: Seq<char>)
    ensures
        after_prefix(p + rest, p) == Some(rest),
        after_prefix(s, p) matches Some(r) ==> p + r == s,
        after_prefix(s, p) is None <==> !p.is_prefix_of(s),
{
    let whole = p + rest;
    assert(p =~= whole.subrange(0, p.len() as int));
    assert(whole.skip(p.len() as int) =~= rest);
    if p.is_prefix_of(s) {
        assert(p =~= s.subrange(0, p.len() as int));
        assert(p + s.skip(p.len() as int) =~= s) by {
            assert forall|i: int| 0 <= i < p.len() implies p[i] == s[i] by {
                assert(p[i] == s.subrange(0, p.len() as int)[i]);
            }
        }
    }
}

/// A number that is read is that of the digits, a sign in front of them aside; anything else is none.
pub proof fn only_digits_are_numbers(d: Seq<char>)
    requires
        d.len() > 0,
        d[0] != '+',
    ensures
        number_of(d) is Some <==> (forall|i: int| 0 <= i < d.len() ==> '0' <= #[trigger] d[i]
            <= '9') && digits_value(d) <= u64::MAX,
        number_of(d) matches Some(n) ==> n == digits_value(d),
        number_of(seq!['+'] + d) == number_of(d),
        number_of(Seq::empty()) is None,
{
    let s = seq!['+'] + d;
    assert(s.drop_first() =~= d);
    assert(s[0] == '+');
}

/// The value of digits is built digit by digit.
pub proof fn values_are_built_by_digit(d: Seq<char>, c: char)
    requires
        '0' <= c <= '9',
    ensures
        digits_value(d.push(c)) == 10 * digits_value(d) + (c as nat - '0' as nat),
        digits_value(Seq::empty()) == 0,
{
    assert(d.push(c).drop_last() =~= d);
}

/// What is negative is written with a sign.
pub proof fn signs_are_written(n: nat)
    ensures
        signed_decimal(n as int) == decimal(n),
        n > 0 ==> signed_decimal(-(n as int)) == seq!['-'] + decimal(n),
{
    reveal_strlit("-");
    assert("-"@ =~= seq!['-']);
}

} // verus!
