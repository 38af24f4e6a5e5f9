//! The live view of roster and messages: what is selected, what is scrolled, and what is being
//! written.
use crate::client::{Message, ReadState, WorkerInfo};
use crate::clock::Timestamp;
use crate::sorting;
use crate::table;
use crate::text;
use vstd::prelude::*;

pub mod draw;

verus! {

// ── Text in cells ───────────────────────────────────────────────────────────
/// At most `max` characters, with an ellipsis where something is missing.
pub open spec fn clipped(s: Seq<char>, max: nat) -> Seq<char> {
    if max == 0 {
        Seq::empty()
    } else if s.len() <= max {
        s
    } else {
        s.take(max - 1).push('\u{2026}')
    }
}

/// At most `max` characters, with an ellipsis where something is missing.
pub fn clip(s: &str, max: usize) -> (r: String)
    ensures
        r@ == clipped(s@, max as nat),
{
    if max == 0 {
        let r = String::new();
        assert(r@ =~= Seq::<char>::empty());
        return r;
    }
    let v = text::chars_of(s);
    if v.len() <= max {
        s.to_owned()
    } else {
        let mut r = text::slice_of(&v, 0, max - 1);
        r.push('\u{2026}');
        assert(r@ =~= s@.take(max - 1).push('\u{2026}'));
        r
    }
}

/// The first `max` characters.
pub open spec fn front(s: Seq<char>, max: nat) -> Seq<char> {
    if s.len() <= max {
        s
    } else {
        s.take(max as int)
    }
}

/// The first `max` characters.
pub fn clip_no_ellipsis(s: &str, max: usize) -> (r: String)
    ensures
        r@ == front(s@, max as nat),
{
    text::clip_chars(s, max)
}

/// Exactly `width` characters.
pub open spec fn fitted(s: Seq<char>, width: nat) -> Seq<char> {
    text::padded_end(front(s, width), width)
}

/// Exactly `width` characters: cut off, or with blanks behind.
pub fn pad(s: &str, width: usize) -> (r: String)
    ensures
        r@ == fitted(s@, width as nat),
        r@.len() == width,
{
    text::pad_end(text::clip_chars(s, width).as_str(), width)
}

/// The last `max` characters.
pub open spec fn tail(s: Seq<char>, max: nat) -> Seq<char> {
    if s.len() <= max {
        s
    } else {
        s.skip(s.len() - max)
    }
}

/// The last `max` characters.
pub fn tail_chars(s: &str, max: usize) -> (r: String)
    ensures
        r@ == tail(s@, max as nat),
{
    let v = text::chars_of(s);
    if v.len() <= max {
        s.to_owned()
    } else {
        let r = text::slice_of(&v, v.len() - max, v.len());
        assert(r@ =~= s@.skip(s@.len() - max));
        r
    }
}

/// A word in pieces of `width` characters; the last one may be shorter.
pub open spec fn chunks(w: Seq<char>, width: nat) -> Seq<Seq<char>>
    decreases w.len(),
{
    if width == 0 || w.len() <= width {
        seq![w]
    } else {
        seq![w.take(width as int)] + chunks(w.skip(width as int), width)
    }
}

/// The words with those in pieces that are longer than a line.
pub open spec fn broken(words: Seq<Seq<char>>, width: nat) -> Seq<Seq<char>>
    decreases words.len(),
{
    if words.len() == 0 {
        Seq::empty()
    } else {
        broken(words.drop_last(), width) + chunks(words.last(), width)
    }
}

/// The lines that words make: a word goes on the line where it still fits, and else begins a new
/// one. `current` is the line that is being filled.
pub open spec fn filled(words: Seq<Seq<char>>, current: Seq<char>, width: nat) -> Seq<Seq<char>>
    decreases words.len(),
{
    if words.len() == 0 {
        if current.len() == 0 {
            Seq::empty()
        } else {
            seq![current]
        }
    } else {
        let w = words[0];
        if current.len() == 0 {
            filled(words.drop_first(), w, width)
        } else if current.len() + 1 + w.len() <= width {
            filled(words.drop_first(), current + seq![' '] + w, width)
        } else {
            seq![current] + filled(words.drop_first(), w, width)
        }
    }
}

/// The lines of one paragraph; an empty one is an empty line.
pub open spec fn paragraph(p: Seq<char>, width: nat) -> Seq<Seq<char>> {
    if p.len() == 0 {
        seq![Seq::empty()]
    } else {
        filled(broken(text::words_of(p), width), Seq::empty(), width)
    }
}

/// The lines of paragraphs.
pub open spec fn paragraphs(ps: Seq<Seq<char>>, width: nat) -> Seq<Seq<char>>
    decreases ps.len(),
{
    if ps.len() == 0 {
        Seq::empty()
    } else {
        paragraphs(ps.drop_last(), width) + paragraph(ps.last(), width)
    }
}

/// The lines of a text that is wrapped at `width`.
pub open spec fn wrapped(s: Seq<char>, width: nat) -> Seq<Seq<char>> {
    if width == 0 {
        Seq::empty()
    } else {
        paragraphs(text::pieces(s, '\n'), width)
    }
}

fn break_word(w: &str, width: usize, out: &mut Vec<String>)
    requires
        width > 0,
    ensures
        text::texts(final(out)@) == text::texts(old(out)@) + chunks(w@, width as nat),
{
    let v = text::chars_of(w);
    let ghost start = text::texts(out@);
    let ghost want = chunks(w@, width as nat);
    let mut from: usize = 0;
    assert(w@.skip(0) =~= w@);
    while v.len() - from > width
        invariant
            from <= v@.len(),
            width > 0,
            v@ == w@,
            text::texts(out@) + chunks(w@.skip(from as int), width as nat) == start + want,
        decreases v@.len() - from,
    {
        let ghost before = text::texts(out@);
        let ghost here = w@.skip(from as int);
        let piece = text::slice_of(&v, from, from + width);
        assert(piece@ =~= here.take(width as int));
        assert(here.skip(width as int) =~= w@.skip(from + width));
        out.push(piece);
        assert(text::texts(out@) =~= before.push(here.take(width as int)));
        assert(text::texts(out@) + chunks(w@.skip(from + width), width as nat) =~= before + (seq![
            here.take(width as int),
        ] + chunks(w@.skip(from + width), width as nat)));
        from += width;
    }
    let ghost before = text::texts(out@);
    let piece = text::slice_of(&v, from, v.len());
    assert(piece@ =~= w@.skip(from as int));
    out.push(piece);
    assert(text::texts(out@) =~= before + seq![w@.skip(from as int)]);
}

fn break_words(words: &Vec<String>, width: usize) -> (r: Vec<String>)
    requires
        width > 0,
    ensures
        text::texts(r@) == broken(text::texts(words@), width as nat),
{
    let ghost all = text::texts(words@);
    let mut r: Vec<String> = Vec::new();
    let mut i: usize = 0;
    assert(text::texts(r@) =~= broken(all.take(0), width as nat));
    while i < words.len()
        invariant
            i <= words@.len(),
            width > 0,
            all == text::texts(words@),
            text::texts(r@) == broken(all.take(i as int), width as nat),
        decreases words@.len() - i,
    {
        assert(all.take(i + 1).drop_last() =~= all.take(i as int));
        assert(all.take(i + 1).last() == words@[i as int]@);
        break_word(words[i].as_str(), width, &mut r);
        i += 1;
    }
    assert(all.take(i as int) =~= all);
    r
}

fn fill(words: &Vec<String>, width: usize, out: &mut Vec<String>)
    ensures
        text::texts(final(out)@) == text::texts(old(out)@) + filled(
            text::texts(words@),
            Seq::empty(),
            width as nat,
        ),
{
    let ghost all = text::texts(words@);
    let ghost start = text::texts(out@);
    let ghost want = filled(all, Seq::empty(), width as nat);
    let mut current = String::new();
    let mut i: usize = 0;
    assert(all.skip(0) =~= all);
    assert(current@ =~= Seq::<char>::empty());
    while i < words.len()
        invariant
            i <= words@.len(),
            all == text::texts(words@),
            text::texts(out@) + filled(all.skip(i as int), current@, width as nat) == start + want,
        decreases words@.len() - i,
    {
        let w = words[i].as_str();
        let ghost before = text::texts(out@);
        let ghost cur = current@;
        let ghost rest = all.skip(i + 1);
        assert(all.skip(i as int).drop_first() =~= rest);
        assert(all.skip(i as int)[0] == w@);
        let have: usize = text::chars_of(current.as_str()).len();
        let need: usize = text::chars_of(w).len();
        if have == 0 {
            assert(cur =~= Seq::<char>::empty());
            current = w.to_owned();
        } else if have < width && need <= width - have - 1 {
            current.push(' ');
            current.append(w);
            assert(current@ =~= cur + seq![' '] + w@);
        } else {
            out.push(current);
            assert(text::texts(out@) =~= before.push(cur));
            current = w.to_owned();
            assert(before.push(cur) + filled(rest, w@, width as nat) =~= before + (seq![cur]
                + filled(rest, w@, width as nat)));
        }
        i += 1;
    }
    let ghost before = text::texts(out@);
    let ghost cur = current@;
    assert(all.skip(i as int).len() == 0);
    if !current.as_str().is_empty() {
        out.push(current);
        assert(text::texts(out@) =~= before + seq![cur]);
    } else {
        assert(before + Seq::<Seq<char>>::empty() =~= before);
    }
}

/// The lines of a text, broken between words where that will do and inside a word that is longer
/// than a line, so that none is longer than `width`.
pub fn wrap_text(s: &str, width: usize) -> (r: Vec<String>)
    ensures
        text::texts(r@) == wrapped(s@, width as nat),
        forall|i: int| 0 <= i < r@.len() ==> (#[trigger] r@[i])@.len() <= width,
{
    let mut r: Vec<String> = Vec::new();
    if width == 0 {
        assert(text::texts(r@) =~= Seq::<Seq<char>>::empty());
        return r;
    }
    let parts = text::split(s, '\n');
    let ghost ps = text::texts(parts@);
    let mut i: usize = 0;
    assert(text::texts(r@) =~= paragraphs(ps.take(0), width as nat));
    while i < parts.len()
        invariant
            i <= parts@.len(),
            width > 0,
            ps == text::texts(parts@),
            text::texts(r@) == paragraphs(ps.take(i as int), width as nat),
        decreases parts@.len() - i,
    {
        assert(ps.take(i + 1).drop_last() =~= ps.take(i as int));
        assert(ps.take(i + 1).last() == parts@[i as int]@);
        if parts[i].as_str().is_empty() {
            let ghost before = text::texts(r@);
            let e = String::new();
            assert(e@ =~= Seq::<char>::empty());
            r.push(e);
            assert(text::texts(r@) =~= before + seq![Seq::<char>::empty()]);
        } else {
            let words = break_words(&text::words(parts[i].as_str()), width);
            fill(&words, width, &mut r);
        }
        i += 1;
    }
    assert(ps.take(i as int) =~= ps);
    proof {
        lines_fit(s@, width as nat);
        assert forall|k: int| 0 <= k < r@.len() implies (#[trigger] r@[k])@.len() <= width by {
            assert(text::texts(r@)[k] == r@[k]@);
        }
    }
    r
}

// ── Who is there ────────────────────────────────────────────────────────────
/// The model of a worker on the roster.
#[verifier::ext_equal]
pub struct Who {
    pub id: Seq<char>,
    pub role: Seq<char>,
    pub last_seen: Timestamp,
    pub count: nat,
}

/// The model of a worker on the roster.
pub open spec fn who(w: WorkerInfo) -> Who {
    Who {
        id: w.instance_id@,
        role: w.role@,
        last_seen: w.last_seen,
        count: w.message_count as nat,
    }
}

/// The models of a roster.
pub open spec fn whos(v: Seq<WorkerInfo>) -> Seq<Who> {
    Seq::new(v.len(), |i: int| who(v[i]))
}

fn copy_worker(w: &WorkerInfo) -> (r: WorkerInfo)
    ensures
        who(r) == who(*w),
{
    WorkerInfo {
        instance_id: w.instance_id.clone(),
        role: w.role.clone(),
        last_seen: w.last_seen,
        message_count: w.message_count,
    }
}

/// Where the worker stands that sent the fewest messages, of those that are not `me`; the first
/// one where there are several.
pub open spec fn least(v: Seq<Who>, me: Seq<char>) -> Option<int>
    decreases v.len(),
{
    if v.len() == 0 {
        None
    } else {
        let r = least(v.drop_last(), me);
        let w = v.last();
        if w.id == me {
            r
        } else {
            match r {
                Some(i) => if w.count < v[i].count {
                    Some(v.len() - 1)
                } else {
                    Some(i)
                },
                None => Some(v.len() - 1),
            }
        }
    }
}

proof fn least_bound(v: Seq<Who>, me: Seq<char>)
    ensures
        least(v, me) matches Some(i) ==> 0 <= i < v.len(),
    decreases v.len(),
{
    if v.len() > 0 {
        least_bound(v.drop_last(), me);
    }
}

/// The name of the worker that sent the fewest messages.
pub open spec fn least_name(v: Seq<Who>, me: Seq<char>) -> Option<Seq<char>> {
    match least(v, me) {
        Some(i) => Some(v[i].id),
        None => None,
    }
}

/// The worker that sent the fewest messages, of those that are not `me`.
pub fn least_capacitated(workers: &Vec<WorkerInfo>, me: &str) -> (r: Option<String>)
    ensures
        text::opt_text(r) == least_name(whos(workers@), me@),
{
    let ghost all = whos(workers@);
    let mut best: Option<usize> = None;
    let mut i: usize = 0;
    assert(all.take(0) =~= Seq::<Who>::empty());
    while i < workers.len()
        invariant
            i <= workers@.len(),
            all == whos(workers@),
            (match best {
                Some(b) => Some(b as int),
                None => None,
            }) == least(all.take(i as int), me@),
            best matches Some(b) ==> b < i,
        decreases workers@.len() - i,
    {
        let ghost t = all.take(i + 1);
        assert(t.drop_last() =~= all.take(i as int));
        assert(t.last() == who(workers@[i as int]));
        if !text::same(workers[i].instance_id.as_str(), me) {
            best = match best {
                Some(b) => {
                    assert(t[b as int] == who(workers@[b as int]));
                    if workers[i].message_count < workers[b].message_count {
                        Some(i)
                    } else {
                        Some(b)
                    }
                },
                None => Some(i),
            };
        }
        i += 1;
    }
    assert(all.take(i as int) =~= all);
    match best {
        Some(b) => Some(workers[b].instance_id.clone()),
        None => None,
    }
}

/// How many names stand before one.
pub open spec fn rank(v: Seq<Who>, name: Seq<char>) -> nat
    decreases v.len(),
{
    if v.len() == 0 {
        0
    } else {
        rank(v.drop_last(), name) + if text::before(v.last().id, name) {
            1nat
        } else {
            0nat
        }
    }
}

/// The places of the workers in the order of their names.
pub open spec fn ranks(v: Seq<Who>) -> Seq<int> {
    Seq::new(v.len(), |i: int| rank(v, v[i].id) as int)
}

/// The workers in the order of their names.
pub open spec fn by_name(v: Seq<Who>) -> Seq<Who> {
    sorting::arranged(v, ranks(v), false)
}

fn rank_of(workers: &Vec<WorkerInfo>, name: &str) -> (r: usize)
    ensures
        r == rank(whos(workers@), name@),
{
    let ghost all = whos(workers@);
    let mut r: usize = 0;
    let mut i: usize = 0;
    assert(all.take(0) =~= Seq::<Who>::empty());
    while i < workers.len()
        invariant
            i <= workers.len(),
            r <= i,
            all == whos(workers@),
            r == rank(all.take(i as int), name@),
        decreases workers@.len() - i,
    {
        assert(all.take(i + 1).drop_last() =~= all.take(i as int));
        assert(all.take(i + 1).last() == who(workers@[i as int]));
        if text::less(workers[i].instance_id.as_str(), name) {
            r += 1;
        }
        i += 1;
    }
    assert(all.take(i as int) =~= all);
    r
}

/// The workers in the order of their names.
pub fn sort_workers(workers: &Vec<WorkerInfo>) -> (r: Vec<WorkerInfo>)
    ensures
        whos(r@) == by_name(whos(workers@)),
{
    let ghost all = whos(workers@);
    let mut keys: Vec<i128> = Vec::new();
    let mut i: usize = 0;
    while i < workers.len()
        invariant
            i <= workers@.len(),
            all == whos(workers@),
            keys@.len() == i,
            forall|k: int| 0 <= k < i ==> #[trigger] keys@[k] == rank(all, all[k].id),
        decreases workers@.len() - i,
    {
        keys.push(rank_of(workers, workers[i].instance_id.as_str()) as i128);
        i += 1;
    }
    assert(sorting::key_model(keys@) =~= ranks(all));
    let order = sorting::order_by(&keys, false);
    let ghost o = sorting::ordering(ranks(all), all.len(), false);
    let mut r: Vec<WorkerInfo> = Vec::new();
    let mut j: usize = 0;
    while j < order.len()
        invariant
            j <= order@.len(),
            all == whos(workers@),
            o == sorting::index_model(order@),
            forall|k: int| 0 <= k < order@.len() ==> #[trigger] order@[k] < workers@.len(),
            r@.len() == j,
            forall|k: int| 0 <= k < j ==> who(#[trigger] r@[k]) == all[o[k]],
        decreases order@.len() - j,
    {
        assert(o[j as int] == order@[j as int]);
        r.push(copy_worker(&workers[order[j]]));
        j += 1;
    }
    assert(whos(r@) =~= by_name(all));
    r
}

// ── Writing a message ───────────────────────────────────────────────────────
/// The field that keys go to.
#[derive(Clone, Copy, PartialEq, Eq, Structural, Debug)]
pub enum ComposeField {
    Recipients,
    Message,
}

/// A message that is being written.
pub struct ComposeState {
    pub workers: Vec<WorkerInfo>,
    /// Who gets it.
    pub selected: Vec<bool>,
    pub list_cursor: usize,
    pub list_scroll: usize,
    pub focused: ComposeField,
    pub message: String,
    pub reply_hash: Option<String>,
    pub sending: bool,
    pub error: Option<String>,
    pub list_visible_rows: usize,
}

/// The model of a [`ComposeState`].
#[verifier::ext_equal]
pub struct ComposeModel {
    pub workers: Seq<Who>,
    pub selected: Seq<bool>,
    pub cursor: nat,
    pub scroll: nat,
    pub focused: ComposeField,
    pub message: Seq<char>,
    pub reply_hash: Option<Seq<char>>,
    pub sending: bool,
    pub error: Option<Seq<char>>,
    pub visible: nat,
}

impl View for ComposeState {
    type V = ComposeModel;

    open spec fn view(&self) -> ComposeModel {
        ComposeModel {
            workers: whos(self.workers@),
            selected: self.selected@,
            cursor: self.list_cursor as nat,
            scroll: self.list_scroll as nat,
            focused: self.focused,
            message: self.message@,
            reply_hash: text::opt_text(self.reply_hash),
            sending: self.sending,
            error: text::opt_text(self.error),
            visible: self.list_visible_rows as nat,
        }
    }
}

/// A message to be sent.
pub struct SendRequest {
    pub recipients: Vec<String>,
    pub message: String,
    pub reply_hash: Option<String>,
}

/// The model of a [`SendRequest`].
#[verifier::ext_equal]
pub struct RequestModel {
    pub recipients: Seq<Seq<char>>,
    pub message: Seq<char>,
    pub reply_hash: Option<Seq<char>>,
}

impl View for SendRequest {
    type V = RequestModel;

    open spec fn view(&self) -> RequestModel {
        RequestModel {
            recipients: text::texts(self.recipients@),
            message: self.message@,
            reply_hash: text::opt_text(self.reply_hash),
        }
    }
}

/// How many workers are shown at once, before the size of the screen is known.
pub const LIST_ROWS: usize = 4;

/// A message that has just been begun.
pub open spec fn begun(
    workers: Seq<Who>,
    selected: Seq<bool>,
    reply: Option<Seq<char>>,
) -> ComposeModel {
    ComposeModel {
        workers,
        selected,
        cursor: 0,
        scroll: 0,
        focused: ComposeField::Recipients,
        message: Seq::empty(),
        reply_hash: reply,
        sending: false,
        error: None,
        visible: LIST_ROWS as nat,
    }
}

/// The first row that is shown, so that the cursor is among the `visible` ones.
pub open spec fn scrolled(cursor: nat, scroll: nat, visible: nat) -> nat {
    if cursor < scroll {
        cursor
    } else if cursor >= scroll + visible {
        (cursor + 1 - visible) as nat
    } else {
        scroll
    }
}

/// At least one.
pub open spec fn at_least_one(n: nat) -> nat {
    if n == 0 {
        1
    } else {
        n
    }
}

/// With the cursor moved, and scrolled so that it can be seen.
pub open spec fn moved(c: ComposeModel, cursor: nat) -> ComposeModel {
    ComposeModel { cursor, scroll: scrolled(cursor, c.scroll, at_least_one(c.visible)), ..c }
}

/// Those that are selected.
pub open spec fn picked(workers: Seq<Who>, selected: Seq<bool>) -> Seq<Seq<char>>
    decreases workers.len(),
{
    if workers.len() == 0 {
        Seq::empty()
    } else {
        let i = workers.len() - 1;
        let r = picked(workers.drop_last(), selected);
        if i < selected.len() && selected[i] {
            r.push(workers.last().id)
        } else {
            r
        }
    }
}

/// What became of a message behind a key: it is still being written or not, and may have to be
/// sent.
pub struct Composed {
    pub state: Option<ComposeState>,
    pub request: Option<SendRequest>,
}

/// The model of a [`Composed`].
pub open spec fn composed(c: Composed) -> (Option<ComposeModel>, Option<RequestModel>) {
    (
        match c.state {
            Some(s) => Some(s@),
            None => None,
        },
        match c.request {
            Some(r) => Some(r@),
            None => None,
        },
    )
}

/// What becomes of a message that is to be sent: it needs a text and somebody to go to.
pub open spec fn sent(c: ComposeModel) -> (Option<ComposeModel>, Option<RequestModel>) {
    let message = text::trimmed(c.message);
    let recipients = picked(c.workers, c.selected);
    if message.len() == 0 {
        (Some(ComposeModel { error: Some("Message cannot be empty"@), ..c }), None)
    } else if recipients.len() == 0 {
        (Some(ComposeModel { error: Some("Select at least one recipient"@), ..c }), None)
    } else {
        (
            Some(ComposeModel { sending: true, error: None, ..c }),
            Some(RequestModel { recipients, message, reply_hash: c.reply_hash }),
        )
    }
}

/// A key that was pressed.
#[derive(Clone, Copy, PartialEq, Eq, Structural, Debug)]
pub enum Key {
    Esc,
    Tab,
    Enter,
    Up,
    Down,
    Backspace,
    Char(char),
    Other,
}

/// What a key does to a message that is being written. The keys of the list never reach the text.
pub open spec fn pressed(
    c: ComposeModel,
    key: Key,
) -> (Option<ComposeModel>, Option<RequestModel>) {
    let listing = c.focused == ComposeField::Recipients;
    match key {
        Key::Esc => (None, None),
        Key::Tab => (
            Some(
                ComposeModel {
                    focused: if listing {
                        ComposeField::Message
                    } else {
                        ComposeField::Recipients
                    },
                    ..c
                },
            ),
            None,
        ),
        Key::Enter => if listing {
            (Some(ComposeModel { focused: ComposeField::Message, ..c }), None)
        } else {
            sent(c)
        },
        Key::Up | Key::Char('k') => (
            Some(
                if listing && c.cursor > 0 {
                    moved(c, (c.cursor - 1) as nat)
                } else {
                    c
                },
            ),
            None,
        ),
        Key::Down | Key::Char('j') => (
            Some(
                if listing && c.cursor + 1 < c.workers.len() {
                    moved(c, c.cursor + 1)
                } else {
                    c
                },
            ),
            None,
        ),
        Key::Char(' ') => (
            Some(
                if listing && c.cursor < c.selected.len() {
                    ComposeModel {
                        selected: c.selected.update(
                            c.cursor as int,
                            !c.selected[c.cursor as int],
                        ),
                        ..c
                    }
                } else {
                    c
                },
            ),
            None,
        ),
        Key::Char('a') => (
            Some(
                if listing {
                    ComposeModel {
                        selected: Seq::new(c.selected.len(), |i: int| c.selected.contains(false)),
                        ..c
                    }
                } else {
                    c
                },
            ),
            None,
        ),
        Key::Char(ch) => (
            Some(
                if !listing && !c.sending {
                    ComposeModel { message: c.message.push(ch), ..c }
                } else {
                    c
                },
            ),
            None,
        ),
        Key::Backspace => (
            Some(
                if !listing && c.message.len() > 0 {
                    ComposeModel { message: c.message.drop_last(), ..c }
                } else {
                    c
                },
            ),
            None,
        ),
        Key::Other => (Some(c), None),
    }
}

/// The first row that is shown, so that the cursor is among the `visible` ones.
pub fn scroll_to(cursor: usize, scroll: usize, visible: usize) -> (r: usize)
    requires
        visible > 0,
    ensures
        r == scrolled(cursor as nat, scroll as nat, visible as nat),
{
    if cursor < scroll {
        cursor
    } else if cursor - scroll >= visible {
        cursor - (visible - 1)
    } else {
        scroll
    }
}

impl ComposeState {
    /// A message that has just been begun.
    pub fn new(workers: Vec<WorkerInfo>, selected: Vec<bool>, reply_hash: Option<String>) -> (c:
        ComposeState)
        ensures
            c@ == begun(whos(workers@), selected@, text::opt_text(reply_hash)),
    {
        let c = ComposeState {
            workers,
            selected,
            list_cursor: 0,
            list_scroll: 0,
            focused: ComposeField::Recipients,
            message: String::new(),
            reply_hash,
            sending: false,
            error: None,
            list_visible_rows: LIST_ROWS,
        };
        assert(c@.message =~= Seq::<char>::empty());
        c
    }

    /// Scrolls so that the cursor can be seen.
    pub fn clamp_scroll(&mut self)
        ensures
            final(self)@ == moved(old(self)@, old(self)@.cursor),
    {
        let visible: usize = if self.list_visible_rows == 0 {
            1
        } else {
            self.list_visible_rows
        };
        self.list_scroll = scroll_to(self.list_cursor, self.list_scroll, visible);
    }

    /// Those that are selected.
    pub fn selected_recipients(&self) -> (r: Vec<String>)
        ensures
            text::texts(r@) == picked(self@.workers, self@.selected),
    {
        let ghost ws = self@.workers;
        let mut r: Vec<String> = Vec::new();
        let mut i: usize = 0;
        assert(text::texts(r@) =~= picked(ws.take(0), self@.selected));
        while i < self.workers.len()
            invariant
                i <= self.workers@.len(),
                ws == self@.workers,
                text::texts(r@) == picked(ws.take(i as int), self@.selected),
            decreases self.workers@.len() - i,
        {
            assert(ws.take(i + 1).drop_last() =~= ws.take(i as int));
            assert(ws.take(i + 1).last() == who(self.workers@[i as int]));
            if i < self.selected.len() && self.selected[i] {
                let ghost before = r@;
                r.push(self.workers[i].instance_id.clone());
                assert(text::texts(r@) =~= text::texts(before).push(ws[i as int].id));
            }
            i += 1;
        }
        assert(ws.take(i as int) =~= ws);
        r
    }

    fn send(self) -> (r: Composed)
        ensures
            composed(r) == sent(self@),
    {
        let mut c = self;
        let message = text::trim(c.message.as_str());
        if message.as_str().is_empty() {
            c.error = Some("Message cannot be empty".to_owned());
            return Composed { state: Some(c), request: None };
        }
        let recipients = c.selected_recipients();
        assert(text::texts(recipients@).len() == recipients@.len());
        if recipients.len() == 0 {
            c.error = Some("Select at least one recipient".to_owned());
            return Composed { state: Some(c), request: None };
        }
        c.sending = true;
        c.error = None;
        let reply_hash = text::copy_opt(&c.reply_hash);
        Composed { state: Some(c), request: Some(SendRequest { recipients, message, reply_hash }) }
    }

    /// What a key does to a message that is being written.
    pub fn handle_key(self, key: Key) -> (r: Composed)
        ensures
            composed(r) == pressed(self@, key),
    {
        let mut c = self;
        let ghost m = c@;
        let listing = c.focused == ComposeField::Recipients;
        match key {
            Key::Esc => {
                return Composed { state: None, request: None };
            },
            Key::Tab => {
                c.focused = if listing {
                    ComposeField::Message
                } else {
                    ComposeField::Recipients
                };
            },
            Key::Enter => {
                if !listing {
                    return c.send();
                }
                c.focused = ComposeField::Message;
            },
            Key::Up | Key::Char('k') => {
                if listing && c.list_cursor > 0 {
                    c.list_cursor = c.list_cursor - 1;
                    c.clamp_scroll();
                }
            },
            Key::Down | Key::Char('j') => {
                assert(m.workers.len() == c.workers@.len());
                if listing && c.list_cursor < c.workers.len() && c.list_cursor + 1
                    < c.workers.len() {
                    c.list_cursor = c.list_cursor + 1;
                    c.clamp_scroll();
                }
            },
            Key::Char(' ') => {
                if listing && c.list_cursor < c.selected.len() {
                    let cur: usize = c.list_cursor;
                    let was = c.selected[cur];
                    c.selected.set(cur, !was);
                }
            },
            Key::Char('a') => {
                if listing {
                    let open = has_false(&c.selected);
                    let n: usize = c.selected.len();
                    c.selected = all_of(open, n);
                    assert(c@.selected =~= Seq::new(
                        m.selected.len(),
                        |i: int| m.selected.contains(false),
                    ));
                }
            },
            Key::Char(ch) => {
                if !listing && !c.sending {
                    c.message.push(ch);
                }
            },
            Key::Backspace => {
                if !listing {
                    let v = text::chars_of(c.message.as_str());
                    if v.len() > 0 {
                        c.message = text::slice_of(&v, 0, v.len() - 1);
                        assert(c.message@ =~= m.message.drop_last());
                    }
                }
            },
            Key::Other => {},
        }
        assert(c@ =~= pressed(m, key).0->0);
        Composed { state: Some(c), request: None }
    }
}

fn has_false(v: &Vec<bool>) -> (r: bool)
    ensures
        r == v@.contains(false),
{
    let mut i: usize = 0;
    while i < v.len()
        invariant
            i <= v@.len(),
            forall|k: int| 0 <= k < i ==> #[trigger] v@[k],
        decreases v@.len() - i,
    {
        if !v[i] {
            assert(v@[i as int] == false);
            return true;
        }
        i += 1;
    }
    false
}

fn all_of(b: bool, n: usize) -> (r: Vec<bool>)
    ensures
        r@ == Seq::new(n as nat, |i: int| b),
{
    let mut r: Vec<bool> = Vec::new();
    let mut i: usize = 0;
    while i < n
        invariant
            i <= n,
            r@.len() == i,
            forall|k: int| 0 <= k < i ==> #[trigger] r@[k] == b,
        decreases n - i,
    {
        r.push(b);
        i += 1;
    }
    assert(r@ =~= Seq::new(n as nat, |i: int| b));
    r
}

/// Remembers whom somebody last wrote to: the first one.
pub fn remember_recipient(state: &mut ReadState, me: &str, request: &SendRequest)
    requires
        request.recipients@.len() > 0,
    ensures
        table::text_in(final(state).last_compose_recipient@, me@) == Some(
            request.recipients@[0]@,
        ),
        forall|other: Seq<char>|
            other != me@ ==> #[trigger] table::text_in(
                final(state).last_compose_recipient@,
                other,
            ) == table::text_in(old(state).last_compose_recipient@, other),
        final(state).last_read == old(state).last_read,
        final(state).roles == old(state).roles,
        final(state).replied == old(state).replied,
{
    table::set_text(&mut state.last_compose_recipient, me, request.recipients[0].as_str());
}

/// What is shown when a message could not be sent to somebody.
pub fn send_failure(recipient: &str, why: &str) -> (r: String)
    ensures
        r@ == "Failed sending to @"@ + recipient@ + ": "@ + why@,
{
    let mut r = text::glue3("Failed sending to @", recipient, ": ");
    r.append(why);
    r
}

/// What sending to one of the recipients came to: the hash of the message, or what went wrong.
pub type Outcome = Result<String, String>;

/// The model of the outcomes.
pub open spec fn outcomes(v: Seq<Outcome>) -> Seq<Result<Seq<char>, Seq<char>>> {
    Seq::new(
        v.len(),
        |i: int|
            match v[i] {
                Ok(h) => Ok(h@),
                Err(e) => Err(e@),
            },
    )
}

/// Where the first thing went wrong.
pub open spec fn first_failure(v: Seq<Result<Seq<char>, Seq<char>>>) -> Option<int>
    decreases v.len(),
{
    if v.len() == 0 {
        None
    } else {
        match first_failure(v.drop_last()) {
            Some(i) => Some(i),
            None => if v.last() is Err {
                Some(v.len() - 1)
            } else {
                None
            },
        }
    }
}

/// What is done next when one message goes to several.
pub enum SendStep {
    /// It is sent to the recipient at this place.
    To(usize),
    /// It stops here.
    Failed(String),
    /// Everybody got it; the hash of the first message comes back.
    Done(String),
}

/// The model of a [`SendStep`].
#[verifier::ext_equal]
pub enum StepModel {
    To(int),
    Failed(Seq<char>),
    Done(Seq<char>),
}

impl View for SendStep {
    type V = StepModel;

    open spec fn view(&self) -> StepModel {
        match self {
            SendStep::To(i) => StepModel::To(*i as int),
            SendStep::Failed(m) => StepModel::Failed(m@),
            SendStep::Done(h) => StepModel::Done(h@),
        }
    }
}

/// What is done next, given what has come of the recipients so far, in their order: nothing more
/// behind the first failure.
pub open spec fn next_send(
    recipients: Seq<Seq<char>>,
    done: Seq<Result<Seq<char>, Seq<char>>>,
) -> StepModel {
    match first_failure(done) {
        Some(i) => StepModel::Failed(
            "Failed sending to @"@ + recipients[i] + ": "@ + done[i]->Err_0,
        ),
        None => if done.len() < recipients.len() {
            StepModel::To(done.len() as int)
        } else if done.len() == 0 {
            StepModel::Done(Seq::empty())
        } else {
            StepModel::Done(done[0]->Ok_0)
        },
    }
}

proof fn first_failure_stays(v: Seq<Result<Seq<char>, Seq<char>>>, n: int)
    requires
        0 <= n <= v.len(),
        first_failure(v.take(n)) is Some,
    ensures
        first_failure(v) == first_failure(v.take(n)),
    decreases v.len() - n,
{
    if n < v.len() {
        assert(v.take(n + 1).drop_last() =~= v.take(n));
        first_failure_stays(v, n + 1);
    } else {
        assert(v.take(n) =~= v);
    }
}

/// Decides what is done next when one message goes to several, given what has come of the first of
/// them.
pub fn send_step(request: &SendRequest, done: &Vec<Outcome>) -> (r: SendStep)
    requires
        done@.len() <= request.recipients@.len(),
    ensures
        r@ == next_send(request@.recipients, outcomes(done@)),
{
    let ghost all = outcomes(done@);
    let mut i: usize = 0;
    assert(all.take(0) =~= Seq::<Result<Seq<char>, Seq<char>>>::empty());
    while i < done.len()
        invariant
            i <= done@.len() <= request.recipients@.len(),
            all == outcomes(done@),
            first_failure(all.take(i as int)) is None,
        decreases done@.len() - i,
    {
        assert(all.take(i + 1).drop_last() =~= all.take(i as int));
        assert(all.take(i + 1).last() == all[i as int]);
        if let Err(e) = &done[i] {
            proof {
                first_failure_stays(all, i + 1);
            }
            assert(request@.recipients[i as int] == request.recipients@[i as int]@);
            return SendStep::Failed(send_failure(request.recipients[i].as_str(), e.as_str()));
        }
        i += 1;
    }
    assert(all.take(i as int) =~= all);
    if done.len() < request.recipients.len() {
        return SendStep::To(done.len());
    }
    if done.len() == 0 {
        let none = String::new();
        assert(none@ =~= Seq::<char>::empty());
        return SendStep::Done(none);
    }
    proof {
        no_failure(all, 0);
    }
    match &done[0] {
        Ok(h) => SendStep::Done(h.clone()),
        Err(e) => SendStep::Failed(e.clone()),
    }
}

proof fn no_failure(v: Seq<Result<Seq<char>, Seq<char>>>, i: int)
    requires
        first_failure(v) is None,
        0 <= i < v.len(),
    ensures
        v[i] is Ok,
    decreases v.len(),
{
    if i < v.len() - 1 {
        no_failure(v.drop_last(), i);
        assert(v.drop_last()[i] == v[i]);
    }
}

/// Nobody behind a recipient who could not be reached is sent to, and everybody is where each of
/// them can be.
pub proof fn sending_ends_at_the_first_failure(
    recipients: Seq<Seq<char>>,
    done: Seq<Result<Seq<char>, Seq<char>>>,
    why: Seq<char>,
)
    requires
        done.len() < recipients.len(),
        forall|i: int| 0 <= i < done.len() ==> (#[trigger] done[i]) is Ok,
    ensures
        next_send(recipients, done) == StepModel::To(done.len() as int),
        next_send(recipients, done.push(Err(why))) is Failed,
{
    all_went_well(done);
    assert(done.push(Err(why)).drop_last() =~= done);
}

proof fn all_went_well(v: Seq<Result<Seq<char>, Seq<char>>>)
    requires
        forall|i: int| 0 <= i < v.len() ==> (#[trigger] v[i]) is Ok,
    ensures
        first_failure(v) is None,
    decreases v.len(),
{
    if v.len() > 0 {
        assert forall|i: int| 0 <= i < v.drop_last().len() implies (
        #[trigger] v.drop_last()[i]) is Ok by {
            assert(v.drop_last()[i] == v[i]);
        }
        all_went_well(v.drop_last());
    }
}

// ── The screen ──────────────────────────────────────────────────────────────
/// The model of a message.
#[verifier::ext_equal]
pub struct Note {
    pub hash: Seq<char>,
    pub sender: Seq<char>,
    pub recipient: Seq<char>,
    pub content: Seq<char>,
    pub refs: Seq<Seq<char>>,
    pub timestamp: Timestamp,
}

/// The model of a message.
pub open spec fn note(m: Message) -> Note {
    Note {
        hash: m.hash@,
        sender: m.sender@,
        recipient: m.recipient@,
        content: m.content@,
        refs: text::texts(m.refs@),
        timestamp: m.timestamp,
    }
}

/// The models of messages.
pub open spec fn notes(v: Seq<Message>) -> Seq<Note> {
    Seq::new(v.len(), |i: int| note(v[i]))
}

/// What the screen shows.
pub struct MonitorScreen {
    pub server: String,
    pub instance_id: String,
    pub workers: Vec<WorkerInfo>,
    /// The oldest first.
    pub messages: Vec<Message>,
    /// The message that is selected, counted from the newest.
    pub msg_cursor: usize,
    /// The first message that is shown, counted from the newest.
    pub msg_scroll: usize,
    pub error: Option<String>,
    pub status_msg: Option<String>,
    /// The row of the screen where the messages begin; zero before anything was shown.
    pub msg_data_start_y: u16,
    /// The message that was clicked last.
    pub last_click: Option<usize>,
    pub compose: Option<ComposeState>,
}

/// The model of a [`MonitorScreen`].
#[verifier::ext_equal]
pub struct ScreenModel {
    pub server: Seq<char>,
    pub me: Seq<char>,
    pub workers: Seq<Who>,
    pub messages: Seq<Note>,
    pub cursor: nat,
    pub scroll: nat,
    pub error: Option<Seq<char>>,
    pub status: Option<Seq<char>>,
    pub data_y: u16,
    pub last_click: Option<usize>,
    pub compose: Option<ComposeModel>,
}

impl View for MonitorScreen {
    type V = ScreenModel;

    open spec fn view(&self) -> ScreenModel {
        ScreenModel {
            server: self.server@,
            me: self.instance_id@,
            workers: whos(self.workers@),
            messages: notes(self.messages@),
            cursor: self.msg_cursor as nat,
            scroll: self.msg_scroll as nat,
            error: text::opt_text(self.error),
            status: text::opt_text(self.status_msg),
            data_y: self.msg_data_start_y,
            last_click: self.last_click,
            compose: match self.compose {
                Some(c) => Some(c@),
                None => None,
            },
        }
    }
}

/// A screen before anything was fetched.
pub open spec fn blank(server: Seq<char>, me: Seq<char>) -> ScreenModel {
    ScreenModel {
        server,
        me,
        workers: Seq::empty(),
        messages: Seq::empty(),
        cursor: 0,
        scroll: 0,
        error: None,
        status: None,
        data_y: 0,
        last_click: None,
        compose: None,
    }
}

/// What somebody wants to do.
#[derive(Clone, Copy, PartialEq, Eq, Structural, Debug)]
pub enum Action {
    Quit,
    Refresh,
    CursorUp,
    CursorDown,
    ViewMessage,
    Compose,
    Reply,
}

/// What the caller has to do.
#[derive(Clone, Copy, PartialEq, Eq, Structural, Debug)]
pub enum Effect {
    Nothing,
    Quit,
    Fetch,
    /// Show the message at this index, counted from the oldest.
    View(usize),
}

/// The index, from the oldest, of the message that is selected.
pub open spec fn chosen(s: ScreenModel) -> Option<int> {
    let len = s.messages.len();
    if len == 0 {
        None
    } else if s.cursor + 1 > len {
        Some(0)
    } else {
        Some(len - 1 - s.cursor)
    }
}

/// The workers other than `me`.
pub open spec fn others(v: Seq<Who>, me: Seq<char>) -> Seq<Who>
    decreases v.len(),
{
    if v.len() == 0 {
        Seq::empty()
    } else if v.last().id != me {
        others(v.drop_last(), me).push(v.last())
    } else {
        others(v.drop_last(), me)
    }
}

/// What somebody is told who has nobody to write to.
pub const NOBODY_ELSE: &'static str = "No other workers online \u{2014} press r to refresh";

/// With a message begun to everybody else, or as a reply to one of them.
pub open spec fn composing(
    s: ScreenModel,
    reply_hash: Option<Seq<char>>,
    reply_to: Option<Seq<char>>,
) -> ScreenModel {
    let o = others(s.workers, s.me);
    if o.len() == 0 {
        ScreenModel { status: Some(NOBODY_ELSE@), ..s }
    } else {
        ScreenModel {
            status: None,
            compose: Some(
                begun(
                    o,
                    Seq::new(
                        o.len(),
                        |i: int|
                            match reply_to {
                                Some(id) => o[i].id == id,
                                None => true,
                            },
                    ),
                    reply_hash,
                ),
            ),
            ..s
        }
    }
}

/// With a reply begun to the message that is selected, where somebody else sent it.
pub open spec fn replying(s: ScreenModel) -> ScreenModel {
    match chosen(s) {
        Some(i) => if s.messages[i].sender == s.me {
            s
        } else {
            composing(s, Some(s.messages[i].hash), Some(s.messages[i].sender))
        },
        None => s,
    }
}

/// What an action does to the screen.
pub open spec fn acted(s: ScreenModel, a: Action) -> ScreenModel {
    match a {
        Action::CursorUp => if s.cursor > 0 {
            ScreenModel { cursor: (s.cursor - 1) as nat, ..s }
        } else {
            s
        },
        Action::CursorDown => if s.cursor + 1 < s.messages.len() {
            ScreenModel { cursor: s.cursor + 1, ..s }
        } else {
            s
        },
        Action::Compose => composing(s, None, None),
        Action::Reply => replying(s),
        _ => s,
    }
}

/// What an action asks of the caller.
pub open spec fn asked(s: ScreenModel, a: Action) -> Effect {
    match a {
        Action::Quit => Effect::Quit,
        Action::Refresh => Effect::Fetch,
        Action::ViewMessage => match chosen(s) {
            Some(i) => Effect::View(i as usize),
            None => Effect::Nothing,
        },
        _ => Effect::Nothing,
    }
}

/// The screen behind a fetch that succeeded: the cursor stays on a message where there is one.
pub open spec fn fetched(s: ScreenModel, workers: Seq<Who>, messages: Seq<Note>) -> ScreenModel {
    ScreenModel {
        workers,
        messages,
        error: None,
        cursor: if messages.len() > 0 && s.cursor >= messages.len() {
            (messages.len() - 1) as nat
        } else {
            s.cursor
        },
        ..s
    }
}

/// The screen behind the sending of a message.
pub open spec fn delivered(s: ScreenModel, failure: Option<Seq<char>>) -> ScreenModel {
    ScreenModel {
        compose: match s.compose {
            Some(c) => match failure {
                Some(e) => Some(ComposeModel { sending: false, error: Some(e), ..c }),
                None => None,
            },
            None => None,
        },
        ..s
    }
}

/// Two clicks on one message within so many milliseconds open it.
pub const DOUBLE_CLICK_MS: u64 = 400;

/// The message that a row of the screen shows, counted from the newest.
pub open spec fn clicked(s: ScreenModel, row: u16) -> Option<int> {
    if s.data_y > 0 && row >= s.data_y && s.scroll + (row - s.data_y) < s.messages.len() {
        Some(s.scroll + (row - s.data_y))
    } else {
        None
    }
}

impl MonitorScreen {
    /// A screen before anything was fetched.
    pub fn new(server: String, instance_id: String) -> (s: MonitorScreen)
        ensures
            s@ == blank(server@, instance_id@),
    {
        let s = MonitorScreen {
            server,
            instance_id,
            workers: Vec::new(),
            messages: Vec::new(),
            msg_cursor: 0,
            msg_scroll: 0,
            error: None,
            status_msg: None,
            msg_data_start_y: 0,
            last_click: None,
            compose: None,
        };
        assert(s@ =~= blank(server@, instance_id@));
        s
    }

    fn chosen_index(&self) -> (r: Option<usize>)
        ensures
            (match r {
                Some(i) => Some(i as int),
                None => None,
            }) == chosen(self@),
            r matches Some(i) ==> i < self.messages@.len(),
    {
        let len: usize = self.messages.len();
        if len == 0 {
            None
        } else if self.msg_cursor >= len {
            Some(0)
        } else {
            Some(len - 1 - self.msg_cursor)
        }
    }

    /// Begins a message to everybody else, or a reply to one of them.
    pub fn open_compose(&mut self, reply_hash: Option<String>, reply_to: Option<String>)
        ensures
            final(self)@ == composing(
                old(self)@,
                text::opt_text(reply_hash),
                text::opt_text(reply_to),
            ),
    {
        let ghost s = self@;
        let ghost all = s.workers;
        let ghost to = text::opt_text(reply_to);
        let mut rest: Vec<WorkerInfo> = Vec::new();
        let mut selected: Vec<bool> = Vec::new();
        let mut i: usize = 0;
        assert(whos(rest@) =~= others(all.take(0), s.me));
        while i < self.workers.len()
            invariant
                i <= self.workers@.len(),
                self@ == s,
                *self == *old(self),
                all == s.workers,
                to == text::opt_text(reply_to),
                whos(rest@) == others(all.take(i as int), s.me),
                selected@.len() == rest@.len(),
                forall|k: int|
                    0 <= k < rest@.len() ==> #[trigger] selected@[k] == (match to {
                        Some(id) => rest@[k].instance_id@ == id,
                        None => true,
                    }),
            decreases self.workers@.len() - i,
        {
            assert(all.take(i + 1).drop_last() =~= all.take(i as int));
            let w = &self.workers[i];
            assert(all.take(i + 1).last() == who(*w));
            if !text::same(w.instance_id.as_str(), self.instance_id.as_str()) {
                let ghost before = rest@;
                let wanted = match &reply_to {
                    Some(id) => text::same(w.instance_id.as_str(), id.as_str()),
                    None => true,
                };
                let copy = copy_worker(w);
                assert(copy.instance_id@ == w.instance_id@);
                rest.push(copy);
                selected.push(wanted);
                assert(whos(rest@) =~= whos(before).push(who(*w)));
            }
            i += 1;
        }
        assert(all.take(i as int) =~= all);
        let ghost o = others(all, s.me);
        assert(o.len() == rest@.len());
        if rest.len() == 0 {
            self.status_msg = Some(NOBODY_ELSE.to_owned());
            assert(self@ =~= composing(s, text::opt_text(reply_hash), to));
            return ;
        }
        assert forall|k: int| 0 <= k < o.len() implies o[k].id == rest@[k].instance_id@ by {
            assert(whos(rest@)[k] == who(rest@[k]));
        }
        assert(selected@ =~= Seq::new(
            o.len(),
            |i: int|
                match to {
                    Some(id) => o[i].id == id,
                    None => true,
                },
        ));
        self.status_msg = None;
        self.compose = Some(ComposeState::new(rest, selected, reply_hash));
        assert(self@ =~= composing(s, text::opt_text(reply_hash), to));
    }

    /// Begins a reply to the message that is selected.
    pub fn open_reply(&mut self)
        ensures
            final(self)@ == replying(old(self)@),
    {
        if let Some(i) = self.chosen_index() {
            let m = &self.messages[i];
            assert(self@.messages[i as int] == note(*m));
            if !text::same(m.sender.as_str(), self.instance_id.as_str()) {
                let hash = m.hash.clone();
                let sender = m.sender.clone();
                self.open_compose(Some(hash), Some(sender));
            }
        }
    }

    /// Does what somebody wants.
    pub fn on_action(&mut self, a: Action) -> (e: Effect)
        ensures
            final(self)@ == acted(old(self)@, a),
            e == asked(old(self)@, a),
    {
        let ghost s = self@;
        assert(s.messages.len() == self.messages@.len());
        match a {
            Action::Quit => Effect::Quit,
            Action::Refresh => Effect::Fetch,
            Action::CursorUp => {
                if self.msg_cursor > 0 {
                    self.msg_cursor = self.msg_cursor - 1;
                }
                assert(self@ =~= acted(s, a));
                Effect::Nothing
            },
            Action::CursorDown => {
                if self.msg_cursor < self.messages.len() && self.msg_cursor + 1
                    < self.messages.len() {
                    self.msg_cursor = self.msg_cursor + 1;
                }
                assert(self@ =~= acted(s, a));
                Effect::Nothing
            },
            Action::ViewMessage => match self.chosen_index() {
                Some(i) => Effect::View(i),
                None => Effect::Nothing,
            },
            Action::Compose => {
                self.open_compose(None, None);
                Effect::Nothing
            },
            Action::Reply => {
                self.open_reply();
                Effect::Nothing
            },
        }
    }

    /// Takes in what was fetched, or why nothing was.
    pub fn on_fetched(&mut self, result: Result<(Vec<WorkerInfo>, Vec<Message>), String>)
        ensures
            final(self)@ == (match result {
                Ok(p) => fetched(old(self)@, whos(p.0@), notes(p.1@)),
                Err(e) => ScreenModel { error: Some(e@), ..old(self)@ },
            }),
    {
        let ghost s = self@;
        match result {
            Ok(p) => {
                self.workers = p.0;
                self.messages = p.1;
                self.error = None;
                let len: usize = self.messages.len();
                if len > 0 && self.msg_cursor >= len {
                    self.msg_cursor = len - 1;
                }
                assert(self@ =~= fetched(s, whos(p.0@), notes(p.1@)));
            },
            Err(e) => {
                self.error = Some(e);
                assert(self@ =~= (ScreenModel { error: Some(e@), ..s }));
            },
        }
    }

    /// Takes in how sending a message went.
    pub fn on_sent(&mut self, result: Result<String, String>)
        ensures
            final(self)@ == delivered(
                old(self)@,
                match result {
                    Ok(_) => None,
                    Err(e) => Some(e@),
                },
            ),
    {
        let ghost s = self@;
        let c = self.compose.take();
        if let Some(c) = c {
            let mut c = c;
            if let Err(e) = result {
                c.sending = false;
                c.error = Some(e);
                self.compose = Some(c);
            }
        }
        assert(self@ =~= delivered(
            s,
            match result {
                Ok(_) => None,
                Err(e) => Some(e@),
            },
        ));
    }

    /// Takes in a key while a message is being written.
    pub fn handle_compose_key(&mut self, key: Key) -> (r: Option<SendRequest>)
        ensures
            match old(self)@.compose {
                Some(c) => final(self)@ == (ScreenModel { compose: pressed(c, key).0, ..old(self)@ })
                    && (match r {
                    Some(q) => Some(q@),
                    None => None,
                }) == pressed(c, key).1,
                None => final(self)@ == old(self)@ && r is None,
            },
    {
        let ghost s = self@;
        let c = self.compose.take();
        match c {
            Some(c) => {
                let ghost m = c@;
                let done = c.handle_key(key);
                let ghost d = composed(done);
                self.compose = done.state;
                assert(self@ =~= (ScreenModel { compose: pressed(m, key).0, ..s }));
                done.request
            },
            None => {
                assert(self@ =~= s);
                None
            },
        }
    }

    /// Takes in a click on a row of the screen, `since` milliseconds after the one before. The
    /// result says whether a message was hit; two quick clicks on one message show it.
    pub fn on_click(&mut self, row: u16, since: Option<u64>) -> (r: (bool, Effect))
        ensures
            match clicked(old(self)@, row) {
                Some(i) => final(self)@ == (ScreenModel {
                    cursor: i as nat,
                    last_click: Some(i as usize),
                    ..old(self)@
                }) && r == (
                    true,
                    if old(self)@.last_click == Some(i as usize) && since is Some && since->0
                        < DOUBLE_CLICK_MS {
                        asked(final(self)@, Action::ViewMessage)
                    } else {
                        Effect::Nothing
                    },
                ),
                None => final(self)@ == old(self)@ && r == (false, Effect::Nothing),
            },
    {
        let ghost s = self@;
        assert(s.messages.len() == self.messages@.len());
        let data_y: u16 = self.msg_data_start_y;
        if data_y == 0 || row < data_y {
            return (false, Effect::Nothing);
        }
        let down: usize = (row - data_y) as usize;
        let len: usize = self.messages.len();
        if self.msg_scroll >= len || down >= len - self.msg_scroll {
            return (false, Effect::Nothing);
        }
        let i: usize = self.msg_scroll + down;
        let again = match self.last_click {
            Some(k) => k == i,
            None => false,
        };
        let quick = match since {
            Some(ms) => ms < DOUBLE_CLICK_MS,
            None => false,
        };
        self.last_click = Some(i);
        self.msg_cursor = i;
        assert(self@ =~= (ScreenModel { cursor: i as nat, last_click: Some(i), ..s }));
        if again && quick {
            match self.chosen_index() {
                Some(k) => (true, Effect::View(k)),
                None => (true, Effect::Nothing),
            }
        } else {
            (true, Effect::Nothing)
        }
    }
}

// ── One message ─────────────────────────────────────────────────────────────
/// How far a long message is scrolled.
pub struct Reader {
    pub scroll: usize,
    pub total_lines: usize,
    pub visible_rows: usize,
}

/// The last place that can be scrolled to.
pub open spec fn last_scroll(total: nat, visible: nat) -> nat {
    if total > visible {
        (total - visible) as nat
    } else {
        0
    }
}

impl Reader {
    /// At the beginning.
    pub fn new() -> (r: Reader)
        ensures
            r == (Reader { scroll: 0, total_lines: 0, visible_rows: 0 }),
    {
        Reader { scroll: 0, total_lines: 0, visible_rows: 0 }
    }

    /// One line back.
    pub fn scroll_up(&mut self)
        ensures
            *final(self) == (Reader {
                scroll: (if old(self).scroll > 0 {
                    old(self).scroll - 1
                } else {
                    0
                }) as usize,
                ..*old(self)
            }),
    {
        if self.scroll > 0 {
            self.scroll = self.scroll - 1;
        }
    }

    /// One line on, where there is more.
    pub fn scroll_down(&mut self)
        ensures
            *final(self) == (Reader {
                scroll: (if old(self).scroll + old(self).visible_rows < old(self).total_lines {
                    old(self).scroll + 1
                } else {
                    old(self).scroll as int
                }) as usize,
                ..*old(self)
            }),
    {
        if self.total_lines > self.visible_rows && self.scroll < self.total_lines
            - self.visible_rows {
            self.scroll = self.scroll + 1;
        }
    }

    /// One page back.
    pub fn page_up(&mut self)
        ensures
            *final(self) == (Reader {
                scroll: (if old(self).scroll > at_least_one(old(self).visible_rows as nat) {
                    old(self).scroll - at_least_one(old(self).visible_rows as nat)
                } else {
                    0
                }) as usize,
                ..*old(self)
            }),
    {
        let visible: usize = if self.visible_rows == 0 {
            1
        } else {
            self.visible_rows
        };
        self.scroll = if self.scroll > visible {
            self.scroll - visible
        } else {
            0
        };
    }

    /// One page on, but not beyond the end.
    pub fn page_down(&mut self)
        ensures
            *final(self) == (Reader {
                scroll: ({
                    let v = at_least_one(old(self).visible_rows as nat);
                    let last = last_scroll(old(self).total_lines as nat, v);
                    if old(self).scroll + v < last {
                        (old(self).scroll + v) as nat
                    } else {
                        last
                    }
                }) as usize,
                ..*old(self)
            }),
    {
        let visible: usize = if self.visible_rows == 0 {
            1
        } else {
            self.visible_rows
        };
        let last: usize = if self.total_lines > visible {
            self.total_lines - visible
        } else {
            0
        };
        self.scroll = if self.scroll < last && visible < last - self.scroll {
            self.scroll + visible
        } else {
            last
        };
    }

    /// Takes in how many lines there are and how many can be seen, and goes no further than the
    /// end.
    pub fn fit(&mut self, total: usize, visible: usize)
        ensures
            *final(self) == (Reader {
                scroll: (if old(self).scroll < last_scroll(total as nat, visible as nat) {
                    old(self).scroll as nat
                } else {
                    last_scroll(total as nat, visible as nat)
                }) as usize,
                total_lines: total,
                visible_rows: visible,
            }),
    {
        let last: usize = if total > visible {
            total - visible
        } else {
            0
        };
        if self.scroll > last {
            self.scroll = last;
        }
        self.total_lines = total;
        self.visible_rows = visible;
    }
}

// ── Laws ────────────────────────────────────────────────────────────────────
/// What is cut off or padded fills its cell exactly, and what is clipped never overflows it.
pub proof fn cells_are_filled(s: Seq<char>, n: nat)
    ensures
        fitted(s, n).len() == n,
        clipped(s, n).len() <= n,
        tail(s, n).len() <= n,
        s.len() <= n ==> clipped(s, n) == s || n == 0,
{
}

/// Every one of the texts has at most `width` characters.
pub open spec fn within(v: Seq<Seq<char>>, width: nat) -> bool {
    forall|i: int| 0 <= i < v.len() ==> (#[trigger] v[i]).len() <= width
}

proof fn both_within(a: Seq<Seq<char>>, b: Seq<Seq<char>>, width: nat)
    requires
        within(a, width),
        within(b, width),
    ensures
        within(a + b, width),
{
    assert forall|i: int| 0 <= i < (a + b).len() implies (#[trigger] (a + b)[i]).len() <= width by {
        if i < a.len() {
            assert((a + b)[i] == a[i]);
        } else {
            assert((a + b)[i] == b[i - a.len()]);
        }
    }
}

proof fn chunks_fit(w: Seq<char>, width: nat)
    requires
        width > 0,
    ensures
        within(chunks(w, width), width),
    decreases w.len(),
{
    if w.len() > width {
        chunks_fit(w.skip(width as int), width);
        both_within(seq![w.take(width as int)], chunks(w.skip(width as int), width), width);
    }
}

proof fn broken_fits(words: Seq<Seq<char>>, width: nat)
    requires
        width > 0,
    ensures
        within(broken(words, width), width),
    decreases words.len(),
{
    if words.len() > 0 {
        broken_fits(words.drop_last(), width);
        chunks_fit(words.last(), width);
        both_within(broken(words.drop_last(), width), chunks(words.last(), width), width);
    }
}

proof fn filled_fits(words: Seq<Seq<char>>, current: Seq<char>, width: nat)
    requires
        current.len() <= width,
        within(words, width),
    ensures
        within(filled(words, current, width), width),
    decreases words.len(),
{
    if words.len() > 0 {
        let w = words[0];
        let rest = words.drop_first();
        assert forall|i: int| 0 <= i < rest.len() implies (#[trigger] rest[i]).len() <= width by {
            assert(rest[i] == words[i + 1]);
        }
        if current.len() == 0 {
            filled_fits(rest, w, width);
        } else if current.len() + 1 + w.len() <= width {
            filled_fits(rest, current + seq![' '] + w, width);
        } else {
            filled_fits(rest, w, width);
            both_within(seq![current], filled(rest, w, width), width);
        }
    }
}

proof fn paragraphs_fit(ps: Seq<Seq<char>>, width: nat)
    requires
        width > 0,
    ensures
        within(paragraphs(ps, width), width),
    decreases ps.len(),
{
    if ps.len() > 0 {
        paragraphs_fit(ps.drop_last(), width);
        broken_fits(text::words_of(ps.last()), width);
        filled_fits(broken(text::words_of(ps.last()), width), Seq::empty(), width);
        both_within(paragraphs(ps.drop_last(), width), paragraph(ps.last(), width), width);
    }
}

/// No line of a wrapped text is longer than the width.
pub proof fn lines_fit(s: Seq<char>, width: nat)
    ensures
        within(wrapped(s, width), width),
{
    if width > 0 {
        paragraphs_fit(text::pieces(s, '\n'), width);
    }
}

/// The pieces of a word that is longer than a line make up the word again, and every one but the
/// last fills a line, so that nothing is joined to it.
pub proof fn pieces_rejoin(w: Seq<char>, width: nat)
    requires
        width > 0,
    ensures
        chunks(w, width).len() > 0,
        chunks(w, width).flatten() == w,
        forall|i: int|
            0 <= i < chunks(w, width).len() - 1 ==> (#[trigger] chunks(w, width)[i]).len() == width,
    decreases w.len(),
{
    let all = chunks(w, width);
    reveal_with_fuel(Seq::<Seq<char>>::flatten, 2);
    if w.len() > width {
        let rest = chunks(w.skip(width as int), width);
        pieces_rejoin(w.skip(width as int), width);
        assert(all.drop_first() =~= rest);
        assert(w.take(width as int) + w.skip(width as int) =~= w);
        assert forall|i: int| 0 <= i < all.len() - 1 implies (#[trigger] all[i]).len() == width by {
            if i > 0 {
                assert(all[i] == rest[i - 1]);
            }
        }
    } else {
        assert(all.drop_first() =~= Seq::<Seq<char>>::empty());
        assert(w + Seq::<char>::empty() =~= w);
    }
}

/// Nobody else sent fewer messages than the one that is found, and it is not oneself.
pub proof fn least_is_least(v: Seq<Who>, me: Seq<char>)
    ensures
        least(v, me) is None <==> forall|i: int| 0 <= i < v.len() ==> (#[trigger] v[i]).id == me,
        least(v, me) matches Some(b) ==> 0 <= b < v.len() && v[b].id != me && forall|i: int|
            0 <= i < v.len() && (#[trigger] v[i]).id != me ==> v[b].count <= v[i].count,
    decreases v.len(),
{
    if v.len() > 0 {
        let init = v.drop_last();
        least_is_least(init, me);
        least_bound(init, me);
        match least(init, me) {
            None => {
                assert forall|i: int| 0 <= i < v.len() - 1 implies (#[trigger] v[i]).id == me by {
                    assert(init[i].id == me);
                }
            },
            Some(b) => {
                assert(init[b] == v[b]);
                assert forall|i: int| 0 <= i < v.len() - 1 && (#[trigger] v[i]).id != me implies v[b].count
                    <= v[i].count by {
                    assert(init[i] == v[i]);
                }
            },
        }
    }
}

/// Behind a step the cursor of the list can be seen.
pub proof fn the_cursor_stays_in_view(c: ComposeModel, cursor: nat)
    ensures
        moved(c, cursor).scroll <= cursor < moved(c, cursor).scroll + at_least_one(c.visible),
{
}

/// The state of a message being written: a mark for each worker, and the cursor on one of them.
pub open spec fn compose_wf(c: ComposeModel) -> bool {
    &&& c.selected.len() == c.workers.len()
    &&& c.cursor < c.workers.len()
}

/// No key takes the cursor off the list, or the marks apart from the workers.
pub proof fn keys_keep_the_list(c: ComposeModel, key: Key)
    requires
        compose_wf(c),
    ensures
        pressed(c, key).0 matches Some(d) ==> compose_wf(d) && d.workers == c.workers,
{
}

/// What is sent has a text and goes to workers on the list that are marked, and to all of those.
pub proof fn requests_are_sound(c: ComposeModel, key: Key, name: Seq<char>)
    requires
        pressed(c, key).1 is Some,
    ensures
        pressed(c, key).1->0.message.len() > 0,
        pressed(c, key).1->0.recipients.len() > 0,
        pressed(c, key).1->0.recipients.contains(name) <==> exists|i: int|
            0 <= i < c.workers.len() && i < c.selected.len() && c.selected[i] && (
            #[trigger] c.workers[i]).id == name,
        pressed(c, key).0 matches Some(d) && d.sending,
{
    picked_meaning(c.workers, c.selected, name);
}

proof fn picked_meaning(workers: Seq<Who>, selected: Seq<bool>, name: Seq<char>)
    ensures
        picked(workers, selected).contains(name) <==> exists|i: int|
            0 <= i < workers.len() && i < selected.len() && selected[i] && (
            #[trigger] workers[i]).id == name,
    decreases workers.len(),
{
    if workers.len() > 0 {
        let init = workers.drop_last();
        let n = workers.len() - 1;
        let r = picked(init, selected);
        let all = picked(workers, selected);
        picked_meaning(init, selected, name);
        if all.contains(name) {
            let k = choose|k: int| 0 <= k < all.len() && all[k] == name;
            if k < r.len() {
                assert(r[k] == name);
                let i = choose|i: int|
                    0 <= i < init.len() && i < selected.len() && selected[i] && (
                    #[trigger] init[i]).id == name;
                assert(workers[i].id == name);
            } else {
                assert(workers[n].id == name);
            }
        }
        if exists|i: int|
            0 <= i < workers.len() && i < selected.len() && selected[i] && (
            #[trigger] workers[i]).id == name {
            let i = choose|i: int|
                0 <= i < workers.len() && i < selected.len() && selected[i] && (
                #[trigger] workers[i]).id == name;
            if i < n {
                assert(init[i].id == name);
                let k = choose|k: int| 0 <= k < r.len() && r[k] == name;
                assert(all[k] == name);
            } else {
                assert(all[r.len() as int] == name);
            }
        }
    }
}

/// A mark that is set twice is as it was.
pub proof fn marks_toggle(c: ComposeModel)
    requires
        c.focused == ComposeField::Recipients,
        c.cursor < c.selected.len(),
    ensures
        pressed(c, Key::Char(' ')).0 matches Some(d) && pressed(d, Key::Char(' ')).0 == Some(c),
{
    let d = pressed(c, Key::Char(' ')).0->0;
    assert(d.selected.update(c.cursor as int, !d.selected[c.cursor as int]) =~= c.selected);
}

/// The cursor of the screen never points beyond the messages once it is on one of them.
pub proof fn the_selection_stays(s: ScreenModel, a: Action, workers: Seq<Who>, messages: Seq<Note>)
    ensures
        s.cursor < s.messages.len() ==> acted(s, a).cursor < acted(s, a).messages.len(),
        messages.len() > 0 ==> fetched(s, workers, messages).cursor < messages.len(),
{
}

/// Words are broken one by one, in order.
pub proof fn each_word_is_broken_alone(
    a: Seq<Seq<char>>,
    b: Seq<Seq<char>>,
    x: Seq<char>,
    width: nat,
)
    ensures
        broken(a + b, width) == broken(a, width) + broken(b, width),
        broken(seq![x], width) == (chunks(x, width)),
    decreases b.len(),
{
    let one = seq![x];
    assert(one.drop_last() =~= Seq::<Seq<char>>::empty());
    assert(broken(one.drop_last(), width).len() == 0);
    assert(broken(one, width) =~= (chunks(x, width)));
    if b.len() == 0 {
        assert(a + b =~= a);
        assert(broken(a, width) + broken(b, width) =~= broken(a, width));
    } else {
        each_word_is_broken_alone(a, b.drop_last(), x, width);
        assert((a + b).drop_last() =~= a + b.drop_last());
        assert((a + b).last() == b.last());
        assert(broken(a + b, width) =~= broken(a, width) + broken(b, width));
    }
}

/// Paragraphs are wrapped one by one, in order.
pub proof fn each_paragraph_is_wrapped_alone(
    a: Seq<Seq<char>>,
    b: Seq<Seq<char>>,
    x: Seq<char>,
    width: nat,
)
    ensures
        paragraphs(a + b, width) == paragraphs(a, width) + paragraphs(b, width),
        paragraphs(seq![x], width) == (paragraph(x, width)),
    decreases b.len(),
{
    let one = seq![x];
    assert(one.drop_last() =~= Seq::<Seq<char>>::empty());
    assert(paragraphs(one.drop_last(), width).len() == 0);
    assert(paragraphs(one, width) =~= (paragraph(x, width)));
    if b.len() == 0 {
        assert(a + b =~= a);
        assert(paragraphs(a, width) + paragraphs(b, width) =~= paragraphs(a, width));
    } else {
        each_paragraph_is_wrapped_alone(a, b.drop_last(), x, width);
        assert((a + b).drop_last() =~= a + b.drop_last());
        assert((a + b).last() == b.last());
        assert(paragraphs(a + b, width) =~= paragraphs(a, width) + paragraphs(b, width));
    }
}

/// The rank of a name is how many names come before it.
pub proof fn each_smaller_name_counts(a: Seq<Who>, b: Seq<Who>, x: Who, name: Seq<char>)
    ensures
        rank(a + b, name) == rank(a, name) + rank(b, name),
        rank(seq![x], name) == (if text::before(x.id, name) {
            1nat
        } else {
            0nat
        }),
    decreases b.len(),
{
    let one = seq![x];
    assert(one.drop_last() =~= Seq::<Who>::empty());
    assert(rank(one.drop_last(), name) == 0);
    if b.len() == 0 {
        assert(a + b =~= a);
    } else {
        each_smaller_name_counts(a, b.drop_last(), x, name);
        assert((a + b).drop_last() =~= a + b.drop_last());
        assert((a + b).last() == b.last());
    }
}

/// Everybody but oneself may be written to, in the order of the roster.
pub proof fn each_other_worker_is_offered(a: Seq<Who>, b: Seq<Who>, x: Who, me: Seq<char>)
    ensures
        others(a + b, me) == others(a, me) + others(b, me),
        others(seq![x], me) == (if x.id == me {
            Seq::empty()
        } else {
            seq![x]
        }),
    decreases b.len(),
{
    let one = seq![x];
    assert(one.drop_last() =~= Seq::<Who>::empty());
    assert(others(one.drop_last(), me).len() == 0);
    assert(others(one, me) =~= (if x.id == me {
            Seq::empty()
        } else {
            seq![x]
        }));
    if b.len() == 0 {
        assert(a + b =~= a);
        assert(others(a, me) + others(b, me) =~= others(a, me));
    } else {
        each_other_worker_is_offered(a, b.drop_last(), x, me);
        assert((a + b).drop_last() =~= a + b.drop_last());
        assert((a + b).last() == b.last());
        assert(others(a + b, me) =~= others(a, me) + others(b, me));
    }
}

/// What is cut keeps its front, with an ellipsis for what was cut; a tail keeps its end; a cell keeps
/// its front and is filled up with blanks.
pub proof fn cuts_are_exact(s: Seq<char>, n: nat)
    ensures
        0 < n < s.len() ==> clipped(s, n) == s.take(n - 1).push('\u{2026}'),
        s.len() <= n ==> clipped(s, n) == s && front(s, n) == s && tail(s, n) == s,
        n < s.len() ==> front(s, n) == s.take(n as int) && tail(s, n) == s.skip(s.len() - n)
            && fitted(s, n) == s.take(n as int),
        s.len() <= n ==> s.is_prefix_of(fitted(s, n)),
        forall|i: int| s.len() <= i < n ==> #[trigger] fitted(s, n)[i] == ' ',
        clipped(s, 0).len() == 0,
{
    if s.len() <= n {
        assert(s =~= fitted(s, n).subrange(0, s.len() as int));
        if n == 0 {
            assert(s =~= Seq::<char>::empty());
        }
    }
}

proof fn filled_joins(words: Seq<Seq<char>>, current: Seq<char>, width: nat)
    requires
        current.len() > 0,
        forall|i: int| 0 <= i < words.len() ==> (#[trigger] words[i]).len() > 0,
    ensures
        filled(words, current, width).len() > 0,
        text::joined(filled(words, current, width), seq![' ']) == text::joined(
            seq![current] + words,
            seq![' '],
        ),
    decreases words.len(),
{
    let sp = seq![' '];
    let all = seq![current] + words;
    if words.len() == 0 {
        assert(all =~= seq![current]);
    } else {
        let w = words[0];
        let rest = words.drop_first();
        assert forall|i: int| 0 <= i < rest.len() implies (#[trigger] rest[i]).len() > 0 by {
            assert(rest[i] == words[i + 1]);
        }
        assert(w.len() > 0);
        text::joined_from_the_front(all, sp);
        assert(all.drop_first() =~= words);
        assert(words =~= seq![w] + rest);
        if current.len() + 1 + w.len() <= width {
            let both = current + sp + w;
            filled_joins(rest, both, width);
            let one = seq![both] + rest;
            if rest.len() == 0 {
                assert(one =~= seq![both]);
                assert(words =~= seq![w]);
                assert(text::joined(words, sp) == w);
            } else {
                text::joined_from_the_front(one, sp);
                assert(one.drop_first() =~= rest);
                text::joined_from_the_front(words, sp);
                assert(words.drop_first() =~= rest);
                let j = text::joined(rest, sp);
                assert(current + sp + (w + sp + j) =~= both + sp + j);
            }
        } else {
            filled_joins(rest, w, width);
            let more = filled(rest, w, width);
            let r = seq![current] + more;
            text::joined_from_the_front(r, sp);
            assert(r.drop_first() =~= more);
        }
    }
}

/// Wrapping loses no word and keeps their order: the lines joined with blanks are the words joined
/// with blanks.
pub proof fn wrapping_loses_nothing(words: Seq<Seq<char>>, width: nat)
    requires
        forall|i: int| 0 <= i < words.len() ==> (#[trigger] words[i]).len() > 0,
    ensures
        text::joined(filled(words, Seq::empty(), width), seq![' ']) == text::joined(
            words,
            seq![' '],
        ),
        words.len() == 0 ==> filled(words, Seq::empty(), width).len() == 0,
{
    if words.len() > 0 {
        let w = words[0];
        let rest = words.drop_first();
        assert(w.len() > 0);
        assert forall|i: int| 0 <= i < rest.len() implies (#[trigger] rest[i]).len() > 0 by {
            assert(rest[i] == words[i + 1]);
        }
        filled_joins(rest, w, width);
        assert(seq![w] + rest =~= words);
    }
}

/// A line is broken only where the next word does not fit any more.
pub proof fn lines_are_full(words: Seq<Seq<char>>, current: Seq<char>, w: Seq<char>, width: nat)
    requires
        current.len() > 0,
    ensures
        current.len() + 1 + w.len() <= width ==> filled(seq![w] + words, current, width) == filled(
            words,
            current + seq![' '] + w,
            width,
        ),
        current.len() + 1 + w.len() > width ==> filled(seq![w] + words, current, width) == seq![
            current,
        ] + filled(words, w, width),
        filled(Seq::empty(), current, width) == seq![current],
{
    let all = seq![w] + words;
    assert(all[0] == w);
    assert(all.drop_first() =~= words);
}

/// A text is wrapped paragraph by paragraph; an empty one stays an empty line, and to no width
/// nothing is shown.
pub proof fn texts_are_wrapped_by_paragraph(a: Seq<char>, b: Seq<char>, width: nat)
    requires
        width > 0,
        forall|i: int| 0 <= i < a.len() ==> a[i] != '\n',
    ensures
        wrapped(a + seq!['\n'] + b, width) == paragraph(a, width) + wrapped(b, width),
        wrapped(a, width) == paragraph(a, width),
        paragraph(Seq::empty(), width) == seq![Seq::<char>::empty()],
        wrapped(a, 0).len() == 0,
{
    let s = a + seq!['\n'] + b;
    text::cuts_are_exact(a, '\n', b);
    text::char_at_meaning(s, '\n');
    text::char_at_meaning(a, '\n');
    let k = text::char_at(s, '\n')->0;
    let pa = seq![a];
    let pb = text::pieces(b, '\n');
    assert(text::pieces(s, '\n') == seq![s.take(k)] + text::pieces(s.skip(k + 1), '\n'));
    assert(text::pieces(s, '\n') =~= pa + pb);
    assert(text::pieces(a, '\n') == pa);
    each_paragraph_is_wrapped_alone(pa, pb, a, width);
}

/// Of those with the fewest messages the first is taken.
pub proof fn the_first_of_the_least_is_taken(v: Seq<Who>, me: Seq<char>)
    ensures
        least(v, me) matches Some(b) ==> 0 <= b < v.len() && forall|i: int|
            0 <= i < b && (#[trigger] v[i]).id != me ==> v[i].count > v[b].count,
        least(v, me) matches Some(b) ==> least_name(v, me) == Some(v[b].id) && v[b].id != me,
    decreases v.len(),
{
    least_is_least(v, me);
    if v.len() > 0 {
        let init = v.drop_last();
        the_first_of_the_least_is_taken(init, me);
        least_is_least(init, me);
        if let Some(b) = least(v, me) {
            assert forall|i: int| 0 <= i < b && (#[trigger] v[i]).id != me implies v[i].count
                > v[b].count by {
                assert(init[i] == v[i]);
                if b < init.len() {
                    assert(init[b] == v[b]);
                }
            }
        }
    }
}

proof fn ranks_follow_names(v: Seq<Who>, a: Seq<char>, b: Seq<char>)
    requires
        text::before(a, b),
    ensures
        rank(v, a) <= rank(v, b),
        (exists|i: int| 0 <= i < v.len() && (#[trigger] v[i]).id == a) ==> rank(v, a) < rank(v, b),
    decreases v.len(),
{
    if v.len() > 0 {
        let init = v.drop_last();
        ranks_follow_names(init, a, b);
        let x = v.last().id;
        if text::before(x, a) {
            text::before_is_transitive(x, a, b);
        }
        text::before_is_strict(a, a);
        if exists|i: int| 0 <= i < v.len() && (#[trigger] v[i]).id == a {
            let i = choose|i: int| 0 <= i < v.len() && (#[trigger] v[i]).id == a;
            if i < init.len() {
                assert(init[i].id == a);
            }
        }
    }
}

/// Workers are sorted by their names, and nobody is lost.
pub proof fn workers_come_by_name(v: Seq<Who>, i: int, j: int, x: Who)
    ensures
        by_name(v).len() == v.len(),
        by_name(v).contains(x) <==> v.contains(x),
        0 <= i < j < v.len() ==> !text::before(by_name(v)[j].id, by_name(v)[i].id),
{
    sorting::arranged_keeps(v, ranks(v), false, x);
    if 0 <= i < j < v.len() {
        sorting::arranged_is_sorted(v, ranks(v), false, i, j);
        let o = sorting::ordering(ranks(v), v.len(), false);
        let a = v[o[j]].id;
        let b = v[o[i]].id;
        if text::before(a, b) {
            assert(v[o[j]].id == a);
            ranks_follow_names(v, a, b);
            assert(ranks(v)[o[j]] == rank(v, a) && ranks(v)[o[i]] == rank(v, b));
        }
    }
}

/// A message is begun at the top of the list, in the list, with nothing written.
pub proof fn messages_begin_empty(workers: Seq<Who>, selected: Seq<bool>, reply: Option<Seq<char>>)
    ensures
        ({
            let c = begun(workers, selected, reply);
            &&& c.workers == workers && c.selected == selected && c.reply_hash == reply
            &&& c.cursor == 0 && c.scroll == 0 && c.focused == ComposeField::Recipients
            &&& c.message.len() == 0 && !c.sending && c.error is None && c.visible == 4
        }),
{
}

/// What the keys do in the list: they move the cursor by one as far as it goes, mark one worker or
/// all of them, or lead to the message.
pub proof fn keys_of_the_list(c: ComposeModel)
    requires
        c.focused == ComposeField::Recipients,
    ensures
        pressed(c, Key::Esc).0 is None,
        pressed(c, Key::Tab).0 == Some(ComposeModel { focused: ComposeField::Message, ..c }),
        pressed(c, Key::Enter).0 == Some(ComposeModel { focused: ComposeField::Message, ..c }),
        pressed(c, Key::Up) == pressed(c, Key::Char('k')),
        pressed(c, Key::Down) == pressed(c, Key::Char('j')),
        pressed(c, Key::Up).0 is Some && pressed(c, Key::Down).0 is Some,
        c.cursor > 0 ==> (pressed(c, Key::Up).0->0).cursor == c.cursor - 1,
        c.cursor == 0 ==> pressed(c, Key::Up).0 == Some(c),
        c.cursor + 1 < c.workers.len() ==> (pressed(c, Key::Down).0->0).cursor == c.cursor + 1,
        c.cursor + 1 >= c.workers.len() ==> pressed(c, Key::Down).0 == Some(c),
        c.cursor < c.selected.len() ==> pressed(c, Key::Char(' ')).0 == Some(
            ComposeModel {
                selected: c.selected.update(c.cursor as int, !c.selected[c.cursor as int]),
                ..c
            },
        ),
        pressed(c, Key::Char('a')).0 is Some,
        (pressed(c, Key::Char('a')).0->0).selected.len() == c.selected.len(),
        forall|i: int|
            0 <= i < c.selected.len() ==> (#[trigger] (pressed(c, Key::Char('a')).0->0).selected[i]
                <==> exists|k: int| 0 <= k < c.selected.len() && !(#[trigger] c.selected[k])),
        pressed(c, Key::Backspace).0 == Some(c),
        pressed(c, Key::Enter).1 is None,
{
    let d = pressed(c, Key::Char('a')).0->0;
    assert forall|i: int| 0 <= i < c.selected.len() implies (#[trigger] d.selected[i]
        <==> exists|k: int| 0 <= k < c.selected.len() && !(#[trigger] c.selected[k])) by {
        if c.selected.contains(false) {
            let k = choose|k: int| 0 <= k < c.selected.len() && c.selected[k] == false;
            assert(!c.selected[k]);
        }
        if exists|k: int| 0 <= k < c.selected.len() && !(#[trigger] c.selected[k]) {
            let k = choose|k: int| 0 <= k < c.selected.len() && !(#[trigger] c.selected[k]);
            assert(c.selected[k] == false);
        }
    }
}

/// What the keys do in the message: they write it, take back its last character, lead back to the
/// list, or send it.
pub proof fn keys_of_the_message(c: ComposeModel, ch: char)
    requires
        c.focused == ComposeField::Message,
    ensures
        pressed(c, Key::Esc).0 is None,
        pressed(c, Key::Tab).0 == Some(ComposeModel { focused: ComposeField::Recipients, ..c }),
        ch != 'j' && ch != 'k' && ch != 'a' && ch != ' ' && !c.sending ==> pressed(
            c,
            Key::Char(ch),
        ).0 == Some(ComposeModel { message: c.message.push(ch), ..c }),
        c.sending ==> pressed(c, Key::Char(ch)).0 == Some(c),
        c.message.len() > 0 ==> pressed(c, Key::Backspace).0 == Some(
            ComposeModel { message: c.message.drop_last(), ..c },
        ),
        c.message.len() == 0 ==> pressed(c, Key::Backspace).0 == Some(c),
        pressed(c, Key::Enter) == sent(c),
        pressed(c, Key::Char(ch)).1 is None && pressed(c, Key::Tab).1 is None,
{
}

/// A message is sent exactly where it says something and somebody is marked: to all those who are,
/// without the blanks round it. Otherwise what is missing is told, and nothing else changes.
pub proof fn sending_is_exact(c: ComposeModel)
    ensures
        ({
            let (d, r) = sent(c);
            let empty = text::trimmed(c.message).len() == 0;
            let nobody = picked(c.workers, c.selected).len() == 0;
            &&& r is Some <==> !empty && !nobody
            &&& r matches Some(q) ==> q.message == text::trimmed(c.message) && q.recipients
                == picked(c.workers, c.selected) && q.reply_hash == c.reply_hash
            &&& empty ==> d == Some(
                ComposeModel { error: Some("Message cannot be empty"@), ..c },
            )
            &&& !empty && nobody ==> d == Some(
                ComposeModel { error: Some("Select at least one recipient"@), ..c },
            )
            &&& r is Some ==> d == Some(ComposeModel { sending: true, error: None, ..c })
        }),
{
}

/// Those who are marked are picked one by one, in order.
pub proof fn marked_workers_are_picked(
    workers: Seq<Who>,
    selected: Seq<bool>,
    w: Who,
    marked: bool,
)
    requires
        workers.len() == selected.len(),
    ensures
        picked(workers.push(w), selected.push(marked)) == (if marked {
            picked(workers, selected).push(w.id)
        } else {
            picked(workers, selected)
        }),
        picked(Seq::empty(), selected).len() == 0,
{
    let all = workers.push(w);
    assert(all.drop_last() =~= workers);
    picks_are_local(workers, selected, selected.push(marked));
}

proof fn picks_are_local(workers: Seq<Who>, a: Seq<bool>, b: Seq<bool>)
    requires
        workers.len() <= a.len(),
        workers.len() <= b.len(),
        forall|i: int| 0 <= i < workers.len() ==> a[i] == b[i],
    ensures
        picked(workers, a) == picked(workers, b),
    decreases workers.len(),
{
    if workers.len() > 0 {
        picks_are_local(workers.drop_last(), a, b);
    }
}

/// A new message goes to everybody else unless a mark is taken back, a reply to the one replied to;
/// where there is nobody else, that is said.
pub proof fn new_messages_are_marked(
    s: ScreenModel,
    reply_hash: Option<Seq<char>>,
    reply_to: Option<Seq<char>>,
    i: int,
)
    ensures
        ({
            let r = composing(s, reply_hash, reply_to);
            let o = others(s.workers, s.me);
            &&& o.len() == 0 ==> r == (ScreenModel { status: Some(NOBODY_ELSE@), ..s })
            &&& o.len() > 0 ==> {
                &&& r.compose is Some && r.status is None
                &&& (r.compose->0).workers == o && (r.compose->0).reply_hash == reply_hash
                &&& (r.compose->0).selected.len() == o.len()
                &&& 0 <= i < o.len() ==> ((r.compose->0).selected[i] <==> (reply_to is None
                    || reply_to == Some(o[i].id)))
                &&& r == (ScreenModel { status: None, compose: r.compose, ..s })
            }
        }),
{
}

/// The cursor counts from the newest message; a reply goes to the sender of the chosen one, and never
/// to oneself.
pub proof fn replies_go_to_the_sender(s: ScreenModel)
    ensures
        s.messages.len() == 0 ==> chosen(s) is None && replying(s) == s,
        s.cursor < s.messages.len() ==> chosen(s) == Some(s.messages.len() - 1 - s.cursor),
        s.cursor < s.messages.len() ==> {
            let m = s.messages[s.messages.len() - 1 - s.cursor];
            replying(s) == (if m.sender == s.me {
                s
            } else {
                composing(s, Some(m.hash), Some(m.sender))
            })
        },
{
}

/// What the actions do: they move the cursor by one as far as it goes, or open a message; and what
/// they ask for.
pub proof fn actions_are_exact(s: ScreenModel)
    ensures
        s.cursor > 0 ==> acted(s, Action::CursorUp) == (ScreenModel {
            cursor: (s.cursor - 1) as nat,
            ..s
        }),
        s.cursor == 0 ==> acted(s, Action::CursorUp) == s,
        s.cursor + 1 < s.messages.len() ==> acted(s, Action::CursorDown) == (ScreenModel {
            cursor: s.cursor + 1,
            ..s
        }),
        s.cursor + 1 >= s.messages.len() ==> acted(s, Action::CursorDown) == s,
        acted(s, Action::Compose) == composing(s, None, None),
        acted(s, Action::Reply) == replying(s),
        acted(s, Action::Quit) == s && acted(s, Action::Refresh) == s && acted(
            s,
            Action::ViewMessage,
        ) == s,
        asked(s, Action::Quit) == Effect::Quit,
        asked(s, Action::Refresh) == Effect::Fetch,
        s.messages.len() == 0 ==> asked(s, Action::ViewMessage) == Effect::Nothing,
        s.cursor < s.messages.len() ==> asked(s, Action::ViewMessage) == Effect::View(
            (s.messages.len() - 1 - s.cursor) as usize,
        ),
        asked(s, Action::CursorUp) == Effect::Nothing && asked(s, Action::CursorDown)
            == Effect::Nothing && asked(s, Action::Compose) == Effect::Nothing && asked(
            s,
            Action::Reply,
        ) == Effect::Nothing,
{
}

/// What was fetched is shown, and an error is gone; the cursor stays where it can. What was sent
/// closes the message, and what failed keeps it and says why.
pub proof fn replies_of_the_server_are_shown(
    s: ScreenModel,
    workers: Seq<Who>,
    messages: Seq<Note>,
    failure: Option<Seq<char>>,
)
    ensures
        ({
            let f = fetched(s, workers, messages);
            &&& f.workers == workers && f.messages == messages && f.error is None
            &&& s.cursor < messages.len() ==> f.cursor == s.cursor
            &&& messages.len() > 0 && s.cursor >= messages.len() ==> f.cursor == messages.len() - 1
            &&& f.compose == s.compose && f.me == s.me && f.scroll == s.scroll
        }),
        failure is None ==> delivered(s, failure).compose is None,
        s.compose is Some && failure is Some ==> delivered(s, failure).compose == Some(
            ComposeModel { sending: false, error: failure, ..s.compose->0 },
        ),
        delivered(s, failure).messages == s.messages && delivered(s, failure).cursor == s.cursor,
{
}

/// A click meets the message in its row, where there is one.
pub proof fn clicks_meet_their_row(s: ScreenModel, row: u16)
    ensures
        clicked(s, row) is Some <==> s.data_y > 0 && s.data_y <= row && s.scroll + row - s.data_y
            < s.messages.len(),
        clicked(s, row) matches Some(i) ==> i == s.scroll + row - s.data_y,
        DOUBLE_CLICK_MS == 400,
{
}

/// Sending is done once everybody has it: the first hash is told. The first failure is told with the
/// one it concerns.
pub proof fn sending_is_told(
    recipients: Seq<Seq<char>>,
    done: Seq<Result<Seq<char>, Seq<char>>>,
    i: int,
)
    requires
        done.len() <= recipients.len(),
    ensures
        (forall|k: int| 0 <= k < done.len() ==> (#[trigger] done[k]) is Ok) && done.len()
            == recipients.len() && done.len() > 0 ==> next_send(recipients, done)
            == StepModel::Done(done[0]->Ok_0),
        0 <= i < done.len() && done[i] is Err && (forall|k: int|
            0 <= k < i ==> (#[trigger] done[k]) is Ok) ==> next_send(recipients, done)
            == StepModel::Failed(
            "Failed sending to @"@ + recipients[i] + ": "@ + done[i]->Err_0,
        ),
{
    if forall|k: int| 0 <= k < done.len() ==> (#[trigger] done[k]) is Ok {
        all_went_well(done);
    }
    if 0 <= i < done.len() && done[i] is Err && (forall|k: int|
        0 <= k < i ==> (#[trigger] done[k]) is Ok) {
        let t = done.take(i);
        assert forall|k: int| 0 <= k < t.len() implies (#[trigger] t[k]) is Ok by {
            assert(t[k] == done[k]);
        }
        all_went_well(t);
        let u = done.take(i + 1);
        assert(u.drop_last() =~= t);
        assert(u.last() == done[i]);
        first_failure_stays(done, i + 1);
    }
}

/// The furthest one can scroll is where the last lines fill the page.
pub proof fn scrolling_ends_at_the_last_page(total: nat, visible: nat, cursor: nat, scroll: nat)
    ensures
        total <= visible ==> last_scroll(total, visible) == 0,
        total > visible ==> last_scroll(total, visible) + visible == total,
        at_least_one(visible) >= 1,
        visible >= 1 ==> at_least_one(visible) == visible,
        visible >= 1 && scroll <= cursor < scroll + visible ==> scrolled(cursor, scroll, visible)
            == scroll,
        cursor < scroll ==> scrolled(cursor, scroll, visible) == cursor,
        visible >= 1 && cursor >= scroll + visible ==> scrolled(cursor, scroll, visible) + visible
            == cursor + 1,
{
}

/// A screen begins with nothing on it.
pub proof fn screens_begin_empty(server: Seq<char>, me: Seq<char>)
    ensures
        ({
            let s = blank(server, me);
            &&& s.server == server && s.me == me
            &&& s.workers.len() == 0 && s.messages.len() == 0
            &&& s.cursor == 0 && s.scroll == 0 && s.data_y == 0
            &&& s.error is None && s.status is None && s.last_click is None && s.compose is None
        }),
{
}

} // verus!
