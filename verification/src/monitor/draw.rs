//! What is drawn where: the screen, the message that is being written, and the one that is read.
use crate::client::{Message, WorkerInfo};
use crate::clock;
use crate::clock::Timestamp;
use crate::monitor;
use crate::monitor::{ComposeField, ComposeState, MonitorScreen, Reader, Who};
use crate::text;
use vstd::prelude::*;

verus! {

/// A part of the screen.
#[derive(Clone, Copy, PartialEq, Eq, Structural, Debug)]
pub struct Area {
    pub x: u16,
    pub y: u16,
    pub width: u16,
    pub height: u16,
}

/// The columns of the narrowest dialog.
pub const LEAST_COLUMNS: u16 = 50;

/// The rows above the first message on the lowest screen.
pub const LEAST_ROWS: u16 = 9;

impl Area {
    /// Every column and row of what is drawn for the part can be numbered. A dialog is never
    /// narrower, and the messages never begin higher up, than the least that is counted here, so
    /// that a small part is drawn beyond.
    pub open spec fn sane(self) -> bool {
        &&& self.x + most_of(self.width as int, LEAST_COLUMNS as int) <= u16::MAX
        &&& self.y + most_of(self.height as int, LEAST_ROWS as int) <= u16::MAX
    }

    /// Whether every column and row of what is drawn for the part can be numbered.
    pub fn is_sane(self) -> (r: bool)
        ensures
            r == self.sane(),
    {
        let columns = if self.width > LEAST_COLUMNS {
            self.width
        } else {
            LEAST_COLUMNS
        };
        let rows = if self.height > LEAST_ROWS {
            self.height
        } else {
            LEAST_ROWS
        };
        columns <= u16::MAX - self.x && rows <= u16::MAX - self.y
    }
}

/// What something looks like.
#[derive(Clone, Copy, PartialEq, Eq, Structural, Debug)]
pub enum Paint {
    Plain,
    Header,
    Dim,
    DimBold,
    Separator,
    Me,
    Other,
    White,
    Bright,
    Incoming,
    Outgoing,
    Selected,
    SelectedTime,
    Error,
    Dialog,
    Border,
    BusyBorder,
    Title,
    BusyTitle,
    Field,
}

/// Something to be drawn.
pub enum Draw {
    Text { x: u16, y: u16, text: String, paint: Paint },
    /// Blanks.
    Fill { x: u16, y: u16, w: u16, h: u16, paint: Paint },
    /// A box with round corners.
    Frame { x: u16, y: u16, w: u16, h: u16, paint: Paint },
    /// Everything that is there already, made dark.
    Shade,
    /// A row with another background.
    Highlight { y: u16 },
}

/// The model of a [`Draw`].
#[verifier::ext_equal]
pub enum Stroke {
    Text { x: int, y: int, text: Seq<char>, paint: Paint },
    Fill { x: int, y: int, w: int, h: int, paint: Paint },
    Frame { x: int, y: int, w: int, h: int, paint: Paint },
    Shade,
    Highlight { y: int },
}

/// The model of something to be drawn.
pub open spec fn stroke(d: Draw) -> Stroke {
    match d {
        Draw::Text { x, y, text, paint } => Stroke::Text {
            x: x as int,
            y: y as int,
            text: text@,
            paint,
        },
        Draw::Fill { x, y, w, h, paint } => Stroke::Fill {
            x: x as int,
            y: y as int,
            w: w as int,
            h: h as int,
            paint,
        },
        Draw::Frame { x, y, w, h, paint } => Stroke::Frame {
            x: x as int,
            y: y as int,
            w: w as int,
            h: h as int,
            paint,
        },
        Draw::Shade => Stroke::Shade,
        Draw::Highlight { y } => Stroke::Highlight { y: y as int },
    }
}

/// The models of a drawing.
pub open spec fn strokes(v: Seq<Draw>) -> Seq<Stroke> {
    Seq::new(v.len(), |i: int| stroke(v[i]))
}

/// A text somewhere.
pub open spec fn at(x: int, y: int, s: Seq<char>, paint: Paint) -> Stroke {
    Stroke::Text { x, y, text: s, paint }
}

fn put(out: &mut Vec<Draw>, x: u16, y: u16, s: &str, paint: Paint)
    ensures
        strokes(final(out)@) == strokes(old(out)@).push(at(x as int, y as int, s@, paint)),
{
    let ghost before = out@;
    out.push(Draw::Text { x, y, text: s.to_owned(), paint });
    assert(strokes(out@) =~= strokes(before).push(at(x as int, y as int, s@, paint)));
}

fn lay(out: &mut Vec<Draw>, d: Draw)
    ensures
        strokes(final(out)@) == strokes(old(out)@).push(stroke(d)),
{
    let ghost before = out@;
    let ghost s = stroke(d);
    out.push(d);
    assert(strokes(out@) =~= strokes(before).push(s));
}

/// The smaller number.
pub open spec fn least_of(a: int, b: int) -> int {
    if a < b {
        a
    } else {
        b
    }
}

/// The larger number.
pub open spec fn most_of(a: int, b: int) -> int {
    if a > b {
        a
    } else {
        b
    }
}

/// The difference, but not below zero.
pub open spec fn minus(a: int, b: int) -> int {
    most_of(a - b, 0)
}

// ── The screen ──────────────────────────────────────────────────────────────
/// How wide the roles are.
pub open spec fn role_width(w: int) -> int {
    most_of(minus(w, 47), 8)
}

/// How many workers are shown.
pub open spec fn roster_rows(a: Area, n: int) -> int {
    least_of(n, most_of(minus(a.height - 2, 6), 2))
}

/// Where the messages begin, with their title.
pub open spec fn panel_y(a: Area, n: int) -> int {
    a.y + 1 + 3 + roster_rows(a, n)
}

/// How many messages are shown at most.
pub open spec fn message_rows(a: Area, n: int) -> int {
    minus(minus(a.height - 2, 3 + roster_rows(a, n)), 3)
}

/// The longest name among the messages, in bytes.
pub open spec fn longest_name(v: Seq<monitor::Note>) -> nat
    decreases v.len(),
{
    if v.len() == 0 {
        0
    } else {
        most_of(
            longest_name(v.drop_last()) as int,
            most_of(
                text::byte_len(v.last().sender) as int,
                text::byte_len(v.last().recipient) as int,
            ),
        ) as nat
    }
}

/// How wide the column is that says who wrote to whom.
pub open spec fn direction_width(v: Seq<monitor::Note>, me: Seq<char>) -> int {
    least_of(
        most_of(most_of(longest_name(v) as int, text::byte_len(me) as int) + 8, 16),
        30,
    )
}

/// How wide the contents are.
pub open spec fn content_width(w: int, dir_w: int) -> int {
    most_of(minus(w, dir_w + 16), 10)
}

/// The first message that is shown, so that the selected one is among them.
pub open spec fn screen_scroll(cursor: nat, scroll: nat, rows: nat) -> nat {
    if rows == 0 {
        least_of(cursor as int, scroll as int) as nat
    } else {
        monitor::scrolled(cursor, scroll, rows)
    }
}

/// The screen as it is drawn: scrolled to the selected message, and with the messages where they
/// are.
pub open spec fn settled(s: monitor::ScreenModel, a: Area) -> monitor::ScreenModel {
    monitor::ScreenModel {
        scroll: screen_scroll(
            s.cursor,
            s.scroll,
            message_rows(a, s.workers.len() as int) as nat,
        ),
        data_y: (panel_y(a, s.workers.len() as int) + 3) as u16,
        ..s
    }
}

/// A title with a rule behind it, as wide as the part.
pub open spec fn title_line(title: Seq<char>, w: int) -> Seq<char> {
    monitor::clipped(
        title + text::repeated('\u{2500}', minus(w, text::byte_len(title) as int) as nat),
        w as nat,
    )
}

/// A bar between two columns.
pub open spec fn bar() -> Seq<char> {
    " \u{2502} "@
}

/// A crossing of rules.
pub open spec fn cross() -> Seq<char> {
    "\u{2500}\u{253c}\u{2500}"@
}

/// A rule.
pub open spec fn rule(n: int) -> Seq<char> {
    text::repeated('\u{2500}', n as nat)
}

/// What stands above the roster.
#[verifier::opaque]
pub open spec fn roster_head(a: Area, n: nat) -> Seq<Stroke> {
    let w = a.width as int;
    let role_w = role_width(w);
    seq![
        at(
            a.x as int,
            a.y + 1,
            title_line("\u{2500} Roster ("@ + text::decimal(n) + " online) "@, w),
            Paint::Dim,
        ),
        at(
            a.x as int,
            a.y + 2,
            monitor::clipped(
                "  "@ + text::padded_end("Worker"@, 18) + bar() + text::padded_end(
                    "Role"@,
                    role_w as nat,
                ) + bar() + text::padded_end("Last Seen"@, 10) + bar() + text::padded_end(
                    "Activity"@,
                    8,
                ),
                w as nat,
            ),
            Paint::DimBold,
        ),
        at(
            a.x as int,
            a.y + 3,
            monitor::clipped(
                "  "@ + rule(18) + cross() + rule(role_w) + cross() + rule(10) + cross() + rule(8),
                w as nat,
            ),
            Paint::Separator,
        ),
    ]
}

/// How a worker is called: with a star where it sent the fewest messages, and marked where it is
/// oneself.
pub open spec fn worker_name(w: Who, me: Seq<char>, fewest: Option<Seq<char>>) -> Seq<char> {
    "@"@ + w.id + (if Some(w.id) == fewest {
        " \u{2605}"@
    } else {
        Seq::empty()
    }) + (if w.id == me {
        " \u{25c0}"@
    } else {
        Seq::empty()
    })
}

/// The row of a worker.
#[verifier::opaque]
pub open spec fn worker_strokes(
    w: Who,
    me: Seq<char>,
    fewest: Option<Seq<char>>,
    now: Timestamp,
    x: int,
    y: int,
    role_w: int,
) -> Seq<Stroke> {
    seq![
        at(x, y, "  "@, Paint::Plain),
        at(
            x + 2,
            y,
            monitor::fitted(worker_name(w, me, fewest), 18),
            if w.id == me {
                Paint::Me
            } else {
                Paint::Other
            },
        ),
        at(x + 20, y, bar(), Paint::Separator),
        at(
            x + 23,
            y,
            monitor::fitted(
                monitor::clipped(
                    if w.role.len() == 0 {
                        "\u{2014}"@
                    } else {
                        w.role
                    },
                    role_w as nat,
                ),
                role_w as nat,
            ),
            Paint::White,
        ),
        at(x + 23 + role_w, y, bar(), Paint::Separator),
        at(
            x + 26 + role_w,
            y,
            monitor::fitted(
                monitor::clipped(clock::age_text(clock::elapsed(now, w.last_seen)), 10),
                10,
            ),
            Paint::Dim,
        ),
        at(x + 36 + role_w, y, bar(), Paint::Separator),
        at(
            x + 39 + role_w,
            y,
            monitor::fitted(
                monitor::clipped(
                    if w.count > 0 {
                        text::decimal(w.count) + " msgs"@
                    } else {
                        Seq::empty()
                    },
                    8,
                ),
                8,
            ),
            Paint::Dim,
        ),
    ]
}

/// The rows of the first `n` workers.
pub open spec fn roster_strokes(
    v: Seq<Who>,
    n: int,
    me: Seq<char>,
    now: Timestamp,
    x: int,
    y: int,
    role_w: int,
) -> Seq<Stroke>
    decreases n,
{
    if n <= 0 {
        Seq::empty()
    } else {
        roster_strokes(v, n - 1, me, now, x, y, role_w) + worker_strokes(
            v[n - 1],
            me,
            monitor::least_name(v, me),
            now,
            x,
            y + n - 1,
            role_w,
        )
    }
}

/// What stands above the messages.
#[verifier::opaque]
pub open spec fn messages_head(a: Area, y: int, n: nat, dir_w: int, content_w: int) -> Seq<Stroke> {
    let w = a.width as int;
    seq![
        at(
            a.x as int,
            y,
            title_line("\u{2500} Messages ("@ + text::decimal(n) + " in last hour) "@, w),
            Paint::Dim,
        ),
        at(
            a.x as int,
            y + 1,
            monitor::clipped(
                "  "@ + text::padded_end("Direction"@, dir_w as nat) + bar() + text::padded_end(
                    "Time"@,
                    8,
                ) + bar() + text::padded_end("Content"@, content_w as nat),
                w as nat,
            ),
            Paint::DimBold,
        ),
        at(
            a.x as int,
            y + 2,
            monitor::clipped(
                "  "@ + rule(dir_w) + cross() + rule(8) + cross() + rule(content_w),
                w as nat,
            ),
            Paint::Separator,
        ),
    ]
}

/// Who wrote to whom.
pub open spec fn direction(m: monitor::Note, me: Seq<char>) -> Seq<char> {
    if m.recipient == me {
        "@"@ + m.sender + " \u{2192} you"@
    } else {
        "you \u{2192} @"@ + m.recipient
    }
}

/// The row of a message.
#[verifier::opaque]
pub open spec fn message_strokes(
    m: monitor::Note,
    me: Seq<char>,
    selected: bool,
    x: int,
    y: int,
    dir_w: int,
    content_w: int,
) -> Seq<Stroke> {
    (if selected {
        seq![Stroke::Highlight { y }]
    } else {
        Seq::empty()
    }) + seq![
        at(x, y, "  "@, Paint::Plain),
        at(
            x + 2,
            y,
            monitor::fitted(monitor::clipped(direction(m, me), dir_w as nat), dir_w as nat),
            if selected {
                Paint::Selected
            } else if m.recipient == me {
                Paint::Incoming
            } else {
                Paint::Outgoing
            },
        ),
        at(x + 2 + dir_w, y, bar(), Paint::Separator),
        at(
            x + 5 + dir_w,
            y,
            monitor::fitted(clock::shown(m.timestamp, "%H:%M:%S"@), 8),
            if selected {
                Paint::SelectedTime
            } else {
                Paint::Dim
            },
        ),
        at(x + 13 + dir_w, y, bar(), Paint::Separator),
        at(
            x + 16 + dir_w,
            y,
            monitor::front(m.content, content_w as nat),
            if selected {
                Paint::Bright
            } else {
                Paint::White
            },
        ),
    ]
}

/// The rows of the messages, the newest first, from the one that is scrolled to.
pub open spec fn messages_strokes(
    s: monitor::ScreenModel,
    n: int,
    x: int,
    y: int,
    dir_w: int,
    content_w: int,
) -> Seq<Stroke>
    decreases n,
{
    if n <= 0 {
        Seq::empty()
    } else {
        let place = s.scroll + n - 1;
        messages_strokes(s, n - 1, x, y, dir_w, content_w) + message_strokes(
            s.messages[s.messages.len() - 1 - place],
            s.me,
            place == s.cursor,
            x,
            y + n - 1,
            dir_w,
            content_w,
        )
    }
}

/// How many messages are shown.
pub open spec fn shown_messages(s: monitor::ScreenModel, rows: int) -> int {
    least_of(rows, minus(s.messages.len() as int, s.scroll as int))
}

/// What can be done.
pub const FOOTER: &'static str =
    " \u{2191}\u{2193} Navigate  \u{2502}  Enter View  \u{2502}  n New message  \u{2502}  R Reply  \u{2502}  r Refresh  \u{2502}  q Quit";

/// What stands at the bottom: what went wrong, else what there is to say, else what can be done.
pub open spec fn footer(s: monitor::ScreenModel) -> Seq<char> {
    match s.error {
        Some(e) => " Error: "@ + e,
        None => match s.status {
            Some(t) => " "@ + t,
            None => FOOTER@,
        },
    }
}

/// What stands at the bottom.
#[verifier::opaque]
pub open spec fn footer_strokes(s: monitor::ScreenModel, a: Area) -> Seq<Stroke> {
    let y = a.y + a.height - 1;
    seq![
        Stroke::Fill { x: a.x as int, y, w: a.width as int, h: 1, paint: Paint::Dim },
        at(
            a.x as int,
            y,
            monitor::clipped(footer(s), a.width as nat),
            if s.error is Some {
                Paint::Error
            } else {
                Paint::Dim
            },
        ),
    ]
}

/// What stands at the top.
#[verifier::opaque]
pub open spec fn header_strokes(s: monitor::ScreenModel, a: Area) -> Seq<Stroke> {
    seq![
        Stroke::Fill { x: a.x as int, y: a.y as int, w: a.width as int, h: 1, paint: Paint::Header },
        at(
            a.x as int,
            a.y as int,
            monitor::clipped(
                " collab monitor  @"@ + s.me + "  "@ + s.server,
                a.width as nat,
            ),
            Paint::Header,
        ),
    ]
}

/// The whole screen; `s` is scrolled already.
pub open spec fn screen_strokes(s: monitor::ScreenModel, a: Area, now: Timestamp) -> Seq<Stroke> {
    let n = s.workers.len() as int;
    let role_w = role_width(a.width as int);
    let dir_w = direction_width(s.messages, s.me);
    let content_w = content_width(a.width as int, dir_w);
    let my = panel_y(a, n);
    header_strokes(s, a) + roster_head(a, s.workers.len()) + roster_strokes(
        s.workers,
        roster_rows(a, n),
        s.me,
        now,
        a.x as int,
        a.y + 4,
        role_w,
    ) + messages_head(a, my, s.messages.len(), dir_w, content_w) + messages_strokes(
        s,
        shown_messages(s, message_rows(a, n)),
        a.x as int,
        my + 3,
        dir_w,
        content_w,
    ) + footer_strokes(s, a) + (match s.compose {
        Some(c) => compose_strokes(c, s.me, a),
        None => Seq::empty(),
    })
}

fn title_text(title: &str, w: usize) -> (r: String)
    ensures
        r@ == title_line(title@, w as int),
{
    let n: usize = text::bytes_in(title);
    let more: usize = if w > n {
        w - n
    } else {
        0
    };
    let line = text::glue(title, text::repeat('\u{2500}', more).as_str());
    monitor::clip(line.as_str(), w)
}

fn head_of_roster(a: Area, n: usize, role_w: usize, out: &mut Vec<Draw>)
    requires
        a.sane(),
        role_w == role_width(a.width as int),
    ensures
        strokes(final(out)@) == strokes(old(out)@) + roster_head(a, n as nat),
{
    let ghost before = strokes(out@);
    let w: usize = a.width as usize;
    let title = text::glue3("\u{2500} Roster (", text::count(n).as_str(), " online) ");
    put(out, a.x, a.y + 1, title_text(title.as_str(), w).as_str(), Paint::Dim);
    let mut head = text::glue3("  ", text::pad_end("Worker", 18).as_str(), " \u{2502} ");
    head.append(text::pad_end("Role", role_w).as_str());
    head.append(" \u{2502} ");
    head.append(text::pad_end("Last Seen", 10).as_str());
    head.append(" \u{2502} ");
    head.append(text::pad_end("Activity", 8).as_str());
    put(out, a.x, a.y + 2, monitor::clip(head.as_str(), w).as_str(), Paint::DimBold);
    let mut sep = text::glue3(
        "  ",
        text::repeat('\u{2500}', 18).as_str(),
        "\u{2500}\u{253c}\u{2500}",
    );
    sep.append(text::repeat('\u{2500}', role_w).as_str());
    sep.append("\u{2500}\u{253c}\u{2500}");
    sep.append(text::repeat('\u{2500}', 10).as_str());
    sep.append("\u{2500}\u{253c}\u{2500}");
    sep.append(text::repeat('\u{2500}', 8).as_str());
    put(out, a.x, a.y + 3, monitor::clip(sep.as_str(), w).as_str(), Paint::Separator);
    proof {
        reveal(roster_head);
    }
    assert(strokes(out@) =~= before + roster_head(a, n as nat));
}

fn row_of_worker(
    w: &WorkerInfo,
    me: &str,
    fewest: &Option<String>,
    now: Timestamp,
    x: u16,
    y: u16,
    role_w: u16,
    out: &mut Vec<Draw>,
)
    requires
        x + 39 + role_w <= u16::MAX,
    ensures
        strokes(final(out)@) == strokes(old(out)@) + worker_strokes(
            monitor::who(*w),
            me@,
            text::opt_text(*fewest),
            now,
            x as int,
            y as int,
            role_w as int,
        ),
{
    let ghost before = strokes(out@);
    let mine = text::same(w.instance_id.as_str(), me);
    let mut name = text::glue("@", w.instance_id.as_str());
    let starred = match fewest {
        Some(f) => text::same(w.instance_id.as_str(), f.as_str()),
        None => false,
    };
    if starred {
        name.append(" \u{2605}");
    } else {
        assert(name@ + Seq::<char>::empty() =~= name@);
    }
    if mine {
        name.append(" \u{25c0}");
    } else {
        assert(name@ + Seq::<char>::empty() =~= name@);
    }
    assert(name@ == worker_name(monitor::who(*w), me@, text::opt_text(*fewest)));
    put(out, x, y, "  ", Paint::Plain);
    put(
        out,
        x + 2,
        y,
        monitor::pad(name.as_str(), 18).as_str(),
        if mine {
            Paint::Me
        } else {
            Paint::Other
        },
    );
    put(out, x + 20, y, " \u{2502} ", Paint::Separator);
    let role = if w.role.as_str().is_empty() {
        monitor::clip("\u{2014}", role_w as usize)
    } else {
        monitor::clip(w.role.as_str(), role_w as usize)
    };
    put(
        out,
        x + 23,
        y,
        monitor::pad(role.as_str(), role_w as usize).as_str(),
        Paint::White,
    );
    put(out, x + 23 + role_w, y, " \u{2502} ", Paint::Separator);
    let age = monitor::clip(clock::age_str(now, w.last_seen).as_str(), 10);
    put(out, x + 26 + role_w, y, monitor::pad(age.as_str(), 10).as_str(), Paint::Dim);
    put(out, x + 36 + role_w, y, " \u{2502} ", Paint::Separator);
    let sent = if w.message_count > 0 {
        text::glue(text::count(w.message_count).as_str(), " msgs")
    } else {
        let e = String::new();
        assert(e@ =~= Seq::<char>::empty());
        e
    };
    let activity = monitor::clip(sent.as_str(), 8);
    put(out, x + 39 + role_w, y, monitor::pad(activity.as_str(), 8).as_str(), Paint::Dim);
    proof {
        reveal(worker_strokes);
    }
    assert(strokes(out@) =~= before + worker_strokes(
        monitor::who(*w),
        me@,
        text::opt_text(*fewest),
        now,
        x as int,
        y as int,
        role_w as int,
    ));
}

fn rows_of_roster(
    workers: &Vec<WorkerInfo>,
    n: usize,
    me: &str,
    now: Timestamp,
    x: u16,
    y: u16,
    role_w: u16,
    out: &mut Vec<Draw>,
)
    requires
        n <= workers@.len(),
        x + 39 + role_w <= u16::MAX,
        y + n <= u16::MAX,
    ensures
        strokes(final(out)@) == strokes(old(out)@) + roster_strokes(
            monitor::whos(workers@),
            n as int,
            me@,
            now,
            x as int,
            y as int,
            role_w as int,
        ),
{
    let ghost before = strokes(out@);
    let ghost v = monitor::whos(workers@);
    let fewest = monitor::least_capacitated(workers, me);
    let mut i: usize = 0;
    assert(strokes(out@) =~= before + roster_strokes(
        v,
        0,
        me@,
        now,
        x as int,
        y as int,
        role_w as int,
    ));
    while i < n
        invariant
            i <= n,
            n <= workers@.len(),
            x + 39 + role_w <= u16::MAX,
            y + n <= u16::MAX,
            v == monitor::whos(workers@),
            text::opt_text(fewest) == monitor::least_name(v, me@),
            strokes(out@) == before + roster_strokes(
                v,
                i as int,
                me@,
                now,
                x as int,
                y as int,
                role_w as int,
            ),
        decreases n - i,
    {
        let ghost rows = roster_strokes(v, i as int, me@, now, x as int, y as int, role_w as int);
        row_of_worker(&workers[i], me, &fewest, now, x, y + i as u16, role_w, out);
        let ghost row = worker_strokes(
            v[i as int],
            me@,
            text::opt_text(fewest),
            now,
            x as int,
            y + i,
            role_w as int,
        );
        assert(before + rows + row =~= before + (rows + row));
        i += 1;
    }
}

fn head_of_messages(a: Area, y: u16, n: usize, dir_w: usize, content_w: usize, out: &mut Vec<Draw>)
    requires
        y + 2 <= u16::MAX,
    ensures
        strokes(final(out)@) == strokes(old(out)@) + messages_head(
            a,
            y as int,
            n as nat,
            dir_w as int,
            content_w as int,
        ),
{
    let ghost before = strokes(out@);
    let w: usize = a.width as usize;
    let title = text::glue3("\u{2500} Messages (", text::count(n).as_str(), " in last hour) ");
    put(out, a.x, y, title_text(title.as_str(), w).as_str(), Paint::Dim);
    let mut head = text::glue3("  ", text::pad_end("Direction", dir_w).as_str(), " \u{2502} ");
    head.append(text::pad_end("Time", 8).as_str());
    head.append(" \u{2502} ");
    head.append(text::pad_end("Content", content_w).as_str());
    put(out, a.x, y + 1, monitor::clip(head.as_str(), w).as_str(), Paint::DimBold);
    let mut sep = text::glue3(
        "  ",
        text::repeat('\u{2500}', dir_w).as_str(),
        "\u{2500}\u{253c}\u{2500}",
    );
    sep.append(text::repeat('\u{2500}', 8).as_str());
    sep.append("\u{2500}\u{253c}\u{2500}");
    sep.append(text::repeat('\u{2500}', content_w).as_str());
    put(out, a.x, y + 2, monitor::clip(sep.as_str(), w).as_str(), Paint::Separator);
    proof {
        reveal(messages_head);
    }
    assert(strokes(out@) =~= before + messages_head(
        a,
        y as int,
        n as nat,
        dir_w as int,
        content_w as int,
    ));
}

fn row_of_message(
    m: &Message,
    me: &str,
    selected: bool,
    x: u16,
    y: u16,
    dir_w: u16,
    content_w: usize,
    out: &mut Vec<Draw>,
)
    requires
        x + 16 + dir_w <= u16::MAX,
    ensures
        strokes(final(out)@) == strokes(old(out)@) + message_strokes(
            monitor::note(*m),
            me@,
            selected,
            x as int,
            y as int,
            dir_w as int,
            content_w as int,
        ),
{
    let ghost before = strokes(out@);
    let incoming = text::same(m.recipient.as_str(), me);
    let who = if incoming {
        text::glue3("@", m.sender.as_str(), " \u{2192} you")
    } else {
        text::glue("you \u{2192} @", m.recipient.as_str())
    };
    if selected {
        lay(out, Draw::Highlight { y });
    }
    put(out, x, y, "  ", Paint::Plain);
    let shown = monitor::clip(who.as_str(), dir_w as usize);
    put(
        out,
        x + 2,
        y,
        monitor::pad(shown.as_str(), dir_w as usize).as_str(),
        if selected {
            Paint::Selected
        } else if incoming {
            Paint::Incoming
        } else {
            Paint::Outgoing
        },
    );
    put(out, x + 2 + dir_w, y, " \u{2502} ", Paint::Separator);
    let time = clock::hours_and_minutes(m.timestamp);
    put(
        out,
        x + 5 + dir_w,
        y,
        monitor::pad(time.as_str(), 8).as_str(),
        if selected {
            Paint::SelectedTime
        } else {
            Paint::Dim
        },
    );
    put(out, x + 13 + dir_w, y, " \u{2502} ", Paint::Separator);
    put(
        out,
        x + 16 + dir_w,
        y,
        monitor::clip_no_ellipsis(m.content.as_str(), content_w).as_str(),
        if selected {
            Paint::Bright
        } else {
            Paint::White
        },
    );
    proof {
        reveal(message_strokes);
    }
    assert(strokes(out@) =~= before + message_strokes(
        monitor::note(*m),
        me@,
        selected,
        x as int,
        y as int,
        dir_w as int,
        content_w as int,
    ));
}

fn rows_of_messages(
    s: &MonitorScreen,
    n: usize,
    x: u16,
    y: u16,
    dir_w: u16,
    content_w: usize,
    out: &mut Vec<Draw>,
)
    requires
        n == 0 || s.msg_scroll + n <= s.messages.len(),
        x + 16 + dir_w <= u16::MAX,
        y + n <= u16::MAX,
    ensures
        strokes(final(out)@) == strokes(old(out)@) + messages_strokes(
            s@,
            n as int,
            x as int,
            y as int,
            dir_w as int,
            content_w as int,
        ),
{
    let ghost before = strokes(out@);
    let ghost sm = s@;
    let mut i: usize = 0;
    assert(strokes(out@) =~= before + messages_strokes(
        sm,
        0,
        x as int,
        y as int,
        dir_w as int,
        content_w as int,
    ));
    while i < n
        invariant
            i <= n,
            n == 0 || s.msg_scroll + n <= s.messages.len(),
            x + 16 + dir_w <= u16::MAX,
            y + n <= u16::MAX,
            sm == s@,
            strokes(out@) == before + messages_strokes(
                sm,
                i as int,
                x as int,
                y as int,
                dir_w as int,
                content_w as int,
            ),
        decreases n - i,
    {
        let ghost rows = messages_strokes(
            sm,
            i as int,
            x as int,
            y as int,
            dir_w as int,
            content_w as int,
        );
        let place: usize = s.msg_scroll + i;
        let k: usize = s.messages.len() - 1 - place;
        assert(sm.messages[k as int] == monitor::note(s.messages@[k as int]));
        row_of_message(
            &s.messages[k],
            s.instance_id.as_str(),
            place == s.msg_cursor,
            x,
            y + i as u16,
            dir_w,
            content_w,
            out,
        );
        let ghost row = message_strokes(
            sm.messages[k as int],
            sm.me,
            place == sm.cursor,
            x as int,
            y + i,
            dir_w as int,
            content_w as int,
        );
        assert(before + rows + row =~= before + (rows + row));
        i += 1;
    }
}

fn longest(messages: &Vec<Message>) -> (r: usize)
    ensures
        r == longest_name(monitor::notes(messages@)),
{
    let ghost all = monitor::notes(messages@);
    let mut r: usize = 0;
    let mut i: usize = 0;
    assert(all.take(0) =~= Seq::<monitor::Note>::empty());
    while i < messages.len()
        invariant
            i <= messages@.len(),
            all == monitor::notes(messages@),
            r == longest_name(all.take(i as int)),
        decreases messages@.len() - i,
    {
        assert(all.take(i + 1).drop_last() =~= all.take(i as int));
        assert(all.take(i + 1).last() == monitor::note(messages@[i as int]));
        let a: usize = text::bytes_in(messages[i].sender.as_str());
        let b: usize = text::bytes_in(messages[i].recipient.as_str());
        let most: usize = if a > b {
            a
        } else {
            b
        };
        if most > r {
            r = most;
        }
        i += 1;
    }
    assert(all.take(i as int) =~= all);
    r
}

fn footer_text(s: &MonitorScreen) -> (r: String)
    ensures
        r@ == footer(s@),
{
    if let Some(e) = &s.error {
        return text::glue(" Error: ", e.as_str());
    }
    if let Some(t) = &s.status_msg {
        return text::glue(" ", t.as_str());
    }
    FOOTER.to_owned()
}

/// How the screen is divided.
pub struct Layout {
    /// How many workers are shown.
    pub rows: u16,
    /// Where the messages begin.
    pub panel: u16,
    /// How many messages are shown at most.
    pub msg_rows: u16,
    pub role_w: u16,
    pub dir_w: u16,
    pub content_w: usize,
}

/// The screen is divided as it should be.
pub open spec fn laid_out(l: Layout, s: monitor::ScreenModel, a: Area) -> bool {
    &&& l.rows == roster_rows(a, s.workers.len() as int)
    &&& l.panel == panel_y(a, s.workers.len() as int)
    &&& l.msg_rows == message_rows(a, s.workers.len() as int)
    &&& l.role_w == role_width(a.width as int)
    &&& l.dir_w == direction_width(s.messages, s.me)
    &&& l.content_w == content_width(a.width as int, l.dir_w as int)
}

impl MonitorScreen {
    /// Divides the screen.
    pub fn layout(&self, a: Area) -> (l: Layout)
        requires
            a.sane(),
            a.height >= 4,
            self.workers@.len() <= u16::MAX,
        ensures
            laid_out(l, self@, a),
    {
        let ghost n = self@.workers.len() as int;
        assert(n == self.workers@.len());
        let content_h: u16 = a.height - 2;
        let room: u16 = if content_h > 8 {
            content_h - 6
        } else {
            2
        };
        let rows: u16 = if self.workers.len() < room as usize {
            self.workers.len() as u16
        } else {
            room
        };
        let used: u16 = 6 + rows;
        let msg_rows: u16 = if content_h > used {
            content_h - used
        } else {
            0
        };
        let w: usize = a.width as usize;
        let role_w: u16 = if a.width > 55 {
            a.width - 47
        } else {
            8
        };
        let long: usize = longest(&self.messages);
        let own: usize = text::bytes_in(self.instance_id.as_str());
        let name_w: usize = if long > own {
            long
        } else {
            own
        };
        let dir_w: u16 = if name_w >= 22 {
            30
        } else if name_w <= 8 {
            16
        } else {
            name_w as u16 + 8
        };
        let content_w: usize = if w > dir_w as usize + 26 {
            w - (dir_w as usize + 16)
        } else {
            10
        };
        Layout { rows, panel: a.y + 4 + rows, msg_rows, role_w, dir_w, content_w }
    }

    fn draw_top(&self, a: Area, out: &mut Vec<Draw>)
        ensures
            strokes(final(out)@) == strokes(old(out)@) + header_strokes(self@, a),
    {
        let ghost before = strokes(out@);
        lay(out, Draw::Fill { x: a.x, y: a.y, w: a.width, h: 1, paint: Paint::Header });
        let mut top = text::glue3(" collab monitor  @", self.instance_id.as_str(), "  ");
        top.append(self.server.as_str());
        put(
            out,
            a.x,
            a.y,
            monitor::clip(top.as_str(), a.width as usize).as_str(),
            Paint::Header,
        );
        proof {
            reveal(header_strokes);
        }
        assert(strokes(out@) =~= before + header_strokes(self@, a));
    }

    fn draw_bottom(&self, a: Area, out: &mut Vec<Draw>)
        requires
            a.sane(),
            a.height >= 4,
        ensures
            strokes(final(out)@) == strokes(old(out)@) + footer_strokes(self@, a),
    {
        let ghost before = strokes(out@);
        let y: u16 = a.y + a.height - 1;
        lay(out, Draw::Fill { x: a.x, y, w: a.width, h: 1, paint: Paint::Dim });
        put(
            out,
            a.x,
            y,
            monitor::clip(footer_text(self).as_str(), a.width as usize).as_str(),
            if self.error.is_some() {
                Paint::Error
            } else {
                Paint::Dim
            },
        );
        proof {
            reveal(footer_strokes);
        }
        assert(strokes(out@) =~= before + footer_strokes(self@, a));
    }

    /// Draws the screen at the time `now`. A part with fewer than four rows shows nothing.
    pub fn render(&mut self, a: Area, now: Timestamp) -> (r: Vec<Draw>)
        requires
            a.sane(),
            old(self).workers@.len() <= u16::MAX,
        ensures
            a.height < 4 ==> final(self)@ == old(self)@ && r@.len() == 0,
            a.height >= 4 ==> final(self)@ == settled(old(self)@, a) && strokes(r@)
                == screen_strokes(settled(old(self)@, a), a, now),
    {
        let mut out: Vec<Draw> = Vec::new();
        if a.height < 4 {
            return out;
        }
        let ghost s0 = self@;
        let l = self.layout(a);
        self.msg_scroll = if l.msg_rows == 0 {
            if self.msg_cursor < self.msg_scroll {
                self.msg_cursor
            } else {
                self.msg_scroll
            }
        } else {
            monitor::scroll_to(self.msg_cursor, self.msg_scroll, l.msg_rows as usize)
        };
        self.msg_data_start_y = l.panel + 3;
        let ghost s = self@;
        assert(s =~= settled(s0, a));
        assert(s.workers.len() == self.workers@.len());
        assert(strokes(out@) =~= Seq::<Stroke>::empty());
        self.draw_top(a, &mut out);
        assert(strokes(out@) =~= header_strokes(s, a));
        head_of_roster(a, self.workers.len(), l.role_w as usize, &mut out);
        rows_of_roster(
            &self.workers,
            l.rows as usize,
            self.instance_id.as_str(),
            now,
            a.x,
            a.y + 4,
            l.role_w,
            &mut out,
        );
        head_of_messages(
            a,
            l.panel,
            self.messages.len(),
            l.dir_w as usize,
            l.content_w,
            &mut out,
        );
        let len: usize = self.messages.len();
        assert(s.messages.len() == len);
        let left: usize = if len > self.msg_scroll {
            len - self.msg_scroll
        } else {
            0
        };
        let shown: usize = if (l.msg_rows as usize) < left {
            l.msg_rows as usize
        } else {
            left
        };
        rows_of_messages(self, shown, a.x, l.panel + 3, l.dir_w, l.content_w, &mut out);
        self.draw_bottom(a, &mut out);
        match &self.compose {
            Some(c) => {
                render_compose(c, self.instance_id.as_str(), a, &mut out);
            },
            None => {
                assert(strokes(out@) + Seq::<Stroke>::empty() =~= strokes(out@));
            },
        }
        out
    }
}

// ── A message that is being written ─────────────────────────────────────────
/// The dialog for a message that is being written.
pub open spec fn compose_box(a: Area, n: int) -> Area {
    let h = least_of(8 + least_of(n, 6), minus(a.height as int, 2));
    let w = most_of(least_of(a.width as int * 8 / 10, 90), 50);
    Area {
        x: (a.x + minus(a.width as int, w) / 2) as u16,
        y: (a.y + minus(a.height as int, h) / 2) as u16,
        width: w as u16,
        height: h as u16,
    }
}

/// Where a text stands that is in the middle.
pub open spec fn middle(d: Area, s: Seq<char>) -> int {
    d.x + minus(d.width as int, text::byte_len(s) as int) / 2
}

/// What is written above the dialog.
pub open spec fn compose_title(c: monitor::ComposeModel) -> Seq<char> {
    if c.sending {
        " Sending\u{2026} "@
    } else if c.reply_hash is Some {
        " Reply "@
    } else {
        " New Message "@
    }
}

/// How many are selected.
pub open spec fn count_of(v: Seq<bool>) -> nat
    decreases v.len(),
{
    if v.len() == 0 {
        0
    } else {
        count_of(v.drop_last()) + if v.last() {
            1nat
        } else {
            0nat
        }
    }
}

/// How many are selected, in words.
pub open spec fn count_label(c: monitor::ComposeModel) -> Seq<char> {
    "Recipients: "@ + text::decimal(count_of(c.selected)) + "/"@ + text::decimal(c.workers.len())
        + " selected  (Space toggle, a all/none)"@
}

/// The row of a worker that can be selected, where the list shows `visible` rows from `scroll` on.
pub open spec fn choice_text(
    c: monitor::ComposeModel,
    me: Seq<char>,
    i: int,
    scroll: int,
    visible: int,
) -> Seq<char> {
    " ["@ + (if i < c.selected.len() && c.selected[i] {
        "\u{2713}"@
    } else {
        " "@
    }) + "]"@ + (if i == scroll && scroll > 0 {
        "\u{2191}"@
    } else if i == scroll + visible - 1 && scroll + visible < c.workers.len() {
        "\u{2193}"@
    } else {
        " "@
    }) + " @"@ + c.workers[i].id + (if Some(c.workers[i].id) == monitor::least_name(
        c.workers,
        me,
    ) {
        " \u{2605}"@
    } else {
        Seq::empty()
    })
}

/// The row of a worker that can be selected.
#[verifier::opaque]
pub open spec fn choice_strokes(
    c: monitor::ComposeModel,
    me: Seq<char>,
    i: int,
    scroll: int,
    visible: int,
    x: int,
    y: int,
    w: int,
) -> Seq<Stroke> {
    let here = c.focused == ComposeField::Recipients && i == c.cursor;
    let paint = if here {
        Paint::Header
    } else if i < c.selected.len() && c.selected[i] {
        Paint::Other
    } else {
        Paint::Dim
    };
    (if here {
        seq![Stroke::Fill { x, y, w, h: 1, paint }]
    } else {
        Seq::empty()
    }) + seq![
        at(x, y, monitor::clipped(choice_text(c, me, i, scroll, visible), w as nat), paint),
    ]
}

/// The rows of the first `n` workers that can be seen.
pub open spec fn choices_strokes(
    c: monitor::ComposeModel,
    me: Seq<char>,
    n: int,
    scroll: int,
    visible: int,
    x: int,
    y: int,
    w: int,
) -> Seq<Stroke>
    decreases n,
{
    if n <= 0 {
        Seq::empty()
    } else {
        choices_strokes(c, me, n - 1, scroll, visible, x, y, w) + choice_strokes(
            c,
            me,
            scroll + n - 1,
            scroll,
            visible,
            x,
            y + n - 1,
            w,
        )
    }
}

/// A label, where there is room for it.
pub open spec fn label_strokes(
    x: int,
    y: int,
    end: int,
    s: Seq<char>,
    focused: bool,
) -> Seq<Stroke> {
    if y < end {
        seq![
            at(
                x,
                y,
                s,
                if focused {
                    Paint::Me
                } else {
                    Paint::Dim
                },
            ),
        ]
    } else {
        Seq::empty()
    }
}

/// The next row, where there was room for one.
pub open spec fn next_row(y: int, end: int) -> int {
    if y < end {
        y + 1
    } else {
        y
    }
}

/// The text that is being written: its end, with a cursor where keys go to it.
pub open spec fn field_strokes(c: monitor::ComposeModel, x: int, y: int, end: int, w: int) -> Seq<
    Stroke,
> {
    let focused = c.focused == ComposeField::Message;
    let paint = if focused {
        Paint::Field
    } else {
        Paint::White
    };
    if y < end {
        seq![
            Stroke::Fill { x, y, w, h: 1, paint },
            at(
                x,
                y,
                if focused {
                    monitor::tail(c.message, minus(w, 1) as nat) + "|"@
                } else {
                    monitor::tail(c.message, w as nat)
                },
                paint,
            ),
        ]
    } else {
        Seq::empty()
    }
}

/// What went wrong, where there is room for it.
pub open spec fn failure_strokes(c: monitor::ComposeModel, d: Area) -> Seq<Stroke> {
    let y = d.y + d.height - 3;
    match c.error {
        Some(e) => if y > d.y + 2 {
            seq![at(d.x + 2, y, monitor::clipped(e, (d.width - 4) as nat), Paint::Error)]
        } else {
            Seq::empty()
        },
        None => Seq::empty(),
    }
}

/// What can be done while a message is being written.
pub const COMPOSE_HINT: &'static str =
    " [Tab] Switch  [\u{2191}\u{2193}] Navigate  [Space] Toggle  [Enter] Send  [Esc] Cancel ";

/// The rows that the list of workers has.
pub open spec fn list_rows(n: int, y: int, end: int) -> int {
    most_of(least_of(minus(end, y + 4), n), 1)
}

/// The rows of the list of workers that are drawn.
pub open spec fn drawn_rows(n: int, scroll: int, visible: int, y: int, end: int) -> int {
    least_of(least_of(visible, minus(n, scroll)), minus(end, y))
}

/// Behind the list.
#[verifier::opaque]
pub open spec fn compose_rest(c: monitor::ComposeModel, d: Area, y: int, end: int) -> Seq<Stroke> {
    let x = d.x + 2;
    let w = d.width - 4;
    label_strokes(x, y, end, "Message:"@, c.focused == ComposeField::Message) + field_strokes(
        c,
        x,
        next_row(y, end),
        end,
        w,
    ) + failure_strokes(c, d) + seq![
        at(
            middle(d, COMPOSE_HINT@),
            d.y + d.height - 1,
            monitor::clipped(COMPOSE_HINT@, d.width as nat),
            Paint::Dim,
        ),
    ]
}

/// The dialog for a message that is being written.
#[verifier::opaque]
pub open spec fn compose_strokes(c: monitor::ComposeModel, me: Seq<char>, a: Area) -> Seq<Stroke> {
    let n = c.workers.len() as int;
    let d = compose_box(a, n);
    let x = d.x + 2;
    let w = d.width - 4;
    let end = d.y + d.height - 1;
    let y1 = next_row(d.y + 2, end);
    let visible = list_rows(n, y1, end);
    let scroll = monitor::scrolled(c.cursor, c.scroll, visible as nat) as int;
    let rows = drawn_rows(n, scroll, visible, y1, end);
    compose_frame(c, d) + label_strokes(
        x,
        d.y + 2,
        end,
        monitor::clipped(count_label(c), w as nat),
        c.focused == ComposeField::Recipients,
    ) + choices_strokes(c, me, rows, scroll, visible, x, y1, w) + compose_rest(
        c,
        d,
        y1 + rows + 1,
        end,
    )
}

fn count_true(v: &Vec<bool>) -> (r: usize)
    ensures
        r == count_of(v@),
{
    let mut r: usize = 0;
    let mut i: usize = 0;
    assert(v@.take(0) =~= Seq::<bool>::empty());
    while i < v.len()
        invariant
            i <= v.len(),
            r <= i,
            r == count_of(v@.take(i as int)),
        decreases v@.len() - i,
    {
        assert(v@.take(i + 1).drop_last() =~= v@.take(i as int));
        if v[i] {
            r += 1;
        }
        i += 1;
    }
    assert(v@.take(i as int) =~= v@);
    r
}

fn centre(d: Area, s: &str) -> (r: u16)
    requires
        d.x + d.width <= u16::MAX,
    ensures
        r == middle(d, s@),
{
    let n: usize = text::bytes_in(s);
    let w: usize = d.width as usize;
    let rest: u16 = if w > n {
        (w - n) as u16
    } else {
        0
    };
    d.x + rest / 2
}

fn choice(
    c: &ComposeState,
    fewest: &Option<String>,
    me: &str,
    i: usize,
    scroll: usize,
    visible: usize,
    x: u16,
    y: u16,
    w: u16,
    out: &mut Vec<Draw>,
)
    requires
        scroll <= i < c.workers@.len(),
        visible > 0,
        text::opt_text(*fewest) == monitor::least_name(c@.workers, me@),
    ensures
        strokes(final(out)@) == strokes(old(out)@) + choice_strokes(
            c@,
            me@,
            i as int,
            scroll as int,
            visible as int,
            x as int,
            y as int,
            w as int,
        ),
{
    let ghost before = strokes(out@);
    let ghost cm = c@;
    assert(cm.workers[i as int].id == c.workers@[i as int].instance_id@);
    assert(cm.workers.len() == c.workers@.len());
    let checked = i < c.selected.len() && c.selected[i];
    let here = c.focused == ComposeField::Recipients && i == c.list_cursor;
    let mark = if checked {
        "\u{2713}"
    } else {
        " "
    };
    let more = if i == scroll && scroll > 0 {
        "\u{2191}"
    } else if i - scroll == visible - 1 && visible < c.workers.len() - scroll {
        "\u{2193}"
    } else {
        " "
    };
    let starred = match fewest {
        Some(f) => text::same(c.workers[i].instance_id.as_str(), f.as_str()),
        None => false,
    };
    let mut s = text::glue3(" [", mark, "]");
    s.append(more);
    s.append(" @");
    s.append(c.workers[i].instance_id.as_str());
    if starred {
        s.append(" \u{2605}");
    } else {
        assert(s@ + Seq::<char>::empty() =~= s@);
    }
    assert(s@ == choice_text(cm, me@, i as int, scroll as int, visible as int));
    let paint = if here {
        Paint::Header
    } else if checked {
        Paint::Other
    } else {
        Paint::Dim
    };
    if here {
        lay(out, Draw::Fill { x, y, w, h: 1, paint });
    }
    put(out, x, y, monitor::clip(s.as_str(), w as usize).as_str(), paint);
    proof {
        reveal(choice_strokes);
    }
    assert(strokes(out@) =~= before + choice_strokes(
        cm,
        me@,
        i as int,
        scroll as int,
        visible as int,
        x as int,
        y as int,
        w as int,
    ));
}

fn rest_of_compose(c: &ComposeState, d: Area, y: u16, end: u16, out: &mut Vec<Draw>)
    requires
        d.x + d.width <= u16::MAX,
        d.y + d.height <= u16::MAX,
        d.width >= 50,
        d.height >= 2,
        d.y + d.height >= 3,
    ensures
        strokes(final(out)@) == strokes(old(out)@) + compose_rest(c@, d, y as int, end as int),
{
    let ghost before = strokes(out@);
    let ghost cm = c@;
    let x: u16 = d.x + 2;
    let w: u16 = d.width - 4;
    let focused = c.focused == ComposeField::Message;
    let mut y = y;
    let ghost y0 = y as int;
    if y < end {
        put(
            out,
            x,
            y,
            "Message:",
            if focused {
                Paint::Me
            } else {
                Paint::Dim
            },
        );
        y = y + 1;
    }
    let ghost part1 = label_strokes(x as int, y0, end as int, "Message:"@, focused);
    assert(strokes(out@) =~= before + part1);
    if y < end {
        let paint = if focused {
            Paint::Field
        } else {
            Paint::White
        };
        let shown = if focused {
            text::glue(
                monitor::tail_chars(c.message.as_str(), w as usize - 1).as_str(),
                "|",
            )
        } else {
            monitor::tail_chars(c.message.as_str(), w as usize)
        };
        lay(out, Draw::Fill { x, y, w, h: 1, paint });
        put(out, x, y, shown.as_str(), paint);
    }
    let ghost part2 = field_strokes(cm, x as int, y as int, end as int, w as int);
    assert(strokes(out@) =~= before + part1 + part2);
    if let Some(e) = &c.error {
        let ey: u16 = d.y + d.height - 3;
        if ey > d.y + 2 {
            put(out, x, ey, monitor::clip(e.as_str(), w as usize).as_str(), Paint::Error);
        }
    }
    let ghost part3 = failure_strokes(cm, d);
    assert(strokes(out@) =~= before + part1 + part2 + part3);
    put(
        out,
        centre(d, COMPOSE_HINT),
        d.y + d.height - 1,
        monitor::clip(COMPOSE_HINT, d.width as usize).as_str(),
        Paint::Dim,
    );
    proof {
        reveal(compose_rest);
    }
    assert(strokes(out@) =~= before + compose_rest(cm, d, y0, end as int));
}

/// The dialog for a message that is being written.
pub fn compose_area(a: Area, n: usize) -> (d: Area)
    requires
        a.sane(),
        a.height >= 4,
    ensures
        d == compose_box(a, n as int),
        d.x + d.width <= u16::MAX,
        d.y + d.height <= a.y + a.height,
        d.width >= 50,
        2 <= d.height <= 14,
        d.y > a.y,
{
    let few: u16 = if n < 6 {
        n as u16
    } else {
        6
    };
    let h: u16 = if 8 + few < a.height - 2 {
        8 + few
    } else {
        a.height - 2
    };
    let part: u16 = (a.width as u32 * 8 / 10) as u16;
    let w: u16 = if part > 90 {
        90
    } else if part < 50 {
        50
    } else {
        part
    };
    let side: u16 = if a.width > w {
        a.width - w
    } else {
        0
    };
    Area { x: a.x + side / 2, y: a.y + (a.height - h) / 2, width: w, height: h }
}

/// The frame of the dialog.
pub open spec fn compose_frame(c: monitor::ComposeModel, d: Area) -> Seq<Stroke> {
    seq![
        Stroke::Shade,
        Stroke::Fill {
            x: d.x as int,
            y: d.y as int,
            w: d.width as int,
            h: d.height as int,
            paint: Paint::Dialog,
        },
        Stroke::Frame {
            x: d.x as int,
            y: d.y as int,
            w: d.width as int,
            h: d.height as int,
            paint: if c.sending {
                Paint::BusyBorder
            } else {
                Paint::Border
            },
        },
        at(
            middle(d, compose_title(c)),
            d.y as int,
            compose_title(c),
            if c.sending {
                Paint::BusyTitle
            } else {
                Paint::Title
            },
        ),
    ]
}

fn draw_frame(c: &ComposeState, d: Area, out: &mut Vec<Draw>)
    requires
        d.x + d.width <= u16::MAX,
    ensures
        strokes(final(out)@) == strokes(old(out)@) + compose_frame(c@, d),
{
    let ghost before = strokes(out@);
    lay(out, Draw::Shade);
    lay(
        out,
        Draw::Fill { x: d.x, y: d.y, w: d.width, h: d.height, paint: Paint::Dialog },
    );
    lay(
        out,
        Draw::Frame {
            x: d.x,
            y: d.y,
            w: d.width,
            h: d.height,
            paint: if c.sending {
                Paint::BusyBorder
            } else {
                Paint::Border
            },
        },
    );
    let title = if c.sending {
        " Sending\u{2026} "
    } else if c.reply_hash.is_some() {
        " Reply "
    } else {
        " New Message "
    };
    put(
        out,
        centre(d, title),
        d.y,
        title,
        if c.sending {
            Paint::BusyTitle
        } else {
            Paint::Title
        },
    );
    assert(strokes(out@) =~= before + compose_frame(c@, d));
}

fn draw_label(c: &ComposeState, x: u16, y: u16, end: u16, w: u16, out: &mut Vec<Draw>) -> (r: u16)
    ensures
        strokes(final(out)@) == strokes(old(out)@) + label_strokes(
            x as int,
            y as int,
            end as int,
            monitor::clipped(count_label(c@), w as nat),
            c.focused == ComposeField::Recipients,
        ),
        r == next_row(y as int, end as int),
{
    let ghost before = strokes(out@);
    if y < end {
        let mut label = text::glue3(
            "Recipients: ",
            text::count(count_true(&c.selected)).as_str(),
            "/",
        );
        assert(c@.workers.len() == c.workers@.len());
        label.append(text::count(c.workers.len()).as_str());
        label.append(" selected  (Space toggle, a all/none)");
        let listing = c.focused == ComposeField::Recipients;
        put(
            out,
            x,
            y,
            monitor::clip(label.as_str(), w as usize).as_str(),
            if listing {
                Paint::Me
            } else {
                Paint::Dim
            },
        );
        assert(strokes(out@) =~= before + label_strokes(
            x as int,
            y as int,
            end as int,
            monitor::clipped(count_label(c@), w as nat),
            listing,
        ));
        y + 1
    } else {
        assert(before + Seq::<Stroke>::empty() =~= before);
        y
    }
}

fn draw_choices(
    c: &ComposeState,
    me: &str,
    rows: usize,
    scroll: usize,
    visible: usize,
    x: u16,
    y: u16,
    w: u16,
    out: &mut Vec<Draw>,
)
    requires
        rows > 0 ==> scroll + rows <= c.workers.len(),
        visible > 0,
        y + rows <= u16::MAX,
    ensures
        strokes(final(out)@) == strokes(old(out)@) + choices_strokes(
            c@,
            me@,
            rows as int,
            scroll as int,
            visible as int,
            x as int,
            y as int,
            w as int,
        ),
{
    let ghost cm = c@;
    let fewest = monitor::least_capacitated(&c.workers, me);
    let mut i: usize = 0;
    let ghost base = strokes(out@);
    assert(base + Seq::<Stroke>::empty() =~= base);
    while i < rows
        invariant
            i <= rows,
            rows > 0 ==> scroll + rows <= c.workers.len(),
            visible > 0,
            y + rows <= u16::MAX,
            cm == c@,
            text::opt_text(fewest) == monitor::least_name(cm.workers, me@),
            strokes(out@) == base + choices_strokes(
                cm,
                me@,
                i as int,
                scroll as int,
                visible as int,
                x as int,
                y as int,
                w as int,
            ),
        decreases rows - i,
    {
        let ghost done = choices_strokes(
            cm,
            me@,
            i as int,
            scroll as int,
            visible as int,
            x as int,
            y as int,
            w as int,
        );
        choice(c, &fewest, me, scroll + i, scroll, visible, x, y + i as u16, w, out);
        let ghost row = choice_strokes(
            cm,
            me@,
            scroll + i,
            scroll as int,
            visible as int,
            x as int,
            y + i,
            w as int,
        );
        assert(base + done + row =~= base + (done + row));
        i += 1;
    }
}

/// Draws the dialog for a message that is being written.
pub fn render_compose(c: &ComposeState, me: &str, a: Area, out: &mut Vec<Draw>)
    requires
        a.sane(),
        a.height >= 4,
    ensures
        strokes(final(out)@) == strokes(old(out)@) + compose_strokes(c@, me@, a),
{
    let ghost before = strokes(out@);
    let ghost cm = c@;
    let n: usize = c.workers.len();
    assert(cm.workers.len() == n);
    let d = compose_area(a, n);
    let x: u16 = d.x + 2;
    let w: u16 = d.width - 4;
    let end: u16 = d.y + d.height - 1;
    draw_frame(c, d, out);
    let y: u16 = draw_label(c, x, d.y + 2, end, w, out);
    let room: usize = if end > y + 4 {
        (end - (y + 4)) as usize
    } else {
        0
    };
    let fitting: usize = if room < n {
        room
    } else {
        n
    };
    let visible: usize = if fitting > 1 {
        fitting
    } else {
        1
    };
    assert(visible == list_rows(n as int, y as int, end as int));
    let scroll: usize = monitor::scroll_to(c.list_cursor, c.list_scroll, visible);
    let left: usize = if n > scroll {
        n - scroll
    } else {
        0
    };
    let some: usize = if visible < left {
        visible
    } else {
        left
    };
    let gap: usize = if end > y {
        (end - y) as usize
    } else {
        0
    };
    let rows: usize = if some < gap {
        some
    } else {
        gap
    };
    assert(rows == drawn_rows(n as int, scroll as int, visible as int, y as int, end as int));
    draw_choices(c, me, rows, scroll, visible, x, y, w, out);
    rest_of_compose(c, d, y + rows as u16 + 1, end, out);
    proof {
        reveal(compose_strokes);
        let frame = compose_frame(cm, d);
        let label = label_strokes(
            x as int,
            d.y + 2,
            end as int,
            monitor::clipped(count_label(cm), w as nat),
            cm.focused == ComposeField::Recipients,
        );
        let choices = choices_strokes(
            cm,
            me@,
            rows as int,
            scroll as int,
            visible as int,
            x as int,
            y as int,
            w as int,
        );
        let rest = compose_rest(cm, d, y + rows + 1, end as int);
        assert(compose_strokes(cm, me@, a) == frame + label + choices + rest);
        assert(before + frame + label + choices + rest =~= before + (frame + label + choices
            + rest));
    }
}

// ── One message ─────────────────────────────────────────────────────────────
/// The dialog for a message that is read.
pub open spec fn reader_box(a: Area) -> Area {
    let w = most_of(least_of(a.width as int * 7 / 10, 100), 50);
    let h = least_of(most_of(a.height as int * 7 / 10, 10), minus(a.height as int, 4));
    Area {
        x: (a.x + minus(a.width as int, w) / 2) as u16,
        y: (a.y + minus(a.height as int, h) / 2) as u16,
        width: w as u16,
        height: h as u16,
    }
}

/// Who wrote to whom, in full.
pub open spec fn long_direction(m: monitor::Note, me: Seq<char>) -> Seq<char> {
    if m.recipient == me {
        "From: @"@ + m.sender + "  \u{2192}  you"@
    } else {
        "you  \u{2192}  @"@ + m.recipient
    }
}

/// A line, where there is room for it and something to say.
pub open spec fn line_strokes(x: int, y: int, end: int, s: Seq<char>, w: int, there: bool) -> Seq<
    Stroke,
> {
    if there && y < end {
        seq![at(x, y, monitor::clipped(s, w as nat), Paint::Dim)]
    } else {
        Seq::empty()
    }
}

/// The next row, where a line was drawn.
pub open spec fn row_behind(y: int, end: int, there: bool) -> int {
    if there && y < end {
        y + 1
    } else {
        y
    }
}

/// The row in which the text of a message begins.
pub open spec fn text_row(m: monitor::Note, d: Area) -> int {
    let end = d.y + d.height - 2;
    let y1 = row_behind(d.y + 3, end, true);
    let y2 = row_behind(y1, end, true);
    let y3 = row_behind(y2, end, m.refs.len() > 0);
    row_behind(y3, end, true)
}

/// What stands above the text of a message.
#[verifier::opaque]
pub open spec fn reader_head(m: monitor::Note, me: Seq<char>, d: Area) -> Seq<Stroke> {
    let x = d.x + 2;
    let w = d.width - 4;
    let end = d.y + d.height - 2;
    let y1 = row_behind(d.y + 3, end, true);
    let y2 = row_behind(y1, end, true);
    let y3 = row_behind(y2, end, m.refs.len() > 0);
    seq![
        Stroke::Shade,
        Stroke::Fill {
            x: d.x as int,
            y: d.y as int,
            w: d.width as int,
            h: d.height as int,
            paint: Paint::Dialog,
        },
        Stroke::Frame {
            x: d.x as int,
            y: d.y as int,
            w: d.width as int,
            h: d.height as int,
            paint: Paint::Border,
        },
        at(middle(d, " Message Detail "@), d.y as int, " Message Detail "@, Paint::Title),
        at(x, d.y + 2, monitor::clipped(long_direction(m, me), w as nat), Paint::Incoming),
    ] + line_strokes(
        x,
        d.y + 3,
        end,
        "Time:  "@ + clock::shown(m.timestamp, "%Y-%m-%d %H:%M:%S UTC"@),
        w,
        true,
    ) + line_strokes(x, y1, end, "Hash:  "@ + m.hash, w, true) + line_strokes(
        x,
        y2,
        end,
        "Refs:  "@ + text::joined(m.refs, ", "@),
        w,
        m.refs.len() > 0,
    ) + line_strokes(x, y3, end, rule(w), w, true)
}

/// The first `n` lines of a text behind the one that is scrolled to.
pub open spec fn text_strokes(
    lines: Seq<Seq<char>>,
    scroll: int,
    n: int,
    x: int,
    y: int,
    w: int,
) -> Seq<
    Stroke,
>
    decreases n,
{
    if n <= 0 {
        Seq::empty()
    } else {
        text_strokes(lines, scroll, n - 1, x, y, w).push(
            at(
                x,
                y + n - 1,
                monitor::clipped(lines[scroll + n - 1], w as nat),
                Paint::White,
            ),
        )
    }
}

/// What can be done with a message that is read: how far it is scrolled is said where it does not
/// fit.
pub open spec fn reader_hint(total: int, visible: int, scroll: int) -> Seq<char> {
    if total > visible {
        " \u{2191}\u{2193}/jk/PgUp/PgDn Scroll ("@ + text::decimal(
            (scroll * 100 / (total - visible)) as nat,
        ) + "%)  [Esc] Close "@
    } else {
        " [Esc] Close "@
    }
}

/// How far a message is scrolled, once it is known how long it is and how much can be seen.
pub open spec fn settled_reader(scroll: nat, total: nat, visible: nat) -> nat {
    let last = monitor::last_scroll(total, visible);
    if scroll < last {
        scroll
    } else {
        last
    }
}

/// The dialog for a message that is read.
pub open spec fn reader_strokes(
    m: monitor::Note,
    me: Seq<char>,
    scroll: nat,
    a: Area,
) -> Seq<Stroke> {
    let d = reader_box(a);
    let w = d.width - 4;
    let end = d.y + d.height - 2;
    let y = text_row(m, d);
    let lines = monitor::wrapped(m.content, w as nat);
    let visible = minus(end, y);
    let s = settled_reader(scroll, lines.len(), visible as nat) as int;
    let hint = reader_hint(lines.len() as int, visible, s);
    (reader_head(m, me, d) + text_strokes(
        lines,
        s,
        least_of(visible, lines.len() - s),
        d.x + 2,
        y,
        w,
    )).push(at(middle(d, hint), d.y + d.height - 1, hint, Paint::Dim))
}

fn line(out: &mut Vec<Draw>, x: u16, y: u16, end: u16, s: &str, w: u16, there: bool) -> (r: u16)
    ensures
        strokes(final(out)@) == strokes(old(out)@) + line_strokes(
            x as int,
            y as int,
            end as int,
            s@,
            w as int,
            there,
        ),
        r == row_behind(y as int, end as int, there),
{
    let ghost before = strokes(out@);
    if there && y < end {
        put(out, x, y, monitor::clip(s, w as usize).as_str(), Paint::Dim);
        assert(strokes(out@) =~= before + line_strokes(
            x as int,
            y as int,
            end as int,
            s@,
            w as int,
            there,
        ));
        y + 1
    } else {
        assert(before + Seq::<Stroke>::empty() =~= before);
        y
    }
}

fn head_of_reader(m: &Message, me: &str, d: Area, out: &mut Vec<Draw>) -> (y: u16)
    requires
        d.x + d.width <= u16::MAX,
        d.y + d.height <= u16::MAX,
        d.y + 3 <= u16::MAX,
        d.width >= 50,
        d.height >= 2,
    ensures
        strokes(final(out)@) == strokes(old(out)@) + reader_head(monitor::note(*m), me@, d),
        y == text_row(monitor::note(*m), d),
{
    let ghost before = strokes(out@);
    let ghost note = monitor::note(*m);
    let x: u16 = d.x + 2;
    let w: u16 = d.width - 4;
    let end: u16 = d.y + d.height - 2;
    lay(out, Draw::Shade);
    lay(
        out,
        Draw::Fill { x: d.x, y: d.y, w: d.width, h: d.height, paint: Paint::Dialog },
    );
    lay(
        out,
        Draw::Frame { x: d.x, y: d.y, w: d.width, h: d.height, paint: Paint::Border },
    );
    put(out, centre(d, " Message Detail "), d.y, " Message Detail ", Paint::Title);
    let who = if text::same(m.recipient.as_str(), me) {
        text::glue3("From: @", m.sender.as_str(), "  \u{2192}  you")
    } else {
        text::glue("you  \u{2192}  @", m.recipient.as_str())
    };
    put(
        out,
        x,
        d.y + 2,
        monitor::clip(who.as_str(), w as usize).as_str(),
        Paint::Incoming,
    );
    let ghost head = strokes(out@).skip(before.len() as int);
    assert(strokes(out@) =~= before + head);
    let time = text::glue("Time:  ", clock::date_and_time(m.timestamp).as_str());
    let y1 = line(out, x, d.y + 3, end, time.as_str(), w, true);
    let hash = text::glue("Hash:  ", m.hash.as_str());
    let y2 = line(out, x, y1, end, hash.as_str(), w, true);
    let refs = text::glue("Refs:  ", text::join(&m.refs, ", ").as_str());
    assert(note.refs.len() == m.refs@.len());
    let y3 = line(out, x, y2, end, refs.as_str(), w, m.refs.len() > 0);
    let sep = text::repeat('\u{2500}', w as usize);
    let y4 = line(out, x, y3, end, sep.as_str(), w, true);
    proof {
        reveal(reader_head);
    }
    assert(strokes(out@) =~= before + reader_head(note, me@, d));
    y4
}

impl Reader {
    /// Draws a message that is read by `me`. A part with fewer than twenty columns or six rows
    /// shows nothing.
    pub fn render(&mut self, m: &Message, me: &str, a: Area) -> (r: Vec<Draw>)
        requires
            a.sane(),
        ensures
            a.width < 20 || a.height < 6 ==> *final(self) == *old(self) && r@.len() == 0,
            a.width >= 20 && a.height >= 6 ==> {
                let d = reader_box(a);
                let y = text_row(monitor::note(*m), d);
                let total = monitor::wrapped(m.content@, (d.width - 4) as nat).len();
                let visible = minus(d.y + d.height - 2, y) as nat;
                &&& strokes(r@) == reader_strokes(
                    monitor::note(*m),
                    me@,
                    old(self).scroll as nat,
                    a,
                )
                &&& final(self).scroll == settled_reader(old(self).scroll as nat, total, visible)
                &&& final(self).total_lines == total
                &&& final(self).visible_rows == visible
            },
    {
        let mut out: Vec<Draw> = Vec::new();
        if a.width < 20 || a.height < 6 {
            return out;
        }
        let ghost note = monitor::note(*m);
        let part: u16 = (a.width as u32 * 7 / 10) as u16;
        let w: u16 = if part > 100 {
            100
        } else if part < 50 {
            50
        } else {
            part
        };
        let tall: u16 = (a.height as u32 * 7 / 10) as u16;
        let least: u16 = if tall > 10 {
            tall
        } else {
            10
        };
        let h: u16 = if least < a.height - 4 {
            least
        } else {
            a.height - 4
        };
        let side: u16 = if a.width > w {
            a.width - w
        } else {
            0
        };
        let d = Area { x: a.x + side / 2, y: a.y + (a.height - h) / 2, width: w, height: h };
        assert(d == reader_box(a));
        let y = head_of_reader(m, me, d, &mut out);
        let iw: u16 = d.width - 4;
        let end: u16 = d.y + d.height - 2;
        let lines = monitor::wrap_text(m.content.as_str(), iw as usize);
        let ghost ls = text::texts(lines@);
        assert(ls.len() == lines@.len());
        let visible: usize = if end > y {
            (end - y) as usize
        } else {
            0
        };
        self.fit(lines.len(), visible);
        let scroll: usize = self.scroll;
        let left: usize = lines.len() - scroll;
        let n: usize = if visible < left {
            visible
        } else {
            left
        };
        let ghost base = strokes(out@);
        let mut i: usize = 0;
        assert(base + Seq::<Stroke>::empty() =~= base);
        while i < n
            invariant
                i <= n,
                scroll + n <= lines.len(),
                ls == text::texts(lines@),
                y + n <= u16::MAX,
                d.x + 2 <= u16::MAX,
                strokes(out@) == base + text_strokes(
                    ls,
                    scroll as int,
                    i as int,
                    d.x + 2,
                    y as int,
                    iw as int,
                ),
            decreases n - i,
        {
            let ghost done = text_strokes(
                ls,
                scroll as int,
                i as int,
                d.x + 2,
                y as int,
                iw as int,
            );
            let s = monitor::clip(lines[scroll + i].as_str(), iw as usize);
            assert(ls[scroll + i] == lines@[scroll + i]@);
            put(&mut out, d.x + 2, y + i as u16, s.as_str(), Paint::White);
            let ghost one = at(d.x + 2, y + i, s@, Paint::White);
            assert((base + done).push(one) =~= base + done.push(one));
            i += 1;
        }
        let hint = if lines.len() > visible {
            let last: usize = lines.len() - visible;
            let part: u128 = scroll as u128 * 100;
            assert(part as int / last as int <= 100) by (nonlinear_arith)
                requires
                    0 <= part <= last * 100,
                    last > 0,
            ;
            let pct: u64 = (part / last as u128) as u64;
            text::glue3(
                " \u{2191}\u{2193}/jk/PgUp/PgDn Scroll (",
                text::number(pct).as_str(),
                "%)  [Esc] Close ",
            )
        } else {
            " [Esc] Close ".to_owned()
        };
        put(
            &mut out,
            centre(d, hint.as_str()),
            d.y + d.height - 1,
            hint.as_str(),
            Paint::Dim,
        );
        assert(strokes(out@) == reader_strokes(note, me@, old(self).scroll as nat, a));
        out
    }
}

// ── Laws ────────────────────────────────────────────────────────────────────
/// The selected message is among those that are drawn, wherever there is a row for one.
pub proof fn the_selection_is_drawn(s: monitor::ScreenModel, a: Area)
    requires
        s.cursor < s.messages.len(),
        message_rows(a, s.workers.len() as int) > 0,
    ensures
        ({
            let t = settled(s, a);
            t.scroll <= s.cursor < t.scroll + shown_messages(
                t,
                message_rows(a, s.workers.len() as int),
            )
        }),
{
}

/// A click on a row in which a message is drawn selects that message.
pub proof fn clicks_hit_what_is_drawn(s: monitor::ScreenModel, a: Area, i: int)
    requires
        a.sane(),
        a.height >= 4,
        s.workers.len() <= u16::MAX,
        0 <= i < shown_messages(settled(s, a), message_rows(a, s.workers.len() as int)),
    ensures
        monitor::clicked(
            settled(s, a),
            (panel_y(a, s.workers.len() as int) + 3 + i) as u16,
        ) == Some(settled(s, a).scroll + i),
{
}

/// A message that is read is never scrolled beyond its end.
pub proof fn readers_stay_inside(scroll: nat, total: nat, visible: nat)
    ensures
        settled_reader(scroll, total, visible) <= total,
        total > visible ==> settled_reader(scroll, total, visible) + visible <= total,
{
}

/// Every worker has its row in the roster: the rows follow each other line by line, in order.
pub proof fn each_worker_has_its_row(
    v: Seq<Who>,
    n: int,
    me: Seq<char>,
    now: Timestamp,
    x: int,
    y: int,
    role_w: int,
    i: int,
)
    requires
        0 <= i < n,
    ensures
        roster_strokes(v, n, me, now, x, y, role_w).len() == 8 * n,
        roster_strokes(v, n, me, now, x, y, role_w).subrange(8 * i, 8 * i + 8) == worker_strokes(
            v[i],
            me,
            monitor::least_name(v, me),
            now,
            x,
            y + i,
            role_w,
        ),
    decreases n,
{
    reveal(worker_strokes);
    let all = roster_strokes(v, n, me, now, x, y, role_w);
    let front = roster_strokes(v, n - 1, me, now, x, y, role_w);
    let last = worker_strokes(
        v[n - 1],
        me,
        monitor::least_name(v, me),
        now,
        x,
        y + n - 1,
        role_w,
    );
    assert(last.len() == 8);
    if n == 1 {
        assert(front.len() == 0);
    } else if i < n - 1 {
        each_worker_has_its_row(v, n - 1, me, now, x, y, role_w, i);
    } else {
        each_worker_has_its_row(v, n - 1, me, now, x, y, role_w, 0);
    }
    assert(all == front + last);
    if i < n - 1 {
        assert(all.subrange(8 * i, 8 * i + 8) =~= front.subrange(8 * i, 8 * i + 8));
    } else {
        assert(all.subrange(8 * i, 8 * i + 8) =~= last);
    }
}

/// The row of a worker tells its name, its role or that it has none, when it was seen and how much it
/// wrote; a star marks the one with the fewest messages, and another mark oneself.
pub proof fn rows_tell_the_worker(
    w: Who,
    me: Seq<char>,
    fewest: Option<Seq<char>>,
    now: Timestamp,
    x: int,
    y: int,
    role_w: int,
)
    ensures
        ({
            let s = worker_strokes(w, me, fewest, now, x, y, role_w);
            &&& s.contains(
                Stroke::Text {
                    x: x + 2,
                    y,
                    text: monitor::fitted(worker_name(w, me, fewest), 18),
                    paint: if w.id == me {
                        Paint::Me
                    } else {
                        Paint::Other
                    },
                },
            )
            &&& w.role.len() > 0 ==> s.contains(
                Stroke::Text {
                    x: x + 23,
                    y,
                    text: monitor::fitted(
                        monitor::clipped(w.role, role_w as nat),
                        role_w as nat,
                    ),
                    paint: Paint::White,
                },
            )
            &&& s.contains(
                Stroke::Text {
                    x: x + 26 + role_w,
                    y,
                    text: monitor::fitted(
                        monitor::clipped(clock::age_text(clock::elapsed(now, w.last_seen)), 10),
                        10,
                    ),
                    paint: Paint::Dim,
                },
            )
            &&& w.count > 0 ==> s.contains(
                Stroke::Text {
                    x: x + 39 + role_w,
                    y,
                    text: monitor::fitted(
                        monitor::clipped(text::decimal(w.count) + " msgs"@, 8),
                        8,
                    ),
                    paint: Paint::Dim,
                },
            )
        }),
        ("@"@ + w.id).is_prefix_of(worker_name(w, me, fewest)),
        fewest == Some(w.id) && w.id != me ==> worker_name(w, me, fewest) == "@"@ + w.id
            + " \u{2605}"@,
        fewest != Some(w.id) && w.id == me ==> worker_name(w, me, fewest) == "@"@ + w.id
            + " \u{25c0}"@,
        fewest != Some(w.id) && w.id != me ==> worker_name(w, me, fewest) == "@"@ + w.id,
{
    reveal(worker_strokes);
    let s = worker_strokes(w, me, fewest, now, x, y, role_w);
    assert(s.contains(s[1]) && s.contains(s[3]) && s.contains(s[5]) && s.contains(s[7]));
    let n = worker_name(w, me, fewest);
    let a = "@"@ + w.id;
    let none = Seq::<char>::empty();
    assert(a =~= n.subrange(0, a.len() as int));
    assert(a + none =~= a);
    assert(a + " \u{2605}"@ + none =~= a + " \u{2605}"@);
}

/// Of every message drawn its content stands in its own line, the newest first; the selected one, and
/// no other, is highlighted.
pub proof fn each_message_has_its_row(
    s: monitor::ScreenModel,
    n: int,
    x: int,
    y: int,
    dir_w: int,
    content_w: int,
    i: int,
)
    requires
        0 <= i < n,
    ensures
        ({
            let all = messages_strokes(s, n, x, y, dir_w, content_w);
            let m = s.messages[s.messages.len() - 1 - (s.scroll + i)];
            let here = s.scroll + i == s.cursor;
            &&& all.contains(
                Stroke::Text {
                    x: x + 16 + dir_w,
                    y: y + i,
                    text: monitor::front(m.content, content_w as nat),
                    paint: if here {
                        Paint::Bright
                    } else {
                        Paint::White
                    },
                },
            )
            &&& all.contains(
                Stroke::Text {
                    x: x + 2,
                    y: y + i,
                    text: monitor::fitted(
                        monitor::clipped(direction(m, s.me), dir_w as nat),
                        dir_w as nat,
                    ),
                    paint: if here {
                        Paint::Selected
                    } else if m.recipient == s.me {
                        Paint::Incoming
                    } else {
                        Paint::Outgoing
                    },
                },
            )
            &&& all.contains(
                Stroke::Text {
                    x: x + 5 + dir_w,
                    y: y + i,
                    text: monitor::fitted(clock::shown(m.timestamp, "%H:%M:%S"@), 8),
                    paint: if here {
                        Paint::SelectedTime
                    } else {
                        Paint::Dim
                    },
                },
            )
            &&& all.contains(Stroke::Highlight { y: y + i }) <==> here
        }),
    decreases n,
{
    reveal(message_strokes);
    let all = messages_strokes(s, n, x, y, dir_w, content_w);
    let front = messages_strokes(s, n - 1, x, y, dir_w, content_w);
    let place = s.scroll + n - 1;
    let row = message_strokes(
        s.messages[s.messages.len() - 1 - place],
        s.me,
        place == s.cursor,
        x,
        y + n - 1,
        dir_w,
        content_w,
    );
    assert(all == front + row);
    let k: int = if place == s.cursor {
        1
    } else {
        0
    };
    if i < n - 1 {
        each_message_has_its_row(s, n - 1, x, y, dir_w, content_w, i);
        assert forall|e: Stroke| front.contains(e) implies #[trigger] all.contains(e) by {
            let j = choose|j: int| 0 <= j < front.len() && front[j] == e;
            assert(all[j] == e);
        }
        let h = Stroke::Highlight { y: y + i };
        if all.contains(h) && !front.contains(h) {
            let j = choose|j: int| 0 <= j < all.len() && all[j] == h;
            if j < front.len() {
                assert(front[j] == h);
            } else {
                assert(row[j - front.len()] == h);
            }
        }
    } else {
        let f = front.len() as int;
        assert(all[f + k + 1] == row[k + 1]);
        assert(all[f + k + 3] == row[k + 3]);
        assert(all[f + k + 5] == row[k + 5]);
        let h = Stroke::Highlight { y: y + i };
        if place == s.cursor {
            assert(all[f] == row[0]);
        }
        if all.contains(h) {
            let j = choose|j: int| 0 <= j < all.len() && all[j] == h;
            if j < front.len() {
                highlights_stay_above(s, n - 1, x, y, dir_w, content_w, j);
                assert(front[j] == h);
            } else {
                assert(row[j - front.len()] == h);
            }
        }
    }
}

proof fn highlights_stay_above(
    s: monitor::ScreenModel,
    n: int,
    x: int,
    y: int,
    dir_w: int,
    content_w: int,
    j: int,
)
    requires
        0 <= j < messages_strokes(s, n, x, y, dir_w, content_w).len(),
    ensures
        messages_strokes(s, n, x, y, dir_w, content_w)[j] matches Stroke::Highlight { y: h } ==> h
            < y + n,
    decreases n,
{
    reveal(message_strokes);
    if n > 0 {
        let front = messages_strokes(s, n - 1, x, y, dir_w, content_w);
        if j < front.len() {
            highlights_stay_above(s, n - 1, x, y, dir_w, content_w, j);
        }
    }
}

/// A message to oneself is shown with its sender, any other with its recipient.
pub proof fn directions_name_the_other_side(m: monitor::Note, me: Seq<char>)
    ensures
        m.recipient == me ==> direction(m, me) == "@"@ + m.sender + " \u{2192} you"@,
        m.recipient != me ==> direction(m, me) == "you \u{2192} @"@ + m.recipient,
        m.recipient == me ==> text::holds(long_direction(m, me), "@"@ + m.sender),
        m.recipient != me ==> m.recipient.is_suffix_of(long_direction(m, me)),
{
    let l = long_direction(m, me);
    if m.recipient == me {
        reveal_strlit("From: @");
        reveal_strlit("From: ");
        reveal_strlit("@");
        assert("From: @"@ =~= "From: "@ + "@"@);
        text::middle_is_held("From: "@, "@"@ + m.sender, "  \u{2192}  you"@);
        assert("From: "@ + ("@"@ + m.sender) + "  \u{2192}  you"@ =~= l);
    } else {
        assert(m.recipient =~= l.subrange(l.len() - m.recipient.len(), l.len() as int));
    }
}

/// The longest name is as long as some sender's or recipient's, and none is longer.
pub proof fn no_name_is_longer(v: Seq<monitor::Note>, i: int)
    ensures
        0 <= i < v.len() ==> text::byte_len(v[i].sender) <= longest_name(v) && text::byte_len(
            v[i].recipient,
        ) <= longest_name(v),
        v.len() == 0 ==> longest_name(v) == 0,
        v.len() > 0 ==> exists|k: int|
            0 <= k < v.len() && (longest_name(v) == text::byte_len((#[trigger] v[k]).sender)
                || longest_name(v) == text::byte_len(v[k].recipient)),
    decreases v.len(),
{
    if v.len() > 0 {
        let init = v.drop_last();
        no_name_is_longer(init, i);
        assert(v[v.len() - 1] == v.last());
        if 0 <= i < init.len() {
            assert(init[i] == v[i]);
        }
        if init.len() > 0 && longest_name(v) == longest_name(init) {
            let k = choose|k: int|
                0 <= k < init.len() && (longest_name(init) == text::byte_len(
                    (#[trigger] init[k]).sender,
                ) || longest_name(init) == text::byte_len(init[k].recipient));
            assert(v[k] == init[k]);
        }
    }
}

/// The columns share the width: the column of directions takes what the names need, from sixteen to
/// thirty, and roles and contents take the rest, but never less than they need.
pub proof fn columns_share_the_width(w: int, v: Seq<monitor::Note>, me: Seq<char>)
    ensures
        w >= 55 ==> role_width(w) == w - 47,
        w < 55 ==> role_width(w) == 8,
        16 <= direction_width(v, me) <= 30,
        16 <= longest_name(v) + 8 <= 30 && text::byte_len(me) <= longest_name(v)
            ==> direction_width(v, me) == longest_name(v) + 8,
        w >= direction_width(v, me) + 26 ==> content_width(w, direction_width(v, me)) + 16
            + direction_width(v, me) == w,
        w < direction_width(v, me) + 26 ==> content_width(w, direction_width(v, me)) == 10,
{
}

/// The parts of the screen share its height: no row of it is drawn twice, and none is left over where
/// both tables fit.
pub proof fn panels_share_the_height(a: Area, n: int)
    requires
        a.height >= 4,
        n >= 0,
    ensures
        roster_rows(a, n) <= n,
        n <= 2 ==> roster_rows(a, n) == n,
        a.height >= 10 ==> roster_rows(a, n) <= a.height - 8,
        a.height >= 10 && n >= a.height - 8 ==> roster_rows(a, n) == a.height - 8,
        a.height >= 10 && n <= a.height - 8 ==> roster_rows(a, n) == n,
        panel_y(a, n) == a.y + 4 + roster_rows(a, n),
        a.height >= 8 + roster_rows(a, n) ==> panel_y(a, n) + 3 + message_rows(a, n) == a.y
            + a.height - 1,
{
}

/// What stands at the bottom: an error before anything else, then what is to be said, then the keys.
pub proof fn errors_are_shown_first(s: monitor::ScreenModel, a: Area)
    ensures
        s.error matches Some(e) ==> footer(s) == " Error: "@ + e,
        s.error is None && s.status is Some ==> footer(s) == " "@ + s.status->0,
        s.error is None && s.status is None ==> footer(s) == FOOTER@,
        footer_strokes(s, a).contains(
            Stroke::Text {
                x: a.x as int,
                y: a.y + a.height - 1,
                text: monitor::clipped(footer(s), a.width as nat),
                paint: if s.error is Some {
                    Paint::Error
                } else {
                    Paint::Dim
                },
            },
        ),
        header_strokes(s, a).contains(
            Stroke::Text {
                x: a.x as int,
                y: a.y as int,
                text: monitor::clipped(
                    " collab monitor  @"@ + s.me + "  "@ + s.server,
                    a.width as nat,
                ),
                paint: Paint::Header,
            },
        ),
{
    reveal(footer_strokes);
    reveal(header_strokes);
    let f = footer_strokes(s, a);
    let h = header_strokes(s, a);
    assert(f.contains(f[1]));
    assert(h.contains(h[1]));
}

/// A screen holds everything that belongs to it: the roster, the messages, what stands at the top and
/// at the bottom, and the message being written on top of all where there is one.
pub proof fn screens_are_whole(s: monitor::ScreenModel, a: Area, now: Timestamp, e: Stroke)
    ensures
        ({
            let n = s.workers.len() as int;
            let all = screen_strokes(s, a, now);
            let dir_w = direction_width(s.messages, s.me);
            &&& header_strokes(s, a).contains(e) ==> all.contains(e)
            &&& roster_strokes(
                s.workers,
                roster_rows(a, n),
                s.me,
                now,
                a.x as int,
                a.y + 4,
                role_width(a.width as int),
            ).contains(e) ==> all.contains(e)
            &&& messages_strokes(
                s,
                shown_messages(s, message_rows(a, n)),
                a.x as int,
                panel_y(a, n) + 3,
                dir_w,
                content_width(a.width as int, dir_w),
            ).contains(e) ==> all.contains(e)
            &&& footer_strokes(s, a).contains(e) ==> all.contains(e)
            &&& s.compose matches Some(c) ==> compose_strokes(c, s.me, a).is_suffix_of(all)
            &&& s.compose is None ==> footer_strokes(s, a).is_suffix_of(all)
        }),
{
    let n = s.workers.len() as int;
    let role_w = role_width(a.width as int);
    let dir_w = direction_width(s.messages, s.me);
    let content_w = content_width(a.width as int, dir_w);
    let my = panel_y(a, n);
    let p0 = header_strokes(s, a);
    let p1 = roster_head(a, s.workers.len());
    let p2 = roster_strokes(
        s.workers,
        roster_rows(a, n),
        s.me,
        now,
        a.x as int,
        a.y + 4,
        role_w,
    );
    let p3 = messages_head(a, my, s.messages.len(), dir_w, content_w);
    let p4 = messages_strokes(
        s,
        shown_messages(s, message_rows(a, n)),
        a.x as int,
        my + 3,
        dir_w,
        content_w,
    );
    let p5 = footer_strokes(s, a);
    let p6 = match s.compose {
        Some(c) => compose_strokes(c, s.me, a),
        None => Seq::empty(),
    };
    let all = screen_strokes(s, a, now);
    let a2 = p0 + p1 + p2;
    let a4 = a2 + p3 + p4;
    let a5 = a4 + p5;
    assert(all == a5 + p6);
    drawn_first(p0, p1, e);
    drawn_first(p0 + p1, p2, e);
    drawn_first(a2, p3, e);
    drawn_first(a2 + p3, p4, e);
    drawn_first(a4, p5, e);
    drawn_first(a5, p6, e);
    if p6.len() == 0 {
        assert(all =~= a5);
    }
    assert(p6 =~= all.subrange(all.len() - p6.len(), all.len() as int));
    if s.compose is None {
        assert(p5 =~= all.subrange(all.len() - p5.len(), all.len() as int));
    }
}

proof fn drawn_first(a: Seq<Stroke>, b: Seq<Stroke>, e: Stroke)
    ensures
        a.contains(e) ==> (a + b).contains(e),
        b.contains(e) ==> (a + b).contains(e),
{
    let all = a + b;
    if a.contains(e) {
        let i = choose|i: int| 0 <= i < a.len() && a[i] == e;
        assert(all[i] == e);
    }
    if b.contains(e) {
        let i = choose|i: int| 0 <= i < b.len() && b[i] == e;
        assert(all[a.len() + i] == e);
    }
}

/// A dialog stands in the middle of the screen, fifty to ninety columns wide.
pub proof fn dialogs_stand_in_the_middle(a: Area, n: int)
    requires
        a.sane(),
        a.height >= 6,
        n >= 0,
    ensures
        ({
            let d = compose_box(a, n);
            &&& 50 <= d.width <= 90
            &&& a.width >= 50 ==> 0 <= (a.width - d.width) - 2 * (d.x - a.x) <= 1
            &&& 0 <= (a.height - d.height) - 2 * (d.y - a.y) <= 1
            &&& n <= 6 && a.height >= 10 + n ==> d.height == 8 + n
        }),
        ({
            let d = reader_box(a);
            &&& 50 <= d.width <= 100
            &&& a.width >= 50 ==> 0 <= (a.width - d.width) - 2 * (d.x - a.x) <= 1
            &&& 0 <= (a.height - d.height) - 2 * (d.y - a.y) <= 1
            &&& d.height <= a.height - 4
        }),
{
}

/// A choice is marked exactly where it is selected, and begins with its mark and its name.
pub proof fn choices_show_their_mark(
    c: monitor::ComposeModel,
    me: Seq<char>,
    i: int,
    scroll: int,
    visible: int,
)
    requires
        0 <= i < c.workers.len(),
    ensures
        i < c.selected.len() && c.selected[i] ==> (" ["@ + "\u{2713}"@ + "]"@).is_prefix_of(
            choice_text(c, me, i, scroll, visible),
        ),
        !(i < c.selected.len() && c.selected[i]) ==> (" ["@ + " "@ + "]"@).is_prefix_of(
            choice_text(c, me, i, scroll, visible),
        ),
        text::holds(choice_text(c, me, i, scroll, visible), " @"@ + c.workers[i].id),
        monitor::least_name(c.workers, me) == Some(c.workers[i].id) ==> " \u{2605}"@.is_suffix_of(
            choice_text(c, me, i, scroll, visible),
        ),
{
    let mark = if i < c.selected.len() && c.selected[i] {
        "\u{2713}"@
    } else {
        " "@
    };
    let arrow = if i == scroll && scroll > 0 {
        "\u{2191}"@
    } else if i == scroll + visible - 1 && scroll + visible < c.workers.len() {
        "\u{2193}"@
    } else {
        " "@
    };
    let star = if Some(c.workers[i].id) == monitor::least_name(c.workers, me) {
        " \u{2605}"@
    } else {
        Seq::empty()
    };
    let whole = choice_text(c, me, i, scroll, visible);
    let a = " ["@ + mark + "]"@;
    let id = c.workers[i].id;
    let b = a + arrow;
    assert(whole == b + " @"@ + id + star);
    text::whole_is_front(whole);
    text::front_of_front(b + " @"@ + id, star, whole);
    grouped(b, " @"@, id);
    text::part_of_front(b, " @"@ + id, whole);
    text::front_of_front(b + " @"@, id, whole);
    text::front_of_front(b, " @"@, whole);
    text::front_of_front(a, arrow, whole);
    end_stays(b + " @"@ + id, star);
}

proof fn grouped(a: Seq<char>, b: Seq<char>, c: Seq<char>)
    ensures
        a + b + c == a + (b + c),
{
    assert(a + b + c =~= a + (b + c));
}

proof fn end_stays(a: Seq<char>, b: Seq<char>)
    ensures
        b.is_suffix_of(a + b),
{
    let whole = a + b;
    assert(b =~= whole.subrange(whole.len() - b.len(), whole.len() as int));
}

/// Every choice in view has its line, in order.
pub proof fn each_choice_has_its_line(
    c: monitor::ComposeModel,
    me: Seq<char>,
    n: int,
    scroll: int,
    visible: int,
    x: int,
    y: int,
    w: int,
    i: int,
)
    requires
        0 <= i < n,
    ensures
        exists|p: Paint|
            choices_strokes(c, me, n, scroll, visible, x, y, w).contains(
                #[trigger] at(
                    x,
                    y + i,
                    monitor::clipped(
                        choice_text(c, me, scroll + i, scroll, visible),
                        w as nat,
                    ),
                    p,
                ),
            ),
    decreases n,
{
    reveal(choice_strokes);
    let all = choices_strokes(c, me, n, scroll, visible, x, y, w);
    let front = choices_strokes(c, me, n - 1, scroll, visible, x, y, w);
    let row = choice_strokes(c, me, scroll + n - 1, scroll, visible, x, y + n - 1, w);
    assert(all == front + row);
    if i < n - 1 {
        each_choice_has_its_line(c, me, n - 1, scroll, visible, x, y, w, i);
        let p = choose|p: Paint|
            front.contains(
                #[trigger] at(
                    x,
                    y + i,
                    monitor::clipped(
                        choice_text(c, me, scroll + i, scroll, visible),
                        w as nat,
                    ),
                    p,
                ),
            );
        let e = at(
            x,
            y + i,
            monitor::clipped(choice_text(c, me, scroll + i, scroll, visible), w as nat),
            p,
        );
        drawn_first(front, row, e);
    } else {
        let e = row.last();
        assert(row[row.len() - 1] == e);
        assert(row.contains(e));
        drawn_first(front, row, e);
        assert(e == at(x, y + i, e->Text_text, e->Text_paint));
    }
}

/// The dialog counts who is marked, says what it is for, shows the end of what is written with a
/// cursor where one writes, and what went wrong.
pub proof fn dialogs_tell_their_state(
    c: monitor::ComposeModel,
    d: Area,
    x: int,
    y: int,
    end: int,
    w: int,
)
    ensures
        c.sending ==> compose_title(c) == " Sending\u{2026} "@,
        !c.sending && c.reply_hash is Some ==> compose_title(c) == " Reply "@,
        !c.sending && c.reply_hash is None ==> compose_title(c) == " New Message "@,
        ("Recipients: "@ + text::decimal(count_of(c.selected)) + "/"@ + text::decimal(
            c.workers.len(),
        )).is_prefix_of(count_label(c)),
        y < end && c.focused == ComposeField::Message && w > 0 ==> field_strokes(
            c,
            x,
            y,
            end,
            w,
        ).contains(
            at(x, y, monitor::tail(c.message, (w - 1) as nat) + "|"@, Paint::Field),
        ),
        y < end && c.focused == ComposeField::Recipients ==> field_strokes(
            c,
            x,
            y,
            end,
            w,
        ).contains(at(x, y, monitor::tail(c.message, w as nat), Paint::White)),
        c.error matches Some(e) ==> d.height > 5 ==> failure_strokes(c, d) == seq![
            at(
                d.x + 2,
                d.y + d.height - 3,
                monitor::clipped(e, (d.width - 4) as nat),
                Paint::Error,
            ),
        ],
        c.error is None ==> failure_strokes(c, d).len() == 0,
{
    let l = count_label(c);
    let a = "Recipients: "@ + text::decimal(count_of(c.selected)) + "/"@ + text::decimal(
        c.workers.len(),
    );
    assert(a =~= l.subrange(0, a.len() as int));
    let f = field_strokes(c, x, y, end, w);
    if y < end {
        assert(f.contains(f[1]));
    }
}

/// The lines of a text are drawn one below the other, from where one has scrolled to.
pub proof fn each_line_is_drawn(
    lines: Seq<Seq<char>>,
    scroll: int,
    n: int,
    x: int,
    y: int,
    w: int,
    i: int,
)
    requires
        0 <= i < n,
    ensures
        text_strokes(lines, scroll, n, x, y, w).len() == n,
        text_strokes(lines, scroll, n, x, y, w)[i] == at(
            x,
            y + i,
            monitor::clipped(lines[scroll + i], w as nat),
            Paint::White,
        ),
    decreases n,
{
    if n == 1 {
        assert(text_strokes(lines, scroll, 0, x, y, w).len() == 0);
    } else if i < n - 1 {
        each_line_is_drawn(lines, scroll, n - 1, x, y, w, i);
    } else {
        each_line_is_drawn(lines, scroll, n - 1, x, y, w, 0);
    }
}

/// One may scroll as far as the last page; how far one is, is told in hundredths where there is more
/// than a page.
pub proof fn readers_scroll_to_the_end(scroll: nat, total: nat, visible: nat)
    ensures
        total <= visible ==> settled_reader(scroll, total, visible) == 0,
        total > visible && scroll <= total - visible ==> settled_reader(scroll, total, visible)
            == scroll,
        total > visible && scroll > total - visible ==> settled_reader(scroll, total, visible)
            == total - visible,
        total <= visible ==> reader_hint(total as int, visible as int, scroll as int)
            == " [Esc] Close "@,
        total > visible ==> text::holds(
            reader_hint(total as int, visible as int, scroll as int),
            text::decimal((scroll as int * 100 / (total - visible)) as nat),
        ),
{
    if total > visible {
        let p = text::decimal((scroll as int * 100 / (total - visible)) as nat);
        text::middle_is_held(
            " \u{2191}\u{2193}/jk/PgUp/PgDn Scroll ("@,
            p,
            "%)  [Esc] Close "@,
        );
    }
}

/// A message is read with its direction, its time, its hash and what it refers to above its text,
/// where there is room.
pub proof fn readers_show_the_head(m: monitor::Note, me: Seq<char>, d: Area)
    requires
        d.height >= 9,
    ensures
        ({
            let s = reader_head(m, me, d);
            let w = (d.width - 4) as nat;
            &&& s.contains(
                at(d.x + 2, d.y + 2, monitor::clipped(long_direction(m, me), w), Paint::Incoming),
            )
            &&& s.contains(
                at(
                    d.x + 2,
                    d.y + 3,
                    monitor::clipped(
                        "Time:  "@ + clock::shown(m.timestamp, "%Y-%m-%d %H:%M:%S UTC"@),
                        w,
                    ),
                    Paint::Dim,
                ),
            )
            &&& s.contains(at(d.x + 2, d.y + 4, monitor::clipped("Hash:  "@ + m.hash, w), Paint::Dim))
            &&& m.refs.len() > 0 ==> s.contains(
                at(
                    d.x + 2,
                    d.y + 5,
                    monitor::clipped("Refs:  "@ + text::joined(m.refs, ", "@), w),
                    Paint::Dim,
                ),
            )
            &&& text_row(m, d) == d.y + 6 + (if m.refs.len() > 0 {
                1int
            } else {
                0
            })
        }),
{
    reveal(reader_head);
    let s = reader_head(m, me, d);
    assert(s.contains(s[4]));
    assert(s.contains(s[5]));
    assert(s.contains(s[6]));
    assert(s.contains(s[7]));
}


/// Marks are counted one by one.
pub proof fn each_mark_counts(a: Seq<bool>, b: Seq<bool>, x: bool)
    ensures
        count_of(a + b) == count_of(a) + count_of(b),
        count_of(seq![x]) == (if x {
            1nat
        } else {
            0nat
        }),
    decreases b.len(),
{
    let one = seq![x];
    assert(one.drop_last() =~= Seq::<bool>::empty());
    assert(count_of(one.drop_last()) == 0);
    if b.len() == 0 {
        assert(a + b =~= a);
    } else {
        each_mark_counts(a, b.drop_last(), x);
        assert((a + b).drop_last() =~= a + b.drop_last());
        assert((a + b).last() == b.last());
    }
}

/// The heads of both tables say how much they hold.
pub proof fn tables_say_how_much(a: Area, y: int, n: nat, dir_w: int, content_w: int)
    ensures
        roster_head(a, n).contains(
            at(
                a.x as int,
                a.y + 1,
                title_line("\u{2500} Roster ("@ + text::decimal(n) + " online) "@, a.width as int),
                Paint::Dim,
            ),
        ),
        messages_head(a, y, n, dir_w, content_w).contains(
            at(
                a.x as int,
                y,
                title_line(
                    "\u{2500} Messages ("@ + text::decimal(n) + " in last hour) "@,
                    a.width as int,
                ),
                Paint::Dim,
            ),
        ),
{
    reveal(roster_head);
    reveal(messages_head);
    let r = roster_head(a, n);
    let m = messages_head(a, y, n, dir_w, content_w);
    assert(r.contains(r[0]));
    assert(m.contains(m[0]));
}

/// The dialog is drawn over a shade, and holds its title, its label, the choices in view, what is
/// written and what went wrong.
pub proof fn dialogs_are_whole(c: monitor::ComposeModel, me: Seq<char>, a: Area, e: Stroke)
    ensures
        ({
            let n = c.workers.len() as int;
            let d = compose_box(a, n);
            let x = d.x + 2;
            let w = d.width - 4;
            let end = d.y + d.height - 1;
            let y1 = next_row(d.y + 2, end);
            let visible = list_rows(n, y1, end);
            let scroll = monitor::scrolled(c.cursor, c.scroll, visible as nat) as int;
            let rows = drawn_rows(n, scroll, visible, y1, end);
            let y2 = y1 + rows + 1;
            let all = compose_strokes(c, me, a);
            &&& compose_frame(c, d).is_prefix_of(all)
            &&& all[0] == Stroke::Shade
            &&& choices_strokes(c, me, rows, scroll, visible, x, y1, w).contains(e) ==> all.contains(e)
            &&& field_strokes(c, x, next_row(y2, end), end, w).contains(e) ==> all.contains(e)
            &&& failure_strokes(c, d).contains(e) ==> all.contains(e)
        }),
{
    reveal(compose_strokes);
    reveal(compose_rest);
    let n = c.workers.len() as int;
    let d = compose_box(a, n);
    let x = d.x + 2;
    let w = d.width - 4;
    let end = d.y + d.height - 1;
    let y1 = next_row(d.y + 2, end);
    let visible = list_rows(n, y1, end);
    let scroll = monitor::scrolled(c.cursor, c.scroll, visible as nat) as int;
    let rows = drawn_rows(n, scroll, visible, y1, end);
    let y2 = y1 + rows + 1;
    let all = compose_strokes(c, me, a);
    let f = compose_frame(c, d);
    let l = label_strokes(
        x,
        d.y + 2,
        end,
        monitor::clipped(count_label(c), w as nat),
        c.focused == ComposeField::Recipients,
    );
    let ch = choices_strokes(c, me, rows, scroll, visible, x, y1, w);
    let rest = compose_rest(c, d, y2, end);
    assert(all == f + l + ch + rest);
    assert(f =~= all.subrange(0, f.len() as int));
    drawn_first(f + l, ch, e);
    drawn_first(f + l + ch, rest, e);
    let lab = label_strokes(x, y2, end, "Message:"@, c.focused == ComposeField::Message);
    let fld = field_strokes(c, x, next_row(y2, end), end, w);
    let fail = failure_strokes(c, d);
    let hint = seq![
        at(
            middle(d, COMPOSE_HINT@),
            d.y + d.height - 1,
            monitor::clipped(COMPOSE_HINT@, d.width as nat),
            Paint::Dim,
        ),
    ];
    assert(rest == lab + fld + fail + hint);
    drawn_first(lab, fld, e);
    drawn_first(lab + fld, fail, e);
    drawn_first(lab + fld + fail, hint, e);
}

/// A message being read is drawn with its head, the lines of its text in view, and a hint below.
pub proof fn readers_show_the_text(m: monitor::Note, me: Seq<char>, scroll: nat, a: Area, i: int)
    ensures
        ({
            let d = reader_box(a);
            let w = d.width - 4;
            let y = text_row(m, d);
            let lines = monitor::wrapped(m.content, w as nat);
            let visible = minus(d.y + d.height - 2, y);
            let s = settled_reader(scroll, lines.len(), visible as nat) as int;
            let all = reader_strokes(m, me, scroll, a);
            &&& reader_head(m, me, d).is_prefix_of(all)
            &&& 0 <= i < visible && s + i < lines.len() ==> all.contains(
                at(d.x + 2, y + i, monitor::clipped(lines[s + i], w as nat), Paint::White),
            )
        }),
{
    let d = reader_box(a);
    let w = d.width - 4;
    let y = text_row(m, d);
    let lines = monitor::wrapped(m.content, w as nat);
    let visible = minus(d.y + d.height - 2, y);
    let s = settled_reader(scroll, lines.len(), visible as nat) as int;
    let all = reader_strokes(m, me, scroll, a);
    let head = reader_head(m, me, d);
    let n = least_of(visible, lines.len() - s);
    let body = text_strokes(lines, s, n, d.x + 2, y, w);
    assert(head =~= all.subrange(0, head.len() as int));
    if 0 <= i < visible && s + i < lines.len() {
        each_line_is_drawn(lines, s, n, d.x + 2, y, w, i);
        assert(all[head.len() + i] == body[i]);
    }
}

/// What is centred has as much room before it as behind it.
pub proof fn titles_stand_in_the_middle(d: Area, s: Seq<char>)
    ensures
        text::byte_len(s) <= d.width ==> 0 <= (d.width - text::byte_len(s)) - 2 * (middle(d, s)
            - d.x) <= 1,
        text::byte_len(s) > d.width ==> middle(d, s) == d.x,
{
}

/// The list of messages scrolls just as far as it takes to show the cursor.
pub proof fn screens_scroll_to_the_cursor(cursor: nat, scroll: nat, rows: nat)
    ensures
        rows > 0 ==> screen_scroll(cursor, scroll, rows) <= cursor < screen_scroll(
            cursor,
            scroll,
            rows,
        ) + rows,
        rows > 0 && scroll <= cursor < scroll + rows ==> screen_scroll(cursor, scroll, rows)
            == scroll,
        rows == 0 ==> screen_scroll(cursor, scroll, rows) <= cursor,
{
}

} // verus!
