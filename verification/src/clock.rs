//! Points in time.
use crate::outside;
use crate::text;
use vstd::prelude::*;

verus! {

/// A point in time: seconds since the epoch and nanoseconds within the second.
#[derive(Clone, Copy, PartialEq, Eq, Structural, Debug)]
pub struct Timestamp {
    pub secs: i64,
    pub nanos: u32,
}

/// The first second of year 0.
pub const FIRST_SECOND: i64 = -62_167_219_200;

/// The last second of year 9999.
pub const LAST_SECOND: i64 = 253_402_300_799;

/// A time that can be written with a year of four digits.
pub open spec fn writable(secs: int, nanos: int) -> bool {
    FIRST_SECOND <= secs <= LAST_SECOND && 0 <= nanos < 1_000_000_000
}

/// A number of seconds, cut off to what the type for it holds.
pub open spec fn counted(secs: int) -> int {
    if secs > i64::MAX {
        i64::MAX as int
    } else if secs < i64::MIN {
        i64::MIN as int
    } else {
        secs
    }
}

impl Timestamp {
    /// A time that a clock may show: from the epoch on, with a year of four digits.
    pub open spec fn valid(self) -> bool {
        0 <= self.secs <= LAST_SECOND && self.nanos < 1_000_000_000
    }

    /// Whether a clock may show this time.
    pub fn is_valid(self) -> (r: bool)
        ensures
            r == self.valid(),
    {
        0 <= self.secs && self.secs <= LAST_SECOND && self.nanos < 1_000_000_000
    }

    /// The time as RFC 3339 writes it.
    pub open spec fn text(self) -> Seq<char> {
        outside::rfc3339_text(self.secs as int, self.nanos as int)
    }

    /// The time as RFC 3339 writes it.
    pub fn to_rfc3339(self) -> (r: String)
        requires
            writable(self.secs as int, self.nanos as int),
        ensures
            r@ == self.text(),
            outside::rfc3339_value(r@) == Some((self.secs, self.nanos)),
    {
        outside::to_rfc3339(self.secs, self.nanos)
    }

    /// This time is earlier than `other`.
    pub open spec fn earlier(self, other: Timestamp) -> bool {
        self.secs < other.secs || (self.secs == other.secs && self.nanos < other.nanos)
    }

    /// Whether this time is earlier than `other`.
    pub fn is_before(self, other: Timestamp) -> (r: bool)
        ensures
            r == self.earlier(other),
    {
        self.secs < other.secs || (self.secs == other.secs && self.nanos < other.nanos)
    }

    /// Nanoseconds from the epoch to this time.
    pub open spec fn total(self) -> int {
        self.secs * 1_000_000_000 + self.nanos
    }

    /// Nanoseconds from the epoch to this time.
    pub fn nanoseconds(self) -> (r: i128)
        ensures
            r == self.total(),
    {
        self.secs as i128 * 1_000_000_000 + self.nanos as i128
    }

    /// The time `secs` seconds before this one.
    pub fn minus_seconds(self, secs: i64) -> (r: Timestamp)
        requires
            self.valid(),
            0 <= secs <= 1_000_000,
        ensures
            r.secs == self.secs - secs,
            r.nanos == self.nanos,
            writable(r.secs as int, r.nanos as int),
    {
        Timestamp { secs: self.secs - secs, nanos: self.nanos }
    }

    /// Whole seconds from `other` to this time, cut off towards zero.
    pub open spec fn seconds_after(self, other: Timestamp) -> int {
        let d = self.total() - other.total();
        if d >= 0 {
            d / 1_000_000_000
        } else {
            -((-d) / 1_000_000_000)
        }
    }

    /// Whole seconds from `other` to this time, cut off towards zero and to what the type holds.
    pub fn seconds_since(self, other: Timestamp) -> (r: i64)
        ensures
            r == counted(self.seconds_after(other)),
            self.valid() && other.valid() ==> r == self.seconds_after(other),
    {
        let d: i128 = self.nanoseconds() - other.nanoseconds();
        let s: i128 = if d >= 0 {
            d / 1_000_000_000
        } else {
            -((-d) / 1_000_000_000)
        };
        if s > i64::MAX as i128 {
            i64::MAX
        } else if s < i64::MIN as i128 {
            i64::MIN
        } else {
            s as i64
        }
    }
}

/// The time that a text in RFC 3339 stands for.
pub open spec fn time_of(s: Seq<char>) -> Option<Timestamp> {
    match outside::rfc3339_value(s) {
        Some(p) => Some(Timestamp { secs: p.0, nanos: p.1 }),
        None => None,
    }
}

/// Reads a time in RFC 3339.
pub fn parse_time(s: &str) -> (r: Option<Timestamp>)
    ensures
        r == time_of(s@),
{
    match outside::parse_rfc3339(s) {
        Some(p) => Some(Timestamp { secs: p.0, nanos: p.1 }),
        None => None,
    }
}

/// A time as it is shown under a pattern; empty for a time that no calendar holds.
pub open spec fn shown(t: Timestamp, pattern: Seq<char>) -> Seq<char> {
    match outside::time_shown(t.secs, t.nanos, pattern) {
        Some(s) => s,
        None => Seq::empty(),
    }
}

fn show(t: Timestamp, pattern: &str) -> (r: String)
    requires
        outside::known_pattern(pattern@),
    ensures
        r@ == shown(t, pattern@),
{
    match outside::format_time(t.secs, t.nanos, pattern) {
        Some(s) => s,
        None => String::new(),
    }
}

/// Date and time.
pub fn date_and_time(t: Timestamp) -> (r: String)
    ensures
        r@ == shown(t, "%Y-%m-%d %H:%M:%S UTC"@),
{
    show(t, "%Y-%m-%d %H:%M:%S UTC")
}

/// Date and minute.
pub fn date_and_minute(t: Timestamp) -> (r: String)
    ensures
        r@ == shown(t, "%Y-%m-%d %H:%M UTC"@),
{
    show(t, "%Y-%m-%d %H:%M UTC")
}

/// Time of the day.
pub fn time_of_day(t: Timestamp) -> (r: String)
    ensures
        r@ == shown(t, "%H:%M:%S UTC"@),
{
    show(t, "%H:%M:%S UTC")
}

/// Hours, minutes and seconds.
pub fn hours_and_minutes(t: Timestamp) -> (r: String)
    ensures
        r@ == shown(t, "%H:%M:%S"@),
{
    show(t, "%H:%M:%S")
}

/// How long ago something was, for people: seconds, then minutes, then hours.
pub open spec fn age_text(secs: int) -> Seq<char> {
    let s: nat = if secs < 0 {
        0
    } else {
        secs as nat
    };
    if s < 60 {
        text::decimal(s) + "s ago"@
    } else if s < 3600 {
        text::decimal(s / 60) + "m ago"@
    } else {
        text::decimal(s / 3600) + "h ago"@
    }
}

/// Whole seconds from `t` to `now`; none where `t` is still to come.
pub open spec fn elapsed(now: Timestamp, t: Timestamp) -> int {
    let d = now.total() - t.total();
    if d < 0 {
        0
    } else {
        d / 1_000_000_000
    }
}

/// How long ago a time was.
pub fn age_str(now: Timestamp, t: Timestamp) -> (r: String)
    ensures
        r@ == age_text(elapsed(now, t)),
{
    let d: i128 = now.nanoseconds() - t.nanoseconds();
    let s: i128 = if d < 0 {
        0
    } else {
        d / 1_000_000_000
    };
    if s < 60 {
        text::glue(text::number(s as u64).as_str(), "s ago")
    } else if s < 3600 {
        text::glue(text::number((s / 60) as u64).as_str(), "m ago")
    } else {
        text::glue(text::number((s / 3600) as u64).as_str(), "h ago")
    }
}

/// Earlier is what has fewer nanoseconds behind it.
pub proof fn order_is_that_of_the_clock(a: Timestamp, b: Timestamp)
    requires
        a.nanos < 1_000_000_000,
        b.nanos < 1_000_000_000,
    ensures
        a.earlier(b) <==> a.total() < b.total(),
        a.total() == b.total() <==> a == b,
{
}

/// Seconds between two times are whole ones: what is left over is less than a second.
pub proof fn seconds_are_whole(a: Timestamp, b: Timestamp)
    ensures
        a.total() >= b.total() ==> 0 <= a.total() - b.total() - a.seconds_after(b) * 1_000_000_000
            < 1_000_000_000,
        a.seconds_after(b) == -b.seconds_after(a),
        elapsed(a, b) == (if a.seconds_after(b) > 0 {
            a.seconds_after(b)
        } else {
            0
        }),
{
}

/// An age is told in seconds below a minute, in minutes below an hour, and in hours from there on.
pub proof fn ages_are_told_in_their_unit(secs: int)
    ensures
        0 <= secs < 60 ==> age_text(secs) == text::decimal(secs as nat) + "s ago"@,
        60 <= secs < 3600 ==> age_text(secs) == text::decimal((secs / 60) as nat) + "m ago"@,
        secs >= 3600 ==> age_text(secs) == text::decimal((secs / 3600) as nat) + "h ago"@,
        secs < 0 ==> age_text(secs) == age_text(0),
{
}

} // verus!
