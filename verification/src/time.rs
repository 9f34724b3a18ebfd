//! Time values of the action protocol: a point in time and a signed interval,
//! both held as a pair of seconds and nanoseconds.
//!
//! The mathematical model of either value is its total number of nanoseconds,
//! an `int`. Every contract in this module is stated over that number and over
//! the two fields.

use crate::decimal::{
    all_digits, append_decimal, append_fixed_decimal, decimal, decimal_value, fixed_decimal,
    lemma_decimal_value, lemma_fixed_decimal_value, pow10,
};
use vstd::prelude::*;
use vstd::string::*;

verus! {

/// Nanoseconds in one second.
pub const NANOS_PER_SEC: i64 = 1_000_000_000;

/// The seconds of `n` nanoseconds, rounded toward zero.
pub open spec fn whole_seconds(n: int) -> int {
    if n >= 0 {
        n / 1_000_000_000
    } else {
        -((-n) / 1_000_000_000)
    }
}

/// What is left of `n` nanoseconds beside `whole_seconds(n)`; it has the sign of `n`.
pub open spec fn sub_second(n: int) -> int {
    if n >= 0 {
        n % 1_000_000_000
    } else {
        -((-n) % 1_000_000_000)
    }
}

/// The nanoseconds held by a pair of fields.
pub open spec fn total_nanos(sec: int, nsec: int) -> int {
    sec * 1_000_000_000 + nsec
}

/// `n` nanoseconds make a number of whole seconds that an `i32` holds.
pub open spec fn seconds_fit(n: int) -> bool {
    i32::MIN <= whole_seconds(n) <= i32::MAX
}

/// The absolute value of `n`.
pub open spec fn magnitude(n: int) -> nat {
    if n < 0 {
        (-n) as nat
    } else {
        n as nat
    }
}

/// The text of `n` nanoseconds as decimal seconds: a minus sign where `n` is
/// negative, the whole seconds of the magnitude, a point, and nine digits.
pub open spec fn seconds_text(n: int) -> Seq<char> {
    let m = magnitude(n);
    let sign = if n < 0 {
        seq!['-']
    } else {
        Seq::<char>::empty()
    };
    sign + decimal(m / 1_000_000_000) + seq!['.'] + fixed_decimal(m % 1_000_000_000, 9)
}

/// The nanoseconds that a text of decimal seconds stands for: an optional
/// minus sign, at least one digit, a point, and nine digits.
pub open spec fn parse_seconds_text(text: Seq<char>) -> Option<int> {
    let negative = text.len() > 0 && text[0] == '-';
    let body = if negative {
        text.skip(1)
    } else {
        text
    };
    let whole = body.take(body.len() - 10);
    let fraction = body.skip(body.len() - 9);
    if body.len() >= 11 && body[body.len() - 10] == '.' && all_digits(whole) && all_digits(fraction) {
        let m = decimal_value(whole) * 1_000_000_000 + decimal_value(fraction);
        Some(
            if negative {
                -m
            } else {
                m as int
            },
        )
    } else {
        None
    }
}

/// The fields that stand for `n` nanoseconds. The seconds are cut to 32 bits.
pub fn split_nanos(n: i64) -> (r: (i32, i32))
    ensures
        r.0 == whole_seconds(n as int) as i32,
        r.1 == sub_second(n as int),
        seconds_fit(n as int) ==> total_nanos(r.0 as int, r.1 as int) == n,
{
    let q: i64 = n / NANOS_PER_SEC;
    let m: i64 = n % NANOS_PER_SEC;
    (#[verifier::truncate] (q as i32), m as i32)
}

/// The nanoseconds that a pair of fields stands for.
pub fn join_nanos(sec: i32, nsec: i32) -> (r: i64)
    ensures
        r == total_nanos(sec as int, nsec as int),
{
    (sec as i64) * NANOS_PER_SEC + (nsec as i64)
}

/// The magnitude of `n` as seconds and nanoseconds below one second.
pub fn magnitude_parts(n: i64) -> (r: (u64, u32))
    ensures
        r.0 == magnitude(n as int) / 1_000_000_000,
        r.1 == magnitude(n as int) % 1_000_000_000,
{
    let m: u64 = if n < 0 {
        ((-(n + 1)) as u64) + 1
    } else {
        n as u64
    };
    (m / 1_000_000_000, (m % 1_000_000_000) as u32)
}

/// Writes `n` nanoseconds as decimal seconds with nine digits behind the point.
pub fn format_nanos(n: i64) -> (r: String)
    ensures
        r@ == seconds_text(n as int),
{
    let parts = magnitude_parts(n);
    let mut out = String::new();
    if n < 0 {
        proof {
            reveal_strlit("-");
        }
        out.append("-");
    }
    append_decimal(&mut out, parts.0);
    proof {
        reveal_strlit(".");
    }
    out.append(".");
    append_fixed_decimal(&mut out, parts.1 as u64, 9);
    assert(out@ =~= seconds_text(n as int));
    out
}

/// A point in time, counted from the epoch.
#[derive(Clone, Copy, Debug, PartialEq, Eq, Structural)]
pub struct Time {
    pub sec: i32,
    pub nsec: i32,
}

/// A signed interval of time.
#[derive(Clone, Copy, Debug, PartialEq, Eq, Structural)]
pub struct Duration {
    pub sec: i32,
    pub nsec: i32,
}

impl View for Time {
    type V = int;

    /// The nanoseconds since the epoch.
    open spec fn view(&self) -> int {
        total_nanos(self.sec as int, self.nsec as int)
    }
}

impl View for Duration {
    type V = int;

    /// The length of the interval in nanoseconds.
    open spec fn view(&self) -> int {
        total_nanos(self.sec as int, self.nsec as int)
    }
}

impl Time {
    /// A point in time at or after the epoch, its nanoseconds below one second.
    pub open spec fn is_normalized(&self) -> bool {
        self.sec >= 0 && 0 <= self.nsec < 1_000_000_000
    }

    /// The value that `from_nanos` gives.
    pub open spec fn spec_from_nanos(n: i64) -> Time {
        Time { sec: whole_seconds(n as int) as i32, nsec: sub_second(n as int) as i32 }
    }

    /// The value that `from_epoch_parts` gives.
    pub open spec fn spec_from_epoch_parts(secs: u64, subsec_nanos: u32) -> Time {
        Time { sec: secs as i32, nsec: subsec_nanos as i32 }
    }

    /// The epoch itself.
    pub fn new() -> (r: Time)
        ensures
            r == (Time { sec: 0, nsec: 0 }),
            r@ == 0,
    {
        Time { sec: 0, nsec: 0 }
    }

    /// The point in time `n` nanoseconds from the epoch. Both fields have the
    /// sign of `n`; seconds that do not fit 32 bits are cut to them.
    pub fn from_nanos(n: i64) -> (r: Time)
        ensures
            r == Self::spec_from_nanos(n),
            seconds_fit(n as int) ==> r@ == n,
            seconds_fit(n as int) && n >= 0 ==> r.is_normalized(),
    {
        let parts = split_nanos(n);
        Time { sec: parts.0, nsec: parts.1 }
    }

    /// The nanoseconds since the epoch.
    pub fn nanos(self) -> (r: i64)
        ensures
            r == self@,
    {
        join_nanos(self.sec, self.nsec)
    }

    /// The time as decimal seconds with nine digits behind the point.
    pub fn to_string(&self) -> (r: String)
        ensures
            r@ == seconds_text(self@),
    {
        format_nanos(self.nanos())
    }

    /// The point in time that lies `secs` seconds and `subsec_nanos` nanoseconds
    /// after the epoch. Each number is cut to the 32 bits of its field.
    pub fn from_epoch_parts(secs: u64, subsec_nanos: u32) -> (r: Time)
        ensures
            r == Self::spec_from_epoch_parts(secs, subsec_nanos),
            secs <= i32::MAX && subsec_nanos < 1_000_000_000 ==> r.is_normalized() && r@
                == secs * 1_000_000_000 + subsec_nanos,
    {
        Time {
            sec: #[verifier::truncate]
            (secs as i32),
            nsec: #[verifier::truncate]
            (subsec_nanos as i32),
        }
    }

    /// The distance from the epoch as seconds and nanoseconds below one second,
    /// or `None` for a point in time before the epoch.
    pub fn epoch_parts(self) -> (r: Option<(u64, u32)>)
        ensures
            self@ < 0 <==> r is None,
            r matches Some(p) ==> p.0 == self@ / 1_000_000_000 && p.1 == self@ % 1_000_000_000,
    {
        let n: i64 = self.nanos();
        if n < 0 {
            None
        } else {
            Some(magnitude_parts(n))
        }
    }
}

impl Duration {
    /// Both fields have the same sign, the nanoseconds stay below one second.
    pub open spec fn is_normalized(&self) -> bool {
        &&& -1_000_000_000 < self.nsec < 1_000_000_000
        &&& self.sec > 0 ==> self.nsec >= 0
        &&& self.sec < 0 ==> self.nsec <= 0
    }

    /// The value that `from_nanos` gives.
    pub open spec fn spec_from_nanos(n: i64) -> Duration {
        Duration { sec: whole_seconds(n as int) as i32, nsec: sub_second(n as int) as i32 }
    }

    /// The value that `from_std_parts` gives.
    pub open spec fn spec_from_std_parts(secs: u64, subsec_nanos: u32) -> Duration {
        Duration { sec: secs as i32, nsec: subsec_nanos as i32 }
    }

    /// The empty interval.
    pub fn new() -> (r: Duration)
        ensures
            r == (Duration { sec: 0, nsec: 0 }),
            r@ == 0,
    {
        Duration { sec: 0, nsec: 0 }
    }

    /// The interval of `n` nanoseconds. Both fields have the sign of `n`;
    /// seconds that do not fit 32 bits are cut to them.
    pub fn from_nanos(n: i64) -> (r: Duration)
        ensures
            r == Self::spec_from_nanos(n),
            seconds_fit(n as int) ==> r@ == n && r.is_normalized(),
    {
        let parts = split_nanos(n);
        Duration { sec: parts.0, nsec: parts.1 }
    }

    /// The length of the interval in nanoseconds.
    pub fn nanos(self) -> (r: i64)
        ensures
            r == self@,
    {
        join_nanos(self.sec, self.nsec)
    }

    /// The interval as decimal seconds with nine digits behind the point. The
    /// text is that of the whole length: fields of mixed sign are summed first.
    pub fn to_string(&self) -> (r: String)
        ensures
            r@ == seconds_text(self@),
    {
        format_nanos(self.nanos())
    }

    /// The interval of `secs` seconds and `subsec_nanos` nanoseconds. Each number
    /// is cut to the 32 bits of its field.
    pub fn from_std_parts(secs: u64, subsec_nanos: u32) -> (r: Duration)
        ensures
            r == Self::spec_from_std_parts(secs, subsec_nanos),
            secs <= i32::MAX && subsec_nanos < 1_000_000_000 ==> r.is_normalized() && r@
                == secs * 1_000_000_000 + subsec_nanos,
    {
        Duration {
            sec: #[verifier::truncate]
            (secs as i32),
            nsec: #[verifier::truncate]
            (subsec_nanos as i32),
        }
    }

    /// The length of the interval without its sign, as seconds and nanoseconds
    /// below one second.
    pub fn std_parts(self) -> (r: (u64, u32))
        ensures
            r.0 == magnitude(self@) / 1_000_000_000,
            r.1 == magnitude(self@) % 1_000_000_000,
    {
        magnitude_parts(self.nanos())
    }
}

/// A time made from a number of nanoseconds holds that number, as long as the
/// seconds fit their field.
pub proof fn theorem_time_from_nanos_roundtrip(n: i64)
    requires
        seconds_fit(n as int),
    ensures
        Time::spec_from_nanos(n)@ == n,
{
}

/// A duration made from a number of nanoseconds holds that number and is
/// normalized, as long as the seconds fit their field.
pub proof fn theorem_duration_from_nanos_roundtrip(n: i64)
    requires
        seconds_fit(n as int),
    ensures
        Duration::spec_from_nanos(n)@ == n,
        Duration::spec_from_nanos(n).is_normalized(),
{
}

/// A normalized duration is the one that `from_nanos` makes from its length.
pub proof fn theorem_normalized_duration_is_canonical(d: Duration)
    requires
        d.is_normalized(),
    ensures
        i64::MIN <= d@ <= i64::MAX,
        Duration::spec_from_nanos(d@ as i64) == d,
{
}

/// A normalized time is the one that `from_nanos` makes from its nanoseconds.
pub proof fn theorem_normalized_time_is_canonical(t: Time)
    requires
        t.is_normalized(),
    ensures
        0 <= t@ <= i64::MAX,
        Time::spec_from_nanos(t@ as i64) == t,
{
}

/// Reading the text of a number of nanoseconds gives the number back.
pub proof fn theorem_seconds_text_roundtrip(n: int)
    ensures
        parse_seconds_text(seconds_text(n)) == Some(n),
{
    let m = magnitude(n);
    let q = m / 1_000_000_000;
    let r = m % 1_000_000_000;
    let whole = decimal(q);
    let fraction = fixed_decimal(r, 9);
    lemma_decimal_value(q);
    lemma_fixed_decimal_value(r, 9);
    assert(pow10(9) == 1_000_000_000) by {
        reveal_with_fuel(pow10, 10);
    }
    let text = seconds_text(n);
    let body = whole + seq!['.'] + fraction;
    assert(crate::decimal::is_digit(whole[0]));
    if n < 0 {
        assert(text =~= seq!['-'] + body);
        assert(text.skip(1) =~= body);
    } else {
        assert(text =~= body);
        assert(text[0] == whole[0]);
    }
    assert(body.take(body.len() - 10) =~= whole);
    assert(body.skip(body.len() - 9) =~= fraction);
    assert(body[body.len() - 10] == '.');
}

/// Reading the text of a normalized time gives the time back: the text stands
/// for the nanoseconds of the time, and these make the same two fields.
pub proof fn theorem_time_text_roundtrip(t: Time)
    requires
        t.is_normalized(),
    ensures
        parse_seconds_text(seconds_text(t@)) == Some(t@),
        Time::spec_from_nanos(t@ as i64) == t,
{
    theorem_seconds_text_roundtrip(t@);
}

/// Reading the text of a normalized duration gives the duration back: the text
/// stands for the length of the duration, and that makes the same two fields.
pub proof fn theorem_duration_text_roundtrip(d: Duration)
    requires
        d.is_normalized(),
    ensures
        parse_seconds_text(seconds_text(d@)) == Some(d@),
        Duration::spec_from_nanos(d@ as i64) == d,
{
    theorem_seconds_text_roundtrip(d@);
}

} // verus!
