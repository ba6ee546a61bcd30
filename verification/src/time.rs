//! Points in time and spans of time, as plain numbers.

use vstd::prelude::*;

use crate::text;

verus! {

/// A span of time: whole seconds and the nanoseconds beyond them, fewer than a
/// second's worth.
#[derive(Clone, Copy, PartialEq, Eq, Structural, Debug)]
pub struct Duration {
    pub(crate) secs: u64,
    pub(crate) nanos: u32,
}

/// A reading of a monotonic clock, in nanoseconds since the clock's origin.
#[derive(Clone, Copy, PartialEq, Eq, Structural, Debug)]
pub struct Instant {
    pub nanos: u64,
}

/// How the standard library writes a span of so many nanoseconds for debugging,
/// such as `1.5s`.
pub uninterp spec fn duration_debug(nanos: nat) -> Seq<char>;

/// Writes a span of time with the `Debug` format of `core::time::Duration`.
/// The contract claims only that the text depends on the length of the span.
#[verifier::external_body]
fn duration_text(secs: u64, nanos: u32) -> (s: String)
    requires
        nanos < 1_000_000_000,
    ensures
        s@ == duration_debug((secs * 1_000_000_000 + nanos) as nat),
{
    format!("{:?}", core::time::Duration::new(secs, nanos))
}

impl View for Duration {
    type V = nat;

    /// The span in nanoseconds.
    closed spec fn view(&self) -> nat {
        (self.secs * 1_000_000_000 + self.nanos) as nat
    }
}

impl Duration {
    #[verifier::type_invariant]
    spec fn well_formed(self) -> bool {
        self.nanos < 1_000_000_000
    }

    /// A span of seconds and nanoseconds.
    pub fn new(secs: u64, nanos: u32) -> (d: Duration)
        requires
            nanos < 1_000_000_000,
        ensures
            d@ == secs * 1_000_000_000 + nanos,
    {
        Duration { secs, nanos }
    }

    /// A span of whole seconds.
    pub fn from_secs(secs: u64) -> (d: Duration)
        ensures
            d@ == secs * 1_000_000_000,
    {
        Duration { secs, nanos: 0 }
    }

    /// A span of milliseconds.
    pub fn from_millis(millis: u64) -> (d: Duration)
        ensures
            d@ == millis * 1_000_000,
    {
        Duration { secs: millis / 1000, nanos: (millis % 1000) as u32 * 1_000_000 }
    }

    /// The whole seconds of the span.
    pub fn as_secs(&self) -> (secs: u64)
        ensures
            secs == self@ / 1_000_000_000,
    {
        proof {
            use_type_invariant(self);
        }
        self.secs
    }

    /// The nanoseconds beyond the whole seconds.
    pub fn subsec_nanos(&self) -> (nanos: u32)
        ensures
            nanos == self@ % 1_000_000_000,
    {
        proof {
            use_type_invariant(self);
        }
        self.nanos
    }

    /// The span for readers.
    pub fn to_text(&self) -> (s: String)
        ensures
            s@ == duration_debug(self@),
    {
        proof {
            use_type_invariant(self);
        }
        duration_text(self.secs, self.nanos)
    }
}

impl Instant {
    /// The time from `earlier` to here, zero if `earlier` is later.
    pub open spec fn since(self, earlier: Instant) -> int {
        if self.nanos >= earlier.nanos {
            self.nanos - earlier.nanos
        } else {
            0
        }
    }

    /// The instant a span later, or this one where the clock does not reach so far.
    pub open spec fn later(self, span: nat) -> Instant {
        if self.nanos + span <= u64::MAX {
            Instant { nanos: (self.nanos + span) as u64 }
        } else {
            self
        }
    }

    /// The instant a span later, or this one where the clock does not reach so far.
    pub fn plus(&self, span: Duration) -> (t: Instant)
        ensures
            t == self.later(span@),
    {
        let total: u128 = self.nanos as u128 + span.as_secs() as u128 * 1_000_000_000
            + span.subsec_nanos() as u128;
        proof {
            let d = span@;
            assert(d == (d / 1_000_000_000) * 1_000_000_000 + d % 1_000_000_000);
        }
        if total <= u64::MAX as u128 {
            Instant { nanos: total as u64 }
        } else {
            *self
        }
    }

    /// The span from `earlier` to here, zero if `earlier` is later.
    pub fn duration_since(&self, earlier: Instant) -> (d: Duration)
        ensures
            d@ == self.since(earlier),
    {
        let nanos: u64 = if self.nanos >= earlier.nanos {
            self.nanos - earlier.nanos
        } else {
            0
        };
        Duration { secs: nanos / 1_000_000_000, nanos: (nanos % 1_000_000_000) as u32 }
    }
}

/// The month of a day of the year, by months of 30 days. The last month has the
/// days that are left.
pub open spec fn month_of(day: nat) -> nat {
    if day / 30 < 12 {
        day / 30 + 1
    } else {
        12
    }
}

/// A calendar text for a number of seconds since 1970, by years of 365 days and
/// months of 30 days, the year within 16 bits.
pub open spec fn iso_text(secs: nat) -> Seq<char> {
    let days = secs / 86400;
    text::zero_padded(text::decimal_text((days / 365 + 1970) % 65536), 4) + "-"@
        + text::zero_padded(text::decimal_text(month_of(days % 365)), 2) + "-"@
        + text::zero_padded(text::decimal_text(days % 30 + 1), 2) + "T"@
        + text::zero_padded(text::decimal_text((secs % 86400) / 3600), 2) + ":"@
        + text::zero_padded(text::decimal_text((secs % 3600) / 60), 2) + ":"@
        + text::zero_padded(text::decimal_text(secs % 60), 2) + "Z"@
}

proof fn lemma_two_digits(n: nat)
    requires
        n < 100,
    ensures
        text::zero_padded(text::decimal_text(n), 2).len() == 2,
{
    reveal_with_fuel(text::decimal_text, 3);
    reveal_with_fuel(text::zero_padded, 3);
    if n >= 10 {
        assert(n / 10 < 10);
    }
}

proof fn lemma_four_digits(n: nat)
    requires
        1000 <= n < 10000,
    ensures
        text::zero_padded(text::decimal_text(n), 4).len() == 4,
{
    reveal_with_fuel(text::decimal_text, 5);
    reveal_with_fuel(text::zero_padded, 2);
    assert(100 <= n / 10 < 1000);
    assert(10 <= n / 10 / 10 < 100);
    assert(1 <= n / 10 / 10 / 10 < 10);
}

/// A calendar text has the form `YYYY-MM-DDThh:mm:ssZ`, with a month from 1 to 12 and
/// a day from 1 to 30, for some six thousand years.
pub proof fn law_calendar_text(secs: nat)
    requires
        secs < 200_000_000_000,
    ensures
        iso_text(secs).len() == 20,
        iso_text(secs)[4] == '-',
        iso_text(secs)[7] == '-',
        iso_text(secs)[10] == 'T',
        iso_text(secs)[13] == ':',
        iso_text(secs)[16] == ':',
        iso_text(secs)[19] == 'Z',
        1 <= month_of((secs / 86400) % 365) <= 12,
        1 <= (secs / 86400) % 30 + 1 <= 30,
{
    let days = secs / 86400;
    assert(days / 365 + 1970 < 10000);
    reveal_strlit("-");
    reveal_strlit("T");
    reveal_strlit(":");
    reveal_strlit("Z");
    lemma_four_digits((days / 365 + 1970) % 65536);
    lemma_two_digits(month_of(days % 365));
    lemma_two_digits(days % 30 + 1);
    lemma_two_digits((secs % 86400) / 3600);
    lemma_two_digits((secs % 3600) / 60);
    lemma_two_digits(secs % 60);
}

fn iso(secs: u64) -> (s: String)
    ensures
        s@ == iso_text(secs as nat),
{
    let days: u64 = secs / 86400;
    let mut s = text::decimal_padded((days / 365 + 1970) % 65536, 4);
    s.append("-");
    let thirties: u64 = (days % 365) / 30;
    let month: u64 = if thirties < 12 {
        thirties + 1
    } else {
        12
    };
    s.append(text::decimal_padded(month, 2).as_str());
    s.append("-");
    s.append(text::decimal_padded(days % 30 + 1, 2).as_str());
    s.append("T");
    s.append(text::decimal_padded(secs % 86400 / 3600, 2).as_str());
    s.append(":");
    s.append(text::decimal_padded(secs % 3600 / 60, 2).as_str());
    s.append(":");
    s.append(text::decimal_padded(secs % 60, 2).as_str());
    s.append("Z");
    s
}

/// The seconds since 1970 at which an instant lay, given the present instant and
/// the seconds since 1970 now.
pub open spec fn unix_secs(instant: Instant, now: Instant, now_secs: u64) -> nat {
    let elapsed = now.since(instant) / 1_000_000_000;
    if now_secs >= elapsed {
        (now_secs - elapsed) as nat
    } else {
        0
    }
}

/// The calendar text of an instant, given the present instant and the seconds
/// since 1970 now.
pub fn instant_to_iso(instant: &Instant, now: &Instant, now_secs: u64) -> (s: String)
    ensures
        s@ == iso_text(unix_secs(*instant, *now, now_secs)),
{
    let elapsed: u64 = now.duration_since(*instant).as_secs();
    let secs: u64 = if now_secs >= elapsed {
        now_secs - elapsed
    } else {
        0
    };
    iso(secs)
}

/// The time between two instants is their distance, and nothing where the other is later;
/// an instant that lies a span later lies that span away, as far as the clock reaches.
pub proof fn law_spans(a: Instant, b: Instant, span: nat)
    ensures
        a.nanos >= b.nanos ==> a.since(b) == a.nanos - b.nanos,
        a.nanos <= b.nanos ==> a.since(b) == 0,
        a.nanos + span <= u64::MAX ==> a.later(span).since(a) == span && a.later(span).nanos
            == a.nanos + span,
        a.nanos + span > u64::MAX ==> a.later(span) == a,
{
}

/// An instant lies as many whole seconds before the present as have passed since, and never
/// before 1970.
pub proof fn law_instants_on_the_calendar(instant: Instant, now: Instant, now_secs: u64)
    requires
        instant.nanos <= now.nanos,
    ensures
        unix_secs(instant, now, now_secs) <= now_secs,
        (now.nanos - instant.nanos) / 1_000_000_000 <= now_secs ==> unix_secs(
            instant,
            now,
            now_secs,
        ) + (now.nanos - instant.nanos) / 1_000_000_000 == now_secs,
        (now.nanos - instant.nanos) / 1_000_000_000 > now_secs ==> unix_secs(
            instant,
            now,
            now_secs,
        ) == 0,
        unix_secs(now, now, now_secs) == now_secs,
{
}

proof fn lemma_two_digits_value(n: nat)
    requires
        n < 100,
    ensures
        text::zero_padded(text::decimal_text(n), 2).len() == 2,
        text::digits_value(text::zero_padded(text::decimal_text(n), 2), 10) == n,
{
    lemma_two_digits(n);
    text::law_decimals_read_back(n);
    let t = text::decimal_text(n);
    if n < 10 {
        reveal_with_fuel(text::decimal_text, 2);
        reveal_with_fuel(text::zero_padded, 3);
        let p = text::zero_padded(t, 2);
        assert(p =~= seq!['0'] + t);
        assert(p.drop_last() =~= seq!['0']);
        assert(seq!['0'].drop_last() =~= Seq::<char>::empty());
        reveal_with_fuel(text::digits_value, 4);
        assert(t.drop_last() =~= Seq::<char>::empty());
    } else {
        reveal_with_fuel(text::decimal_text, 3);
        assert(t.len() == 2);
    }
}

proof fn lemma_four_digits_value(n: nat)
    requires
        1000 <= n < 10000,
    ensures
        text::zero_padded(text::decimal_text(n), 4).len() == 4,
        text::digits_value(text::zero_padded(text::decimal_text(n), 4), 10) == n,
{
    lemma_four_digits(n);
    text::law_decimals_read_back(n);
    reveal_with_fuel(text::decimal_text, 5);
    assert(100 <= n / 10 < 1000);
    assert(10 <= n / 10 / 10 < 100);
    assert(1 <= n / 10 / 10 / 10 < 10);
    assert(text::decimal_text(n).len() == 4);
}

/// The parts of a calendar text read back: the year of 365 days, the month and the day, and
/// the hour, the minute and the second of the day.
pub proof fn law_calendar_text_reads_back(secs: nat)
    requires
        secs < 200_000_000_000,
    ensures
        text::digits_value(iso_text(secs).subrange(0, 4), 10) == 1970 + secs / 86400 / 365,
        text::digits_value(iso_text(secs).subrange(5, 7), 10) == (if secs / 86400 % 365 < 360 {
            secs / 86400 % 365 / 30 + 1
        } else {
            12
        }),
        text::digits_value(iso_text(secs).subrange(8, 10), 10) == secs / 86400 % 30 + 1,
        text::digits_value(iso_text(secs).subrange(11, 13), 10) == secs % 86400 / 3600,
        text::digits_value(iso_text(secs).subrange(14, 16), 10) == secs % 3600 / 60,
        text::digits_value(iso_text(secs).subrange(17, 19), 10) == secs % 60,
{
    let days = secs / 86400;
    let year = (days / 365 + 1970) % 65536;
    let month = month_of(days % 365);
    let day = days % 30 + 1;
    let hour = (secs % 86400) / 3600;
    let minute = (secs % 3600) / 60;
    let second = secs % 60;
    assert(days / 365 + 1970 < 10000);
    lemma_four_digits_value(year);
    lemma_two_digits_value(month);
    lemma_two_digits_value(day);
    lemma_two_digits_value(hour);
    lemma_two_digits_value(minute);
    lemma_two_digits_value(second);
    reveal_strlit("-");
    reveal_strlit("T");
    reveal_strlit(":");
    reveal_strlit("Z");
    let t = iso_text(secs);
    assert(t.subrange(0, 4) =~= text::zero_padded(text::decimal_text(year), 4));
    assert(t.subrange(5, 7) =~= text::zero_padded(text::decimal_text(month), 2));
    assert(t.subrange(8, 10) =~= text::zero_padded(text::decimal_text(day), 2));
    assert(t.subrange(11, 13) =~= text::zero_padded(text::decimal_text(hour), 2));
    assert(t.subrange(14, 16) =~= text::zero_padded(text::decimal_text(minute), 2));
    assert(t.subrange(17, 19) =~= text::zero_padded(text::decimal_text(second), 2));
}

} // verus!
