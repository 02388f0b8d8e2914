//! Instants in UTC, their text forms and the length of a time span.
use vstd::prelude::*;
use crate::text::{push_two_digits, string_of, two_digits};
use chrono::{DateTime, SecondsFormat, Utc};

verus! {

/// The first second of the year 0000, in seconds since the Unix epoch.
pub const MIN_UNIX_SECONDS: i64 = -62167219200;

/// The last second of the year 9999, in seconds since the Unix epoch.
pub const MAX_UNIX_SECONDS: i64 = 253402300799;

pub const NANOS_PER_SECOND: u32 = 1_000_000_000;

/// Whether `(secs, nanos)` is an instant that a `Timestamp` can hold: within
/// the years 0000 to 9999, and less than a second of nanoseconds.
pub open spec fn valid_instant(secs: int, nanos: int) -> bool {
    MIN_UNIX_SECONDS <= secs <= MAX_UNIX_SECONDS && 0 <= nanos < NANOS_PER_SECOND
}

/// An instant read by chrono, with a leap second's extra nanoseconds counted
/// into the next second (as chrono's RFC 3339 writer does), when a
/// `Timestamp` can hold it.
pub open spec fn leap_adjusted(secs: int, nanos: int) -> Option<(int, int)> {
    let (a, b) = if nanos >= NANOS_PER_SECOND {
        (secs + 1, nanos - NANOS_PER_SECOND)
    } else {
        (secs, nanos)
    };
    if valid_instant(a, b) {
        Some((a, b))
    } else {
        None
    }
}

/// What chrono reads from an RFC 3339 text as a UTC instant (seconds and
/// nanoseconds since the Unix epoch), or `None` where it rejects the text.
pub uninterp spec fn rfc3339_instant(s: Seq<char>) -> Option<(i64, u32)>;

/// The RFC 3339 text that chrono writes for a UTC instant.
pub uninterp spec fn rfc3339_text(secs: int, nanos: int) -> Seq<char>;

/// The `YYYY-MM-DD HH:MM:SS UTC` text that chrono writes for a UTC instant.
pub uninterp spec fn utc_clock_text(secs: int, nanos: int) -> Seq<char>;

/// Relies on chrono's `FromStr for DateTime<Utc>` (relaxed RFC 3339, any
/// offset converted to UTC) and on `timestamp` / `timestamp_subsec_nanos`.
#[verifier::external_body]
fn read_rfc3339(s: &str) -> (r: Option<(i64, u32)>)
    ensures
        r == rfc3339_instant(s@),
{
    match s.parse::<DateTime<Utc>>() {
        Ok(t) => Some((t.timestamp(), t.timestamp_subsec_nanos())),
        Err(_) => None,
    }
}

/// Relies on chrono's `DateTime::from_timestamp`, which accepts every
/// instant of the years 0000 to 9999, and on `to_rfc3339_opts` with
/// `SecondsFormat::AutoSi` and `Z` for UTC, the form that chrono's `Serialize`
/// writes.
#[verifier::external_body]
fn write_rfc3339(secs: i64, nanos: u32) -> (r: String)
    requires
        valid_instant(secs as int, nanos as int),
    ensures
        r@ == rfc3339_text(secs as int, nanos as int),
{
    match DateTime::from_timestamp(secs, nanos) {
        Some(t) => t.to_rfc3339_opts(SecondsFormat::AutoSi, true),
        None => String::new(),
    }
}

/// Relies on chrono's `DateTime::from_timestamp` (see `write_rfc3339`) and on
/// `format("%Y-%m-%d %H:%M:%S UTC")`.
#[verifier::external_body]
fn write_utc_clock(secs: i64, nanos: u32) -> (r: String)
    requires
        valid_instant(secs as int, nanos as int),
    ensures
        r@ == utc_clock_text(secs as int, nanos as int),
{
    match DateTime::from_timestamp(secs, nanos) {
        Some(t) => t.format("%Y-%m-%d %H:%M:%S UTC").to_string(),
        None => String::new(),
    }
}

/// An instant in UTC with nanosecond resolution.
#[derive(Clone, Copy, Debug, PartialEq, Eq)]
pub struct Timestamp {
    secs: i64,
    nanos: u32,
}

impl Timestamp {
    #[verifier::type_invariant]
    spec fn inv(&self) -> bool {
        valid_instant(self.secs as int, self.nanos as int)
    }

    /// Whole seconds since the Unix epoch.
    pub closed spec fn unix_seconds(&self) -> int {
        self.secs as int
    }

    /// Nanoseconds past the whole second.
    pub closed spec fn subsec_nanos(&self) -> int {
        self.nanos as int
    }

    /// Nanoseconds since the Unix epoch.
    pub open spec fn instant(&self) -> int {
        self.unix_seconds() * NANOS_PER_SECOND + self.subsec_nanos()
    }

    /// The instant `secs` seconds and `nanos` nanoseconds after the Unix
    /// epoch; `None` outside the years 0000 to 9999 or with `nanos` of a
    /// second or more.
    pub fn new(secs: i64, nanos: u32) -> (r: Option<Timestamp>)
        ensures
            r is Some <==> valid_instant(secs as int, nanos as int),
            r matches Some(t) ==> t.unix_seconds() == secs && t.subsec_nanos() == nanos,
    {
        if MIN_UNIX_SECONDS <= secs && secs <= MAX_UNIX_SECONDS && nanos < NANOS_PER_SECOND {
            Some(Timestamp { secs, nanos })
        } else {
            None
        }
    }

    pub fn seconds(&self) -> (r: i64)
        ensures
            r == self.unix_seconds(),
            MIN_UNIX_SECONDS <= r <= MAX_UNIX_SECONDS,
    {
        proof {
            use_type_invariant(self);
        }
        self.secs
    }

    pub fn nanoseconds(&self) -> (r: u32)
        ensures
            r == self.subsec_nanos(),
            r < NANOS_PER_SECOND,
    {
        proof {
            use_type_invariant(self);
        }
        self.nanos
    }

    /// Reads an RFC 3339 instant (`2024-07-11T10:00:00Z`); a leap second
    /// (`23:59:60`) counts as the first instant of the next minute. `None`
    /// where the text is not an instant or lies outside the years 0000 to
    /// 9999.
    pub fn parse_rfc3339(s: &str) -> (r: Option<Timestamp>)
        ensures
            r is Some <==> (rfc3339_instant(s@) matches Some((secs, nanos)) && leap_adjusted(
                secs as int,
                nanos as int,
            ) is Some),
            r matches Some(t) ==> (rfc3339_instant(s@) matches Some((secs, nanos)) && leap_adjusted(
                secs as int,
                nanos as int,
            ) == Some((t.unix_seconds(), t.subsec_nanos()))),
    {
        match read_rfc3339(s) {
            Some((secs, nanos)) => {
                if nanos >= NANOS_PER_SECOND {
                    if secs < MAX_UNIX_SECONDS && nanos - NANOS_PER_SECOND < NANOS_PER_SECOND {
                        Timestamp::new(secs + 1, nanos - NANOS_PER_SECOND)
                    } else {
                        None
                    }
                } else {
                    Timestamp::new(secs, nanos)
                }
            },
            None => None,
        }
    }

    /// The RFC 3339 text of this instant, in UTC.
    pub fn to_rfc3339(&self) -> (r: String)
        ensures
            r@ == rfc3339_text(self.unix_seconds(), self.subsec_nanos()),
    {
        write_rfc3339(self.seconds(), self.nanoseconds())
    }

    /// This instant as `YYYY-MM-DD HH:MM:SS UTC`.
    pub fn to_utc_clock(&self) -> (r: String)
        ensures
            r@ == utc_clock_text(self.unix_seconds(), self.subsec_nanos()),
    {
        write_utc_clock(self.seconds(), self.nanoseconds())
    }

    /// Whether this instant is strictly before `other`.
    pub fn is_before(&self, other: &Timestamp) -> (r: bool)
        ensures
            r == (self.instant() < other.instant()),
    {
        let (a, b) = (self.seconds(), other.seconds());
        let (m, n) = (self.nanoseconds(), other.nanoseconds());
        proof {
            lemma_instant_order(a as int, m as int, b as int, n as int);
            lemma_instant_order(b as int, n as int, a as int, m as int);
        }
        a < b || (a == b && m < n)
    }

    /// Whole seconds from `earlier` to this instant, rounded toward zero.
    pub fn seconds_since(&self, earlier: &Timestamp) -> (r: i64)
        requires
            earlier.instant() <= self.instant(),
        ensures
            r == (self.instant() - earlier.instant()) / (NANOS_PER_SECOND as int),
            r >= 0,
    {
        let (a, b) = (earlier.seconds(), self.seconds());
        let (m, n) = (earlier.nanoseconds(), self.nanoseconds());
        let d = b - a;
        let ghost span = self.instant() - earlier.instant();
        if n >= m {
            assert(span == d * NANOS_PER_SECOND + (n - m)) by (nonlinear_arith)
                requires
                    span == (b * NANOS_PER_SECOND + n) - (a * NANOS_PER_SECOND + m),
                    d == b - a,
            ;
            proof {
                vstd::arithmetic::div_mod::lemma_fundamental_div_mod_converse(
                    span,
                    NANOS_PER_SECOND as int,
                    d as int,
                    (n - m) as int,
                );
            }
            d
        } else {
            assert(span == (d - 1) * NANOS_PER_SECOND + (NANOS_PER_SECOND + n - m))
                by (nonlinear_arith)
                requires
                    span == (b * NANOS_PER_SECOND + n) - (a * NANOS_PER_SECOND + m),
                    d == b - a,
            ;
            proof {
                vstd::arithmetic::div_mod::lemma_fundamental_div_mod_converse(
                    span,
                    NANOS_PER_SECOND as int,
                    (d - 1) as int,
                    (NANOS_PER_SECOND + n - m) as int,
                );
            }
            assert(d >= 1) by (nonlinear_arith)
                requires
                    span >= 0,
                    span == (d - 1) * NANOS_PER_SECOND + (NANOS_PER_SECOND + n - m),
                    n < m,
            ;
            d - 1
        }
    }
}

proof fn lemma_instant_order(a: int, m: int, b: int, n: int)
    requires
        0 <= m < NANOS_PER_SECOND,
        0 <= n < NANOS_PER_SECOND,
    ensures
        a < b ==> a * NANOS_PER_SECOND + m < b * NANOS_PER_SECOND + n,
{
    if a < b {
        assert(a * NANOS_PER_SECOND + NANOS_PER_SECOND <= b * NANOS_PER_SECOND) by (nonlinear_arith)
            requires
                a < b,
        ;
    }
}

/// A span of whole seconds as `HH:MM:SS`; hours are not wrapped into days.
pub open spec fn clock_text(total: nat) -> Seq<char> {
    two_digits(total / 3600) + seq![':'] + two_digits((total % 3600) / 60) + seq![':']
        + two_digits(total % 60)
}

/// A span of whole seconds as `HH:MM:SS`, with at least two digits of hours.
pub fn format_duration(total: u64) -> (r: String)
    ensures
        r@ == clock_text(total as nat),
{
    let mut out: Vec<char> = Vec::new();
    push_two_digits(&mut out, (total / 3600) as u128);
    out.push(':');
    push_two_digits(&mut out, ((total % 3600) / 60) as u128);
    out.push(':');
    push_two_digits(&mut out, (total % 60) as u128);
    string_of(out.as_slice())
}

} // verus!
