//! The audit log: one line of JSON for each request, with its time of day.
use vstd::prelude::*;

use crate::json::{json_string, law_literal_is_one_line, quote};
use crate::text::{dec, dec_string, pad_left, padded_left};

verus! {

// ---------------------------------------------------------------------
// The calendar
// ---------------------------------------------------------------------

pub open spec fn is_leap(y: int) -> bool {
    y % 4 == 0 && (y % 100 != 0 || y % 400 == 0)
}

pub open spec fn month_len(y: int, m: int) -> int {
    if m == 2 {
        if is_leap(y) {
            29
        } else {
            28
        }
    } else if m == 4 || m == 6 || m == 9 || m == 11 {
        30
    } else {
        31
    }
}

/// The days of year `y` before month `m`.
pub open spec fn days_before_month(y: int, m: int) -> int
    decreases m,
{
    if m <= 1 {
        0
    } else {
        days_before_month(y, m - 1) + month_len(y, m - 1)
    }
}

/// How many years up to `y` are leap years, counted from year 1.
pub open spec fn leaps_through(y: int) -> int {
    y / 4 - y / 100 + y / 400
}

/// The days from the start of 1970 to the start of year `y`.
pub open spec fn days_before_year(y: int) -> int {
    365 * (y - 1970) + leaps_through(y - 1) - leaps_through(1969)
}

pub open spec fn is_date(y: int, m: int, d: int) -> bool {
    1 <= m <= 12 && 1 <= d <= month_len(y, m)
}

/// The days from 1970-01-01 to a date.
pub open spec fn day_number(y: int, m: int, d: int) -> int {
    days_before_year(y) + days_before_month(y, m) + d - 1
}

proof fn lemma_leap_step(y: int)
    ensures
        leaps_through(y) - leaps_through(y - 1) == (if is_leap(y) {
            1int
        } else {
            0
        }),
{
    let a = y / 400;
    let b = y % 400;
    assert(y == 400 * a + b && 0 <= b < 400);
    let c = b / 100;
    let d = b % 100;
    assert(b == 100 * c + d && 0 <= d < 100 && 0 <= c < 4);
    let e = d / 4;
    let f = d % 4;
    assert(d == 4 * e + f && 0 <= f < 4 && 0 <= e < 25);
    assert(y == 4 * (100 * a + 25 * c + e) + f);
    assert(y == 100 * (4 * a + c) + d);
    assert(y / 4 == 100 * a + 25 * c + e && y % 4 == f);
    assert(y / 100 == 4 * a + c && y % 100 == d);
    assert((y - 1) / 4 == (if f == 0 {
        y / 4 - 1
    } else {
        y / 4
    }));
    assert((y - 1) / 100 == (if d == 0 {
        y / 100 - 1
    } else {
        y / 100
    }));
    assert((y - 1) / 400 == (if b == 0 {
        a - 1
    } else {
        a
    }));
}

/// Years follow each other without a gap: each has 365 days, or 366 where it
/// is a leap year, and 1970 starts at zero.
pub proof fn law_years_are_adjacent(y: int)
    ensures
        days_before_year(y + 1) == days_before_year(y) + (if is_leap(y) {
            366int
        } else {
            365
        }),
        days_before_year(1970) == 0,
        days_before_month(y, 13) == (if is_leap(y) {
            366int
        } else {
            365
        }),
{
    lemma_leap_step(y);
    assert(days_before_month(y, 13) == (if is_leap(y) {
        366int
    } else {
        365
    })) by {
        reveal_with_fuel(days_before_month, 13);
    }
}

proof fn lemma_later_year(y: int, z: int)
    requires
        y < z,
    ensures
        days_before_year(y) + days_before_month(y, 13) <= days_before_year(z),
    decreases z - y,
{
    law_years_are_adjacent(y);
    if y + 1 < z {
        lemma_later_year(y + 1, z);
        law_years_are_adjacent(y + 1);
    }
}

proof fn lemma_later_month(y: int, m: int, n: int)
    requires
        1 <= m < n,
    ensures
        0 <= days_before_month(y, m),
        days_before_month(y, m) + month_len(y, m) <= days_before_month(y, n),
    decreases n,
{
    if m > 1 {
        lemma_later_month(y, m - 1, m);
    }
    if m + 1 < n {
        lemma_later_month(y, m, n - 1);
    }
}

/// Two dates are the same day only if they are the same date.
pub proof fn law_dates_are_unique(y: int, m: int, d: int, y2: int, m2: int, d2: int)
    requires
        is_date(y, m, d),
        is_date(y2, m2, d2),
        day_number(y, m, d) == day_number(y2, m2, d2),
    ensures
        y == y2,
        m == m2,
        d == d2,
{
    lemma_later_month(y, m, 13);
    lemma_later_month(y2, m2, 13);
    if y < y2 {
        lemma_later_year(y, y2);
    } else if y2 < y {
        lemma_later_year(y2, y);
    } else if m < m2 {
        lemma_later_month(y, m, m2);
    } else if m2 < m {
        lemma_later_month(y, m2, m);
    }
}

// ---------------------------------------------------------------------
// From days to dates
// ---------------------------------------------------------------------

/// The day numbers of the months of a year that starts in March: `doy` is day
/// `d` of month `m`.
proof fn lemma_month_of(y: int, doy: int, mp: int)
    requires
        0 <= doy <= 365,
        mp == (5 * doy + 2) / 153,
        doy == 365 ==> is_leap(y + 1),
    ensures
        0 <= mp <= 11,
        ({
            let d = doy - (153 * mp + 2) / 5 + 1;
            let m = if mp < 10 {
                mp + 3
            } else {
                mp - 9
            };
            let yy = if m <= 2 {
                y + 1
            } else {
                y
            };
            &&& is_date(yy, m, d)
            &&& days_before_month(yy, m) + d - 1 == (if m <= 2 {
                doy - 306
            } else {
                doy + 59 + (if is_leap(y) {
                    1int
                } else {
                    0
                })
            })
        }),
{
    reveal_with_fuel(days_before_month, 13);
    assert(0 <= mp <= 11);
    if mp == 0 {
    } else if mp == 1 {
    } else if mp == 2 {
    } else if mp == 3 {
    } else if mp == 4 {
    } else if mp == 5 {
    } else if mp == 6 {
    } else if mp == 7 {
    } else if mp == 8 {
    } else if mp == 9 {
    } else if mp == 10 {
    } else {
    }
}

/// Whether year `100 c + 4 q + t` of an era is a leap year.
proof fn lemma_leap_in_era(e: int, c: int, q: int, t: int)
    requires
        0 <= c <= 3,
        0 <= q <= 24,
        0 <= t <= 3,
    ensures
        ({
            let y = 400 * e + 100 * c + 4 * q + t;
            &&& leaps_through(y) == 97 * e + 24 * c + q
            &&& is_leap(y) <==> t == 0 && (q > 0 || c == 0)
        }),
{
    let y = 400 * e + 100 * c + 4 * q + t;
    assert(y / 4 == 100 * e + 25 * c + q && y % 4 == t) by {
        assert(y == 4 * (100 * e + 25 * c + q) + t);
    }
    assert(y / 100 == 4 * e + c && y % 100 == 4 * q + t) by {
        assert(y == 100 * (4 * e + c) + (4 * q + t));
    }
    assert(y / 400 == e && y % 400 == 100 * c + 4 * q + t);
}

/// The years of an era of 400 years that start in March: year `100 c + 4 q + t`
/// of era `e` starts so many days after 0000-03-01.
proof fn lemma_march_year(e: int, c: int, q: int, t: int)
    requires
        0 <= c <= 3,
        0 <= q <= 24,
        0 <= t <= 3,
    ensures
        ({
            let y = 400 * e + 100 * c + 4 * q + t;
            &&& days_before_year(y) + 59 + (if is_leap(y) {
                1int
            } else {
                0
            }) == 146097 * e + 36524 * c + 1461 * q + 365 * t - 719468
            &&& is_leap(y + 1) <==> t == 3 && (q < 24 || c == 3)
        }),
{
    let y = 400 * e + 100 * c + 4 * q + t;
    lemma_leap_in_era(e, c, q, t);
    lemma_leap_step(y);
    assert(leaps_through(1969) == 477);
    if t < 3 {
        lemma_leap_in_era(e, c, q, t + 1);
    } else if q < 24 {
        lemma_leap_in_era(e, c, q + 1, 0);
    } else if c < 3 {
        lemma_leap_in_era(e, c + 1, 0, 0);
    } else {
        lemma_leap_in_era(e + 1, 0, 0, 0);
    }
}

/// The date of a day, counted from 1970-01-01.
pub fn civil_from_days(days: i64) -> (r: (i64, u32, u32))
    requires
        -1_000_000_000_000_000 <= days <= 1_000_000_000_000_000,
    ensures
        is_date(r.0 as int, r.1 as int, r.2 as int),
        day_number(r.0 as int, r.1 as int, r.2 as int) == days,
        -3_000_000_000_000 <= r.0 <= 3_000_000_000_000,
{
    // Count from 0000-03-01 and shift into the positive by whole eras, so that
    // the leap day ends a year and an era ends with one.
    let shift: i64 = 7_000_000_000;
    let z: i64 = days + 719_468 + shift * 146_097;
    let era: i64 = z / 146_097 - shift;
    let doe: i64 = z % 146_097;
    let c: i64 = if doe / 36_524 > 3 {
        3
    } else {
        doe / 36_524
    };
    let r: i64 = doe - 36_524 * c;
    let q: i64 = r / 1461;
    let s: i64 = r - 1461 * q;
    let t: i64 = if s / 365 > 3 {
        3
    } else {
        s / 365
    };
    let doy: i64 = s - 365 * t;
    let y: i64 = 400 * era + 100 * c + 4 * q + t;
    let mp: i64 = (5 * doy + 2) / 153;
    proof {
        assert(days == 146_097 * era + doe - 719_468);
        assert(0 <= r <= 36_524);
        assert(c < 3 ==> r < 36_524);
        assert(0 <= q <= 24);
        assert(0 <= s <= 1460);
        assert(0 <= doy <= 365);
        lemma_march_year(era as int, c as int, q as int, t as int);
        assert(doy == 365 ==> t == 3 && (q < 24 || c == 3));
        lemma_month_of(y as int, doy as int, mp as int);
        law_years_are_adjacent(y as int);
    }
    let d: i64 = doy - (153 * mp + 2) / 5 + 1;
    let m: i64 = if mp < 10 {
        mp + 3
    } else {
        mp - 9
    };
    let year: i64 = if m <= 2 {
        y + 1
    } else {
        y
    };
    (year, m as u32, d as u32)
}

// ---------------------------------------------------------------------
// Time stamps
// ---------------------------------------------------------------------

/// Seconds since 1970, read as 64 bits with sign.
pub open spec fn signed_secs(secs: u64) -> int {
    if secs <= i64::MAX {
        secs as int
    } else {
        secs - 0x1_0000_0000_0000_0000
    }
}

/// A year as it is shown: reduced to 32 bits with sign.
pub open spec fn shown_year(y: int) -> int {
    (y + 0x8000_0000) % 0x1_0000_0000 - 0x8000_0000
}

/// A number with sign, padded with zeros to four characters.
pub open spec fn four_wide(n: int) -> Seq<char> {
    if n >= 0 {
        pad_left(dec(n as nat), 4, '0')
    } else {
        "-"@ + pad_left(dec((-n) as nat), 3, '0')
    }
}

pub open spec fn two_wide(n: int) -> Seq<char> {
    pad_left(dec(n as nat), 2, '0')
}

/// Second `sec_of_day` of a date, in UTC.
pub open spec fn rfc3339(y: int, m: int, d: int, sec_of_day: int) -> Seq<char> {
    four_wide(shown_year(y)) + "-"@ + two_wide(m) + "-"@ + two_wide(d) + "T"@ + two_wide(
        sec_of_day / 3600,
    ) + ":"@ + two_wide(sec_of_day % 3600 / 60) + ":"@ + two_wide(sec_of_day % 60) + "Z"@
}

fn two_digits(n: u64) -> (r: String)
    ensures
        r@ == two_wide(n as int),
{
    let s = dec_string(n);
    padded_left(s.as_str(), 2, '0')
}

fn year_text(y: i64) -> (r: String)
    requires
        -3_000_000_000_000 <= y <= 3_000_000_000_000,
    ensures
        r@ == four_wide(shown_year(y as int)),
{
    // A multiple of 2^32 above the range keeps the remainder positive.
    let n: i64 = (y + 0x8000_0000 + 0x1000_0000_0000) % 0x1_0000_0000 - 0x8000_0000;
    assert(n == shown_year(y as int));
    if n >= 0 {
        let s = dec_string(n as u64);
        padded_left(s.as_str(), 4, '0')
    } else {
        let s = dec_string((-n) as u64);
        let p = padded_left(s.as_str(), 3, '0');
        "-".to_string().concat(p.as_str())
    }
}

/// A time in seconds since 1970 as a date and time of day in UTC.
pub fn format_unix_seconds_as_rfc3339(secs: u64) -> (r: String)
    ensures
        exists|y: int, m: int, d: int|
            {
                &&& #[trigger] is_date(y, m, d)
                &&& day_number(y, m, d) == signed_secs(secs) / 86_400
                &&& r@ == rfc3339(y, m, d, signed_secs(secs) % 86_400)
            },
{
    // As an unsigned number of 64 bits the time is 2^64 seconds ahead of what
    // a negative one stands for.
    let (days, sec_of_day): (i64, u64) = if secs <= i64::MAX as u64 {
        ((secs / 86_400) as i64, secs % 86_400)
    } else {
        let below: u64 = u64::MAX - secs;
        (-1 - (below / 86_400) as i64, 86_399 - below % 86_400)
    };
    proof {
        assert(days == signed_secs(secs) / 86_400);
        assert(sec_of_day == signed_secs(secs) % 86_400);
    }
    let (y, m, d) = civil_from_days(days);
    let ys = year_text(y);
    let ms = two_digits(m as u64);
    let ds = two_digits(d as u64);
    let hh = two_digits(sec_of_day / 3600);
    let mm = two_digits(sec_of_day % 3600 / 60);
    let ss = two_digits(sec_of_day % 60);
    let r = ys.concat("-").concat(ms.as_str()).concat("-").concat(ds.as_str()).concat("T").concat(
        hh.as_str(),
    ).concat(":").concat(mm.as_str()).concat(":").concat(ss.as_str()).concat("Z");
    assert(is_date(y as int, m as int, d as int));
    r
}

// ---------------------------------------------------------------------
// Lines
// ---------------------------------------------------------------------

/// What is logged of one request.
#[derive(Debug, PartialEq, Eq)]
pub struct AuditEntry {
    pub ts: String,
    pub method: String,
    pub path: String,
    pub status: u16,
    pub latency_us: u64,
    /// Who asked.
    pub remote: String,
    /// The user agent; empty where the request named none.
    pub ua: String,
}

/// The line for one request: a JSON object with its members in order.
pub open spec fn audit_line(e: AuditEntry) -> Seq<char> {
    "{\"latency_us\":"@ + dec(e.latency_us as nat) + ",\"method\":"@ + json_string(e.method@)
        + ",\"path\":"@ + json_string(e.path@) + ",\"remote\":"@ + json_string(e.remote@)
        + ",\"status\":"@ + dec(e.status as nat) + ",\"ts\":"@ + json_string(e.ts@) + ",\"ua\":"@
        + json_string(e.ua@) + "}"@
}

impl AuditEntry {
    pub fn line(&self) -> (r: String)
        ensures
            r@ == audit_line(*self),
    {
        let latency = dec_string(self.latency_us);
        let method = quote(self.method.as_str());
        let path = quote(self.path.as_str());
        let remote = quote(self.remote.as_str());
        let status = dec_string(self.status as u64);
        let ts = quote(self.ts.as_str());
        let ua = quote(self.ua.as_str());
        "{\"latency_us\":".to_string().concat(latency.as_str()).concat(",\"method\":").concat(
            method.as_str(),
        ).concat(",\"path\":").concat(path.as_str()).concat(",\"remote\":").concat(
            remote.as_str(),
        ).concat(",\"status\":").concat(status.as_str()).concat(",\"ts\":").concat(
            ts.as_str(),
        ).concat(",\"ua\":").concat(ua.as_str()).concat("}")
    }
}

/// Pieces of text, one after the other.
spec fn glued(parts: Seq<Seq<char>>) -> Seq<char>
    decreases parts.len(),
{
    if parts.len() == 0 {
        Seq::empty()
    } else {
        glued(parts.drop_last()) + parts.last()
    }
}

proof fn lemma_glued_one_line(parts: Seq<Seq<char>>)
    requires
        forall|i: int| 0 <= i < parts.len() ==> !(#[trigger] parts[i]).contains('\n'),
    ensures
        !glued(parts).contains('\n'),
    decreases parts.len(),
{
    if parts.len() > 0 {
        let a = glued(parts.drop_last());
        let b = parts.last();
        let s = a + b;
        lemma_glued_one_line(parts.drop_last());
        if s.contains('\n') {
            let i = choose|i: int| 0 <= i < s.len() && s[i] == '\n';
            if i < a.len() {
                assert(a[i] == '\n');
            } else {
                assert(b[i - a.len()] == '\n');
            }
        }
    }
}

proof fn lemma_dec_one_line(n: nat)
    ensures
        !dec(n).contains('\n'),
{
    crate::text::lemma_digits_chars(n, 10);
    assert forall|i: int| 0 <= i < dec(n).len() implies dec(n)[i] != '\n' by {}
}

/// A request is one line of the log: nothing in it can start another.
pub proof fn law_audit_entry_is_one_line(e: AuditEntry)
    ensures
        !audit_line(e).contains('\n'),
{
    reveal_strlit("{\"latency_us\":");
    reveal_strlit(",\"method\":");
    reveal_strlit(",\"path\":");
    reveal_strlit(",\"remote\":");
    reveal_strlit(",\"status\":");
    reveal_strlit(",\"ts\":");
    reveal_strlit(",\"ua\":");
    reveal_strlit("}");
    lemma_dec_one_line(e.latency_us as nat);
    lemma_dec_one_line(e.status as nat);
    law_literal_is_one_line(e.method@);
    law_literal_is_one_line(e.path@);
    law_literal_is_one_line(e.remote@);
    law_literal_is_one_line(e.ts@);
    law_literal_is_one_line(e.ua@);
    let parts = seq![
        "{\"latency_us\":"@,
        dec(e.latency_us as nat),
        ",\"method\":"@,
        json_string(e.method@),
        ",\"path\":"@,
        json_string(e.path@),
        ",\"remote\":"@,
        json_string(e.remote@),
        ",\"status\":"@,
        dec(e.status as nat),
        ",\"ts\":"@,
        json_string(e.ts@),
        ",\"ua\":"@,
        json_string(e.ua@),
        "}"@,
    ];
    lemma_glued_one_line(parts);
    assert(glued(parts) == audit_line(e)) by {
        reveal_with_fuel(glued, 16);
        assert(Seq::empty() + parts[0] =~= parts[0]);
    }
}

} // verus!
