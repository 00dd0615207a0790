//! Long-term memory: timestamps, session identifiers, and the user
//! profile that the assistant learns from conversations.
use vstd::prelude::*;
use crate::text::{chars_of, concat_chars, digit_char, digits, digits_exec, string_of, zero_pad, zero_pad_exec};
use std::time::{Duration, SystemTime};

verus! {

/// Gregorian leap years.
pub open spec fn leap(y: int) -> bool {
    (y % 4 == 0 && y % 100 != 0) || y % 400 == 0
}

/// Whether `year` is a leap year.
pub fn is_leap_year(year: u32) -> (b: bool)
    ensures
        b == leap(year as int),
{
    (year % 4 == 0 && year % 100 != 0) || (year % 400 == 0)
}

/// The number of days of year `y`.
pub open spec fn year_len(y: int) -> nat {
    if leap(y) {
        366
    } else {
        365
    }
}

/// The number of days from 1970-01-01 to the first day of year `y`.
pub open spec fn days_before_year(y: int) -> nat
    decreases y - 1970,
{
    if y <= 1970 {
        0
    } else {
        days_before_year(y - 1) + year_len(y - 1)
    }
}

/// The number of days of month `m` (1 to 12) of year `y`.
pub open spec fn month_len(y: int, m: int) -> nat {
    if m == 2 {
        if leap(y) {
            29
        } else {
            28
        }
    } else if m == 4 || m == 6 || m == 9 || m == 11 {
        30
    } else {
        31
    }
}

/// The number of days of year `y` before month `m`.
pub open spec fn days_before_month(y: int, m: int) -> nat
    decreases m,
{
    if m <= 1 {
        0
    } else {
        days_before_month(y, m - 1) + month_len(y, m - 1)
    }
}

/// A calendar date from 1970 on.
pub open spec fn is_date(y: int, m: int, d: int) -> bool {
    y >= 1970 && 1 <= m <= 12 && 1 <= d <= month_len(y, m)
}

/// The number of days from 1970-01-01 to the date `(y, m, d)`.
pub open spec fn day_number(y: int, m: int, d: int) -> int {
    days_before_year(y) + days_before_month(y, m) + d - 1
}

/// The first day that `days_to_ymd` cannot count to: a year past `u32::MAX`.
pub open spec fn day_limit() -> int {
    days_before_year(0x1_0000_0000) as int
}

proof fn lemma_days_before_year_mono(a: int, b: int)
    requires
        1970 <= a <= b,
    ensures
        days_before_year(a) + 365 * (b - a) <= days_before_year(b),
    decreases b - a,
{
    if a < b {
        lemma_days_before_year_mono(a, b - 1);
    }
}

proof fn lemma_months_fill_year(y: int)
    ensures
        days_before_month(y, 13) == year_len(y),
        forall|m: int| 1 <= m <= 12 ==> days_before_month(y, m) + month_len(y, m) <= year_len(y),
{
    reveal_with_fuel(days_before_month, 13);
}

proof fn lemma_days_before_month_mono(y: int, a: int, b: int)
    requires
        1 <= a <= b,
    ensures
        days_before_month(y, a) + (b - a) * 28 <= days_before_month(y, b),
    decreases b - a,
{
    if a < b {
        lemma_days_before_month_mono(y, a, b - 1);
    }
}

/// Each day from 1970-01-01 on has exactly one date: two dates with the
/// same day number are the same date.
pub proof fn law_date_unique(y1: int, m1: int, d1: int, y2: int, m2: int, d2: int)
    requires
        is_date(y1, m1, d1),
        is_date(y2, m2, d2),
        day_number(y1, m1, d1) == day_number(y2, m2, d2),
    ensures
        y1 == y2 && m1 == m2 && d1 == d2,
{
    lemma_months_fill_year(y1);
    lemma_months_fill_year(y2);
    if y1 < y2 {
        lemma_days_before_year_mono(y1 + 1, y2);
        assert(false);
    } else if y2 < y1 {
        lemma_days_before_year_mono(y2 + 1, y1);
        assert(false);
    }
    if m1 < m2 {
        lemma_days_before_month_mono(y1, m1 + 1, m2);
        assert(false);
    } else if m2 < m1 {
        lemma_days_before_month_mono(y1, m2 + 1, m1);
        assert(false);
    }
}

/// The calendar day after the date `(y, m, d)`.
pub open spec fn next_day(y: int, m: int, d: int) -> (int, int, int) {
    if d < month_len(y, m) {
        (y, m, d + 1)
    } else if m < 12 {
        (y, m + 1, 1)
    } else {
        (y + 1, 1, 1)
    }
}

/// Day number 0 is 1970-01-01, and the date of the day after day `n` is the
/// calendar day after the date of day `n`: two dates whose day numbers differ
/// by one follow each other in the calendar.
pub proof fn law_consecutive_days(y1: int, m1: int, d1: int, y2: int, m2: int, d2: int)
    requires
        is_date(y1, m1, d1),
        is_date(y2, m2, d2),
        day_number(y2, m2, d2) == day_number(y1, m1, d1) + 1,
    ensures
        (y2, m2, d2) == next_day(y1, m1, d1),
{
    let (y, m, d) = next_day(y1, m1, d1);
    lemma_months_fill_year(y1);
    if d1 < month_len(y1, m1) {
    } else if m1 < 12 {
        assert(days_before_month(y1, m1 + 1) == days_before_month(y1, m1) + month_len(y1, m1));
    } else {
        reveal_with_fuel(days_before_month, 2);
        assert(days_before_year(y1 + 1) == days_before_year(y1) + year_len(y1));
    }
    assert(is_date(y, m, d));
    assert(day_number(y, m, d) == day_number(y1, m1, d1) + 1);
    law_date_unique(y, m, d, y2, m2, d2);
}

/// Day number 0 is the date 1970-01-01.
pub proof fn law_first_day(y: int, m: int, d: int)
    requires
        is_date(y, m, d),
        day_number(y, m, d) == 0,
    ensures
        (y, m, d) == (1970int, 1int, 1int),
{
    assert(is_date(1970, 1, 1));
    assert(day_number(1970, 1, 1) == 0);
    law_date_unique(1970, 1, 1, y, m, d);
}

fn month_len_exec(y: u32, m: u32) -> (r: u64)
    ensures
        r == month_len(y as int, m as int),
{
    if m == 2 {
        if is_leap_year(y) {
            29
        } else {
            28
        }
    } else if m == 4 || m == 6 || m == 9 || m == 11 {
        30
    } else {
        31
    }
}

/// The calendar date (year, month, day) of the day `days` after 1970-01-01.
pub fn days_to_ymd(days: u64) -> (r: (u32, u32, u32))
    requires
        days < day_limit(),
    ensures
        is_date(r.0 as int, r.1 as int, r.2 as int),
        day_number(r.0 as int, r.1 as int, r.2 as int) == days,
{
    let ghost orig = days as int;
    let mut days = days;
    let mut year: u32 = 1970;
    loop
        invariant
            1970 <= year,
            orig == days_before_year(year as int) + days,
            orig < day_limit(),
        ensures
            1970 <= year,
            orig == days_before_year(year as int) + days,
            days < year_len(year as int),
        decreases days,
    {
        let days_in_year: u64 = if is_leap_year(year) {
            366
        } else {
            365
        };
        if days < days_in_year {
            break;
        }
        days -= days_in_year;
        proof {
            if year as int + 1 >= 0x1_0000_0000 {
                lemma_days_before_year_mono(year as int + 1, 0x1_0000_0000);
            }
        }
        year += 1;
    }
    proof {
        lemma_months_fill_year(year as int);
    }
    let ghost in_year = days as int;
    let mut month: u32 = 1;
    loop
        invariant
            1 <= month <= 12,
            in_year == days_before_month(year as int, month as int) + days,
            in_year < year_len(year as int),
            days_before_month(year as int, 13) == year_len(year as int),
        ensures
            1 <= month <= 12,
            in_year == days_before_month(year as int, month as int) + days,
            days < month_len(year as int, month as int),
        decreases 12 - month,
    {
        let md = month_len_exec(year, month);
        if days < md {
            break;
        }
        days -= md;
        if month == 12 {
            assert(false);
        }
        month += 1;
    }
    (year, month, (days + 1) as u32)
}


/// The calendar date of the day `n` after 1970-01-01.
pub open spec fn civil_date(n: int) -> (int, int, int) {
    choose|y: int, m: int, d: int| is_date(y, m, d) && day_number(y, m, d) == n
}

/// `n` in decimal, padded with zeros to two digits.
pub open spec fn two_digits(n: nat) -> Seq<char> {
    zero_pad(digits(n, 10), 2)
}

/// The UTC timestamp `YYYY-MM-DDTHH:MM:SSZ` of `secs` seconds after the
/// Unix epoch (the year has at least four digits).
pub open spec fn iso8601(secs: nat) -> Seq<char> {
    let (y, m, d) = civil_date((secs / 86400) as int);
    let t = secs % 86400;
    zero_pad(digits(y as nat, 10), 4) + "-"@ + two_digits(m as nat) + "-"@ + two_digits(d as nat)
        + "T"@ + two_digits(t / 3600) + ":"@ + two_digits((t % 3600) / 60) + ":"@ + two_digits(
        t % 60,
    ) + "Z"@
}

fn two_digits_exec(n: u64) -> (r: Vec<char>)
    ensures
        r@ == two_digits(n as nat),
{
    zero_pad_exec(&digits_exec(n, 10), 2)
}

fn push_lit(v: Vec<char>, s: &str) -> (r: Vec<char>)
    ensures
        r@ == v@ + s@,
{
    concat_chars(&v, &chars_of(s))
}

/// The timestamp of `secs` seconds after the Unix epoch; `None` when its
/// year would pass `u32::MAX`.
pub fn iso8601_from_secs(secs: u64) -> (r: Option<String>)
    ensures
        match r {
            Some(s) => s@ == iso8601(secs as nat) && secs / 86400 < day_limit(),
            None => secs / 86400 >= day_limit(),
        },
{
    let days = secs / 86400;
    if (days as u128) >= day_limit_exec() {
        return None;
    }
    let (year, month, day) = days_to_ymd(days);
    proof {
        let (y, m, d) = civil_date(days as int);
        assert(is_date(year as int, month as int, day as int) && day_number(
            year as int,
            month as int,
            day as int,
        ) == days as int);
        law_date_unique(y, m, d, year as int, month as int, day as int);
    }
    let t = secs % 86400;
    let mut v = zero_pad_exec(&digits_exec(year as u64, 10), 4);
    v = push_lit(v, "-");
    v = concat_chars(&v, &two_digits_exec(month as u64));
    v = push_lit(v, "-");
    v = concat_chars(&v, &two_digits_exec(day as u64));
    v = push_lit(v, "T");
    v = concat_chars(&v, &two_digits_exec(t / 3600));
    v = push_lit(v, ":");
    v = concat_chars(&v, &two_digits_exec((t % 3600) / 60));
    v = push_lit(v, ":");
    v = concat_chars(&v, &two_digits_exec(t % 60));
    v = push_lit(v, "Z");
    Some(string_of(&v))
}

/// The number of leap years from year 1 to year `n`.
pub open spec fn leaps_through(n: int) -> int {
    n / 4 - n / 100 + n / 400
}

proof fn lemma_div_step(n: int, k: int)
    requires
        n >= 1,
        k >= 1,
    ensures
        n / k - (n - 1) / k == if n % k == 0 {
            1int
        } else {
            0int
        },
{
    vstd::arithmetic::div_mod::lemma_fundamental_div_mod(n, k);
    vstd::arithmetic::div_mod::lemma_fundamental_div_mod(n - 1, k);
    vstd::arithmetic::div_mod::lemma_mod_bound(n, k);
    vstd::arithmetic::div_mod::lemma_mod_bound(n - 1, k);
    let q = n / k;
    let q1 = (n - 1) / k;
    let r = n % k;
    let r1 = (n - 1) % k;
    assert(k * q + r == n);
    assert(k * q1 + r1 == n - 1);
    if r == 0 {
        assert(k * (q - q1) == r1 + 1) by (nonlinear_arith)
            requires
                k * q + r == n,
                k * q1 + r1 == n - 1,
                r == 0,
        ;
        assert(q - q1 == 1) by (nonlinear_arith)
            requires
                k * (q - q1) == r1 + 1,
                0 <= r1 < k,
                k >= 1,
        ;
    } else {
        assert(k * (q - q1) == r1 + 1 - r) by (nonlinear_arith)
            requires
                k * q + r == n,
                k * q1 + r1 == n - 1,
        ;
        assert(q - q1 == 0) by (nonlinear_arith)
            requires
                k * (q - q1) == r1 + 1 - r,
                0 <= r1 < k,
                0 < r < k,
                k >= 1,
        ;
    }
}

proof fn lemma_leaps_step(n: int)
    requires
        n >= 1,
    ensures
        leaps_through(n) - leaps_through(n - 1) == if leap(n) {
            1int
        } else {
            0int
        },
{
    lemma_div_step(n, 4);
    lemma_div_step(n, 100);
    lemma_div_step(n, 400);
    if n % 400 == 0 {
        assert(n % 100 == 0 && n % 4 == 0) by {
            vstd::arithmetic::div_mod::lemma_fundamental_div_mod(n, 400);
        }
    }
    if n % 100 == 0 {
        assert(n % 4 == 0) by {
            vstd::arithmetic::div_mod::lemma_fundamental_div_mod(n, 100);
        }
    }
}

proof fn lemma_days_before_year_closed(y: int)
    requires
        y >= 1970,
    ensures
        days_before_year(y) == 365 * (y - 1970) + leaps_through(y - 1) - leaps_through(1969),
    decreases y - 1970,
{
    if y > 1970 {
        lemma_days_before_year_closed(y - 1);
        lemma_leaps_step(y - 1);
    }
}

/// The number of days before the year after `u32::MAX`.
fn day_limit_exec() -> (r: u128)
    ensures
        r == day_limit(),
{
    proof {
        lemma_days_before_year_closed(0x1_0000_0000);
    }
    let n: u128 = 0xffff_ffff;
    365 * (0x1_0000_0000 - 1970) + (n / 4 - n / 100 + n / 400) - (1969 / 4 - 1969 / 100 + 1969
        / 400)
}


#[verifier::external_type_specification]
#[verifier::external_body]
pub struct ExSystemTime(SystemTime);

/// `SystemTime::now`: the current time of the system clock.
#[verifier::external_body]
fn system_now() -> SystemTime {
    SystemTime::now()
}

/// `SystemTime::duration_since(UNIX_EPOCH)`, with a clock set before the
/// epoch read as zero.
#[verifier::external_body]
fn since_unix_epoch(t: &SystemTime) -> Duration {
    t.duration_since(std::time::UNIX_EPOCH).unwrap_or_default()
}

/// `Duration::as_secs`: the whole seconds.
pub assume_specification[ core::time::Duration::as_secs ](d: &Duration) -> u64;

/// `Duration::subsec_nanos`: the fractional part in nanoseconds, always
/// below one billion.
pub assume_specification[ core::time::Duration::subsec_nanos ](d: &Duration) -> (r: u32)
    ensures
        r < 1_000_000_000,
;

/// The timestamp that a clock reading of `secs` seconds since the Unix epoch
/// gives: `None` when its year would pass `u32::MAX`.
pub open spec fn timestamp_of(secs: u64) -> Option<Seq<char>> {
    if secs / 86400 < day_limit() {
        Some(iso8601(secs as nat))
    } else {
        None
    }
}

/// The characters of an optional string.
pub open spec fn text_option(r: Option<String>) -> Option<Seq<char>> {
    match r {
        Some(s) => Some(s@),
        None => None,
    }
}

/// The current UTC time as `YYYY-MM-DDTHH:MM:SSZ`; `None` when the clock
/// reads past the year `u32::MAX`.
pub fn now_iso8601() -> (r: Option<String>)
    ensures
        exists|secs: u64| #[trigger] timestamp_of(secs) == text_option(r),
{
    let d = since_unix_epoch(&system_now());
    let secs = d.as_secs();
    let r = iso8601_from_secs(secs);
    assert(timestamp_of(secs) == text_option(r));
    r
}

/// A session identifier `sess_<seconds>_<nanoseconds>`, both in lower-case hex.
pub open spec fn session_id(secs: nat, nanos: nat) -> Seq<char> {
    "sess_"@ + digits(secs, 16) + "_"@ + digits(nanos, 16)
}

proof fn lemma_hex_digit_char(d: nat)
    requires
        d < 16,
    ensures
        digit_char(d) as u32 == if d < 10 { 48 + d } else { 87 + d },
        digit_char(d) != '_',
{
}

proof fn lemma_hex_digits_shape(n: nat)
    ensures
        digits(n, 16).len() >= 1,
        n >= 16 ==> digits(n, 16).len() >= 2,
        forall|i: int| 0 <= i < digits(n, 16).len() ==> #[trigger] digits(n, 16)[i] != '_',
    decreases n,
{
    if n < 16 {
        lemma_hex_digit_char(n);
    } else {
        lemma_hex_digits_shape(n / 16);
        lemma_hex_digit_char(n % 16);
        let ds = digits(n, 16);
        assert(ds == digits(n / 16, 16).push(digit_char(n % 16)));
        assert forall|i: int| 0 <= i < ds.len() implies #[trigger] ds[i] != '_' by {
            if i < ds.len() - 1 {
                assert(ds[i] == digits(n / 16, 16)[i]);
            }
        }
    }
}

proof fn lemma_hex_digits_injective(a: nat, b: nat)
    requires
        digits(a, 16) == digits(b, 16),
    ensures
        a == b,
    decreases a,
{
    lemma_hex_digits_shape(a);
    lemma_hex_digits_shape(b);
    if a < 16 && b < 16 {
        assert(digits(a, 16)[0] == digit_char(a));
        lemma_hex_digit_char(a);
        lemma_hex_digit_char(b);
    } else if a >= 16 && b >= 16 {
        let da = digits(a / 16, 16);
        let db = digits(b / 16, 16);
        assert(digits(a, 16) == da.push(digit_char(a % 16)));
        assert(digits(b, 16) == db.push(digit_char(b % 16)));
        assert(da =~= digits(a, 16).drop_last());
        assert(db =~= digits(b, 16).drop_last());
        lemma_hex_digits_injective(a / 16, b / 16);
        lemma_hex_digit_char(a % 16);
        lemma_hex_digit_char(b % 16);
        assert(digit_char(a % 16) == digits(a, 16).last());
    }
}

/// Different clock readings give different session identifiers: the
/// identifier determines both the seconds and the nanoseconds.
pub proof fn law_session_ids_distinct(s1: nat, n1: nat, s2: nat, n2: nat)
    requires
        session_id(s1, n1) == session_id(s2, n2),
    ensures
        s1 == s2,
        n1 == n2,
{
    reveal_strlit("sess_");
    reveal_strlit("_");
    let a = digits(s1, 16);
    let la: int = a.len() as int;
    let b = digits(n1, 16);
    let c = digits(s2, 16);
    let d = digits(n2, 16);
    let lc: int = c.len() as int;
    lemma_hex_digits_shape(s1);
    lemma_hex_digits_shape(s2);
    let x = session_id(s1, n1);
    assert(x == "sess_"@ + a + "_"@ + b);
    assert(x == "sess_"@ + c + "_"@ + d);
    assert(x[5 + la] == '_');
    assert(x[5 + lc] == '_');
    if a.len() < c.len() {
        assert(x[5 + la] == c[la]);
        assert(false);
    } else if c.len() < a.len() {
        assert(x[5 + lc] == a[lc]);
        assert(false);
    }
    assert(a =~= x.subrange(5, 5 + la));
    assert(c =~= x.subrange(5, 5 + lc));
    assert(b =~= x.skip(6 + la));
    assert(d =~= x.skip(6 + lc));
    lemma_hex_digits_injective(s1, s2);
    lemma_hex_digits_injective(n1, n2);
}

/// The session identifier for a time since the Unix epoch.
pub fn session_id_from(secs: u64, nanos: u32) -> (r: String)
    ensures
        r@ == session_id(secs as nat, nanos as nat),
{
    let mut v = chars_of("sess_");
    v = concat_chars(&v, &digits_exec(secs, 16));
    v = push_lit(v, "_");
    v = concat_chars(&v, &digits_exec(nanos as u64, 16));
    string_of(&v)
}

/// A new session identifier from the current time.
pub fn generate_session_id() -> (r: String)
    ensures
        exists|secs: nat, nanos: nat| nanos < 1_000_000_000 && r@ == session_id(secs, nanos),
{
    let d = since_unix_epoch(&system_now());
    let r = session_id_from(d.as_secs(), d.subsec_nanos());
    r
}

} // verus!
