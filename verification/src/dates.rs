//! Capture-date resolution: proleptic-Gregorian calendar arithmetic,
//! verified decimal and timestamp parsing, and the conversion of an epoch
//! timestamp to its UTC calendar date.

use vstd::prelude::*;
use vstd::string::StrSliceExecFns;
use chrono::Datelike;

verus! {

/// A UTC calendar date.
#[derive(Debug, Clone, Copy, PartialEq, Eq, Structural)]
pub struct CivilDate {
    pub year: i32,
    pub month: u8,
    pub day: u8,
}

pub open spec fn is_leap_year(y: int) -> bool {
    y % 4 == 0 && (y % 100 != 0 || y % 400 == 0)
}

pub open spec fn days_in_month(y: int, m: int) -> int {
    if m == 2 {
        if is_leap_year(y) {
            29
        } else {
            28
        }
    } else if m == 4 || m == 6 || m == 9 || m == 11 {
        30
    } else {
        31
    }
}

pub open spec fn valid_civil(y: int, m: int, d: int) -> bool {
    1 <= m <= 12 && 1 <= d <= days_in_month(y, m)
}

/// Days since 1970-01-01 of a proleptic-Gregorian date, era by era.
pub open spec fn days_from_civil(y: int, m: int, d: int) -> int {
    let yy = if m <= 2 {
        y - 1
    } else {
        y
    };
    let era = yy / 400;
    let yoe = yy - era * 400;
    let mp = if m > 2 {
        m - 3
    } else {
        m + 9
    };
    let doy = (153 * mp + 2) / 5 + d - 1;
    let doe = yoe * 365 + yoe / 4 - yoe / 100 + doy;
    era * 146097 + doe - 719468
}

/// The whole days since the epoch that a second count spans.
pub open spec fn epoch_days(secs: int) -> int {
    secs / 86400
}

/// Relies on `chrono::DateTime::<Utc>::from_timestamp` and the `Datelike`
/// accessors `year`, `month` and `day`: the UTC calendar date of an epoch
/// second count is the unique valid Gregorian date whose day number is
/// the timestamp's whole-day part, and chrono answers for every
/// timestamp up to the end of year 9999 (its own range reaches much
/// further).
#[verifier::external_body]
pub fn civil_from_epoch(secs: i64) -> (r: Option<CivilDate>)
    ensures
        match r {
            Some(c) => valid_civil(c.year as int, c.month as int, c.day as int)
                && days_from_civil(c.year as int, c.month as int, c.day as int) == epoch_days(
                secs as int,
            ),
            None => true,
        },
        0 <= secs <= 253402300799 ==> r is Some,
{
    chrono::DateTime::<chrono::Utc>::from_timestamp(secs, 0).map(
        |dt|
            CivilDate {
                year: dt.year(),
                month: dt.month() as u8,
                day: dt.day() as u8,
            },
    )
}

/// The epoch second count of a civil date and time of day, the exact
/// inverse direction of [`civil_from_epoch`], computed and proved against
/// the same day-number function.
pub fn epoch_from_civil(c: CivilDate, hour: u8, minute: u8, second: u8) -> (r: i64)
    requires
        1 <= c.year <= 9999,
        valid_civil(c.year as int, c.month as int, c.day as int),
        hour < 24,
        minute < 60,
        second < 60,
    ensures
        r == days_from_civil(c.year as int, c.month as int, c.day as int) * 86400 + hour * 3600
            + minute * 60 + second,
{
    let y: i64 = c.year as i64;
    let m: i64 = c.month as i64;
    let d: i64 = c.day as i64;
    let yy: i64 = if m <= 2 {
        y - 1
    } else {
        y
    };
    let era: i64 = yy / 400;
    let yoe: i64 = yy - era * 400;
    let mp: i64 = if m > 2 {
        m - 3
    } else {
        m + 9
    };
    let doy: i64 = (153 * mp + 2) / 5 + d - 1;
    let doe: i64 = yoe * 365 + yoe / 4 - yoe / 100 + doy;
    let days: i64 = era * 146097 + doe - 719468;
    days * 86400 + (hour as i64) * 3600 + (minute as i64) * 60 + (second as i64)
}

pub open spec fn is_digit(c: char) -> bool {
    48 <= c as int <= 57
}

pub open spec fn digit_val(c: char) -> int {
    c as int - 48
}

pub open spec fn all_digits(s: Seq<char>) -> bool {
    forall|i: int| 0 <= i < s.len() ==> is_digit(#[trigger] s[i])
}

/// The value of a digit string, most significant first.
pub open spec fn dec_value(s: Seq<char>) -> int
    decreases s.len(),
{
    if s.len() == 0 {
        0
    } else {
        dec_value(s.drop_last()) * 10 + digit_val(s.last())
    }
}

/// What parsing a decimal integer string yields: the digits' value, with
/// one optional leading minus sign; anything else is rejected.
pub open spec fn spec_parse_i64(s: Seq<char>) -> Option<int> {
    if s.len() > 0 && s[0] == '-' {
        if s.len() > 1 && all_digits(s.subrange(1, s.len() as int)) {
            Some(-dec_value(s.subrange(1, s.len() as int)))
        } else {
            None
        }
    } else if s.len() > 0 && all_digits(s) {
        Some(dec_value(s))
    } else {
        None
    }
}

pub proof fn lemma_dec_value_nonneg(s: Seq<char>)
    requires
        all_digits(s),
    ensures
        dec_value(s) >= 0,
    decreases s.len(),
{
    if s.len() > 0 {
        assert(all_digits(s.drop_last()));
        lemma_dec_value_nonneg(s.drop_last());
        assert(dec_value(s.drop_last()) * 10 >= 0) by (nonlinear_arith)
            requires
                dec_value(s.drop_last()) >= 0,
        ;
    }
}

/// Appending digits never lowers the value.
pub proof fn lemma_dec_value_ge_prefix(s: Seq<char>, k: int)
    requires
        all_digits(s),
        0 <= k <= s.len(),
    ensures
        dec_value(s) >= dec_value(s.subrange(0, k)),
    decreases s.len() - k,
{
    if k == s.len() {
        assert(s.subrange(0, k) =~= s);
    } else {
        let t = s.drop_last();
        assert(all_digits(t));
        assert(t.subrange(0, k) =~= s.subrange(0, k));
        lemma_dec_value_ge_prefix(t, k);
        lemma_dec_value_nonneg(t);
        assert(dec_value(t) * 10 >= dec_value(t)) by (nonlinear_arith)
            requires
                dec_value(t) >= 0,
        ;
    }
}

/// Ten to the `n`.
pub open spec fn pow10(n: nat) -> int
    decreases n,
{
    if n == 0 {
        1
    } else {
        10 * pow10((n - 1) as nat)
    }
}

/// A digit string's value is bounded by the power of ten of its length.
pub proof fn lemma_dec_value_bound(s: Seq<char>)
    requires
        all_digits(s),
    ensures
        0 <= dec_value(s) < pow10(s.len()),
    decreases s.len(),
{
    if s.len() == 0 {
    } else {
        let t = s.drop_last();
        assert(all_digits(t));
        lemma_dec_value_bound(t);
        assert(dec_value(t) * 10 + 9 < pow10(t.len()) * 10) by (nonlinear_arith)
            requires
                dec_value(t) < pow10(t.len()),
        ;
        lemma_dec_value_nonneg(t);
        assert(dec_value(t) * 10 >= 0) by (nonlinear_arith)
            requires
                dec_value(t) >= 0,
        ;
    }
}

/// Parses a decimal integer as the platform's integer parser does:
/// optional minus sign, then digits; rejects anything else and any value
/// outside the machine range.
#[verifier::loop_isolation(false)]
pub fn parse_i64(s: &str) -> (r: Option<i64>)
    ensures
        match spec_parse_i64(s@) {
            Some(v) => {
                if i64::MIN <= v <= i64::MAX {
                    r matches Some(x) && x as int == v
                } else {
                    r is None
                }
            },
            None => r is None,
        },
{
    let n = s.unicode_len();
    if n == 0 {
        return None;
    }
    let neg = s.get_char(0) == '-';
    let start: usize = if neg {
        1
    } else {
        0
    };
    if start >= n {
        return None;
    }
    let bound: u64 = if neg {
        9223372036854775808
    } else {
        9223372036854775807
    };
    let ghost digits = s@.subrange(start as int, n as int);
    let mut mag: u64 = 0;
    let mut k: usize = start;
    while k < n
        invariant
            start <= k <= n,
            mag <= bound,
            all_digits(s@.subrange(start as int, k as int)),
            mag == dec_value(s@.subrange(start as int, k as int)),
        decreases n - k,
    {
        let c = s.get_char(k);
        let cv = c as u32;
        proof {
            assert(s@.subrange(start as int, k as int + 1).drop_last() =~= s@.subrange(
                start as int,
                k as int,
            ));
            assert(s@.subrange(start as int, k as int + 1).last() == s@[k as int]);
        }
        if cv < 48 || cv > 57 {
            // a non-digit: the whole string is rejected
            proof {
                if spec_parse_i64(s@) is Some {
                    if neg {
                        assert(is_digit(s@.subrange(1, n as int)[k - 1]));
                    } else {
                        assert(is_digit(s@[k as int]));
                    }
                }
            }
            return None;
        }
        let d: u64 = (cv - 48) as u64;
        if mag > (bound - d) / 10 {
            // any continuation only grows the magnitude past the range
            proof {
                let pref = s@.subrange(start as int, k as int + 1);
                assert(mag * 10 + d > bound) by (nonlinear_arith)
                    requires
                        mag > (bound - d) / 10,
                        0 <= d <= 9,
                        d <= bound,
                ;
                assert(dec_value(pref) == mag * 10 + d);
                if spec_parse_i64(s@) is Some {
                    let whole = if neg {
                        s@.subrange(1, n as int)
                    } else {
                        s@
                    };
                    assert(all_digits(whole));
                    if neg {
                        assert(pref =~= whole.subrange(0, k as int));
                        lemma_dec_value_ge_prefix(whole, k as int);
                    } else {
                        assert(pref =~= whole.subrange(0, k as int + 1));
                        lemma_dec_value_ge_prefix(whole, k as int + 1);
                    }
                }
            }
            return None;
        }
        proof {
            assert(mag * 10 + d <= bound) by (nonlinear_arith)
                requires
                    mag <= (bound - d) / 10,
                    0 <= d <= 9,
                    d <= bound,
            ;
        }
        mag = mag * 10 + d;
        k += 1;
    }
    proof {
        assert(s@.subrange(start as int, n as int) == digits);
        if neg {
            assert(digits =~= s@.subrange(1, n as int));
        } else {
            assert(digits =~= s@);
        }
        lemma_dec_value_nonneg(digits);
    }
    if neg {
        if mag == 9223372036854775808 {
            Some(i64::MIN)
        } else {
            Some(-(mag as i64))
        }
    } else {
        Some(mag as i64)
    }
}

/// What parsing an embedded capture timestamp of the fixed form
/// `YYYY-MM-DDTHH:MM:SS` yields: the UTC epoch seconds of that civil
/// moment, or nothing when the text is not of that form or not a valid
/// date.
pub open spec fn spec_exif_epoch(s: Seq<char>) -> Option<int> {
    if s.len() == 19 && s[4] == '-' && s[7] == '-' && s[10] == 'T' && s[13] == ':' && s[16]
        == ':' && all_digits(s.subrange(0, 4)) && all_digits(s.subrange(5, 7)) && all_digits(
        s.subrange(8, 10),
    ) && all_digits(s.subrange(11, 13)) && all_digits(s.subrange(14, 16)) && all_digits(
        s.subrange(17, 19),
    ) {
        let y = dec_value(s.subrange(0, 4));
        let m = dec_value(s.subrange(5, 7));
        let d = dec_value(s.subrange(8, 10));
        let h = dec_value(s.subrange(11, 13));
        let mi = dec_value(s.subrange(14, 16));
        let sec = dec_value(s.subrange(17, 19));
        if 1 <= y && valid_civil(y, m, d) && h < 24 && mi < 60 && sec < 60 {
            Some(days_from_civil(y, m, d) * 86400 + h * 3600 + mi * 60 + sec)
        } else {
            None
        }
    } else {
        None
    }
}

pub proof fn lemma_pow10_monotone(a: nat, b: nat)
    requires
        a <= b,
    ensures
        pow10(a) <= pow10(b),
    decreases b,
{
    if a < b {
        lemma_pow10_monotone(a, (b - 1) as nat);
        lemma_pow10_nonneg((b - 1) as nat);
        assert(pow10((b - 1) as nat) <= 10 * pow10((b - 1) as nat)) by (nonlinear_arith)
            requires
                pow10((b - 1) as nat) >= 0,
        ;
    }
}

pub proof fn lemma_pow10_nonneg(n: nat)
    ensures
        pow10(n) >= 1,
    decreases n,
{
    if n > 0 {
        lemma_pow10_nonneg((n - 1) as nat);
    }
}

/// Reads the all-digit field of `s` between `from` and `to`.
#[verifier::loop_isolation(false)]
fn parse_digits(s: &str, from: usize, to: usize) -> (r: Option<u64>)
    requires
        from <= to <= s@.len(),
        to - from <= 4,
    ensures
        match r {
            Some(v) => all_digits(s@.subrange(from as int, to as int)) && v == dec_value(
                s@.subrange(from as int, to as int),
            ),
            None => !all_digits(s@.subrange(from as int, to as int)),
        },
{
    let mut mag: u64 = 0;
    let mut k: usize = from;
    while k < to
        invariant
            from <= k <= to,
            all_digits(s@.subrange(from as int, k as int)),
            mag == dec_value(s@.subrange(from as int, k as int)),
            mag < pow10((k - from) as nat),
        decreases to - k,
    {
        let c = s.get_char(k);
        let cv = c as u32;
        proof {
            assert(s@.subrange(from as int, k as int + 1).drop_last() =~= s@.subrange(
                from as int,
                k as int,
            ));
            assert(s@.subrange(from as int, k as int + 1).last() == s@[k as int]);
        }
        if cv < 48 || cv > 57 {
            proof {
                assert(s@.subrange(from as int, to as int)[k - from] == s@[k as int]);
            }
            return None;
        }
        let d: u64 = (cv - 48) as u64;
        proof {
            lemma_pow10_monotone((k - from + 1) as nat, 4);
            reveal_with_fuel(pow10, 5);
            assert(pow10(4) == 10000);
            assert(mag * 10 + d < pow10((k - from) as nat) * 10) by (nonlinear_arith)
                requires
                    mag < pow10((k - from) as nat),
                    0 <= d <= 9,
            ;
        }
        mag = mag * 10 + d;
        k += 1;
    }
    proof {
        assert(s@.subrange(from as int, to as int) == s@.subrange(from as int, k as int));
    }
    Some(mag)
}

/// Whether a year has the leap day.
pub fn leap_year(y: u64) -> (r: bool)
    ensures
        r == is_leap_year(y as int),
{
    y % 4 == 0 && (y % 100 != 0 || y % 400 == 0)
}

/// The day count of one month.
pub fn month_length(y: u64, m: u64) -> (r: u64)
    requires
        1 <= m <= 12,
    ensures
        r == days_in_month(y as int, m as int),
{
    if m == 2 {
        if leap_year(y) {
            29
        } else {
            28
        }
    } else if m == 4 || m == 6 || m == 9 || m == 11 {
        30
    } else {
        31
    }
}

/// Parses an embedded capture timestamp of the fixed form
/// `YYYY-MM-DDTHH:MM:SS` into UTC epoch seconds.
pub fn parse_exif_datetime(s: &str) -> (r: Option<i64>)
    ensures
        match spec_exif_epoch(s@) {
            Some(v) => r matches Some(x) && x as int == v,
            None => r is None,
        },
{
    let n = s.unicode_len();
    if n != 19 {
        return None;
    }
    if !(s.get_char(4) == '-' && s.get_char(7) == '-' && s.get_char(10) == 'T' && s.get_char(13)
        == ':' && s.get_char(16) == ':') {
        return None;
    }
    let y = match parse_digits(s, 0, 4) {
        Some(v) => v,
        None => {
            return None;
        },
    };
    let m = match parse_digits(s, 5, 7) {
        Some(v) => v,
        None => {
            return None;
        },
    };
    let d = match parse_digits(s, 8, 10) {
        Some(v) => v,
        None => {
            return None;
        },
    };
    let h = match parse_digits(s, 11, 13) {
        Some(v) => v,
        None => {
            return None;
        },
    };
    let mi = match parse_digits(s, 14, 16) {
        Some(v) => v,
        None => {
            return None;
        },
    };
    let sec = match parse_digits(s, 17, 19) {
        Some(v) => v,
        None => {
            return None;
        },
    };
    proof {
        lemma_dec_value_bound(s@.subrange(0, 4));
        lemma_dec_value_bound(s@.subrange(5, 7));
        lemma_dec_value_bound(s@.subrange(8, 10));
        lemma_dec_value_bound(s@.subrange(11, 13));
        lemma_dec_value_bound(s@.subrange(14, 16));
        lemma_dec_value_bound(s@.subrange(17, 19));
        reveal_with_fuel(pow10, 5);
        assert(pow10(4) == 10000);
        assert(pow10(2) == 100);
    }
    if y < 1 {
        return None;
    }
    if m < 1 || m > 12 {
        return None;
    }
    if d < 1 || d > month_length(y, m) {
        return None;
    }
    if h >= 24 || mi >= 60 || sec >= 60 {
        return None;
    }
    let c = CivilDate { year: y as i32, month: m as u8, day: d as u8 };
    Some(epoch_from_civil(c, h as u8, mi as u8, sec as u8))
}

/// The capture-time source order: embedded metadata first, then the
/// associated sidecar's reported time, else no date.
pub open spec fn spec_resolve(embedded: Option<i64>, sidecar_epoch: Option<int>) -> Option<
    int,
> {
    match embedded {
        Some(t) => Some(t as int),
        None => sidecar_epoch,
    }
}

/// Date precedence: whenever embedded capture metadata is present, it
/// wins over whatever the sidecar reports, equal or not.
pub proof fn lemma_date_precedence(t1: i64, sidecar_epoch: Option<int>)
    ensures
        spec_resolve(Some(t1), sidecar_epoch) == Some(t1 as int),
{
}

} // verus!
