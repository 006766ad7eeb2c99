//! Timestamps: the UTC calendar form sent to the remote source, and
//! the two date shapes the caller may give (an ISO-8601 instant, or
//! a negative offset in minutes from now).

use vstd::prelude::*;

use crate::numfmt::{dec_of, digit_char, u64_dec};

verus! {

/// The latest Unix timestamp the calendar conversion accepts:
/// the last second of year 9999.
pub const MAX_CIVIL_TIMESTAMP: i64 = 253402300799;

/// The UTC calendar components of a Unix timestamp: year, month,
/// day, hour, minute, second.
pub uninterp spec fn civil_of(ts: int) -> (int, int, int, int, int, int);

/// Relies on `time::OffsetDateTime::from_unix_timestamp` and its
/// component accessors `year`, `month`, `day`, `hour`, `minute` and
/// `second`: the UTC calendar components of a Unix timestamp, a
/// function of the timestamp alone, with each component in its
/// documented range.
#[verifier::external_body]
fn civil_from_timestamp(ts: i64) -> (r: (i32, u8, u8, u8, u8, u8))
    requires
        0 <= ts <= MAX_CIVIL_TIMESTAMP,
    ensures
        civil_of(ts as int) == (
            r.0 as int,
            r.1 as int,
            r.2 as int,
            r.3 as int,
            r.4 as int,
            r.5 as int,
        ),
        1970 <= r.0 <= 9999,
        1 <= r.1 <= 12,
        1 <= r.2 <= 31,
        r.3 < 24,
        r.4 < 60,
        r.5 < 60,
{
    let dt = time::OffsetDateTime::from_unix_timestamp(ts).unwrap();
    (dt.year(), dt.month() as u8, dt.day(), dt.hour(), dt.minute(), dt.second())
}

/// A calendar component padded to two digits.
pub open spec fn pad2(n: int) -> Seq<char> {
    if n < 10 {
        seq!['0', digit_char(n)]
    } else {
        dec_of(n)
    }
}

/// Formats a small component with at least two digits.
fn pad2_format(n: u64) -> (r: String)
    requires
        n < 100,
    ensures
        r@ == pad2(n as int),
{
    proof {
        reveal_strlit("0");
    }
    if n < 10 {
        let mut out = String::from_str("0");
        out.append(u64_dec(n).as_str());
        proof {
            assert(out@ =~= pad2(n as int));
        }
        out
    } else {
        u64_dec(n)
    }
}

/// The ISO text of calendar components:
/// `year-month-dayThour:minute:second`, each component zero-padded
/// to two digits (the year always has four).
pub open spec fn iso_text(c: (int, int, int, int, int, int)) -> Seq<char> {
    dec_of(c.0) + seq!['-'] + pad2(c.1) + seq!['-'] + pad2(c.2) + seq!['T'] + pad2(c.3)
        + seq![':'] + pad2(c.4) + seq![':'] + pad2(c.5)
}

/// Formats a Unix timestamp as the UTC ISO text the remote source
/// expects.
pub fn iso_format(ts: i64) -> (r: String)
    requires
        0 <= ts <= MAX_CIVIL_TIMESTAMP,
    ensures
        r@ == iso_text(civil_of(ts as int)),
{
    proof {
        reveal_strlit("-");
        reveal_strlit("T");
        reveal_strlit(":");
    }
    let (year, month, day, hour, minute, second) = civil_from_timestamp(ts);
    let mut out = u64_dec(year as u64);
    out.append("-");
    out.append(pad2_format(month as u64).as_str());
    out.append("-");
    out.append(pad2_format(day as u64).as_str());
    out.append("T");
    out.append(pad2_format(hour as u64).as_str());
    out.append(":");
    out.append(pad2_format(minute as u64).as_str());
    out.append(":");
    out.append(pad2_format(second as u64).as_str());
    proof {
        assert(out@ =~= iso_text(civil_of(ts as int)));
    }
    out
}

/// What parsing an ISO-8601 instant yields: its Unix timestamp, or
/// nothing when the text is not a valid instant.
pub uninterp spec fn iso_parse_of(s: Seq<char>) -> Option<i64>;

/// Relies on `time::OffsetDateTime::parse` with the ISO-8601 format
/// and on `unix_timestamp`: the parsed instant depends on the input
/// characters alone.
#[verifier::external_body]
fn parse_iso_instant(s: &str) -> (r: Option<i64>)
    ensures
        r == iso_parse_of(s@),
{
    match time::OffsetDateTime::parse(s, &time::format_description::well_known::Iso8601::DEFAULT) {
        Ok(dt) => Some(dt.unix_timestamp()),
        Err(_) => None,
    }
}

/// Whether a character is a decimal digit.
pub open spec fn is_digit(c: char) -> bool {
    48 <= c as u32 <= 57
}

/// The value of a decimal digit.
pub open spec fn digit_val(c: char) -> int {
    c as u32 - 48
}

/// Whether every character is a decimal digit.
pub open spec fn all_digits(s: Seq<char>) -> bool {
    forall|i: int| 0 <= i < s.len() ==> is_digit(#[trigger] s[i])
}

/// The number the digits denote, most significant first.
pub open spec fn digits_val(s: Seq<char>) -> int
    decreases s.len(),
{
    if s.len() == 0 {
        0
    } else {
        digits_val(s.drop_last()) * 10 + digit_val(s.last())
    }
}

/// A digit string's value is never negative.
proof fn lemma_digits_val_nonneg(s: Seq<char>)
    requires
        all_digits(s),
    ensures
        digits_val(s) >= 0,
    decreases s.len(),
{
    if s.len() > 0 {
        assert(forall|i: int|
            0 <= i < s.len() - 1 ==> s.drop_last()[i] == s[i]);
        lemma_digits_val_nonneg(s.drop_last());
    }
}

/// A longer digit prefix denotes at least as large a number.
proof fn lemma_digits_val_monotone(s: Seq<char>, i: int, j: int)
    requires
        all_digits(s),
        0 <= i <= j <= s.len(),
    ensures
        digits_val(s.take(i)) <= digits_val(s.take(j)),
    decreases j - i,
{
    if i < j {
        lemma_digits_val_monotone(s, i, j - 1);
        let shorter = s.take(j - 1);
        let longer = s.take(j);
        assert(longer.drop_last() =~= shorter);
        assert(forall|k: int| 0 <= k < shorter.len() ==> shorter[k] == s[k]);
        lemma_digits_val_nonneg(shorter);
        assert(is_digit(longer.last()));
        assert(digits_val(longer) == digits_val(shorter) * 10 + digit_val(longer.last()));
    }
}

/// What parsing an unsigned decimal yields: the denoted number when
/// the text is one or more digits and the number fits, nothing
/// otherwise.
pub open spec fn spec_parse_u63(s: Seq<char>) -> Option<i64> {
    if s.len() > 0 && all_digits(s) && digits_val(s) <= i64::MAX {
        Some(digits_val(s) as i64)
    } else {
        None
    }
}

/// Parses an unsigned decimal that must fit a signed 64-bit value.
pub fn parse_u63(s: &str) -> (r: Option<i64>)
    ensures
        r == spec_parse_u63(s@),
        r matches Some(v) ==> v >= 0,
{
    let n = s.unicode_len();
    if n == 0 {
        return None;
    }
    let mut acc: i64 = 0;
    let mut i: usize = 0;
    proof {
        assert(s@.take(0) =~= Seq::<char>::empty());
    }
    while i < n
        invariant
            i <= n,
            n == s@.len(),
            all_digits(s@.take(i as int)),
            acc == digits_val(s@.take(i as int)),
            acc >= 0,
        decreases n - i,
    {
        let c = s.get_char(i);
        let code = c as u32;
        if code < 48 || code > 57 {
            proof {
                assert(s@[i as int] == c);
                assert(!is_digit(s@[i as int]));
            }
            return None;
        }
        let d = (code - 48) as i64;
        proof {
            assert(s@.take(i as int + 1) =~= s@.take(i as int).push(s@[i as int]));
            assert(s@.take(i as int + 1).drop_last() =~= s@.take(i as int));
        }
        if acc > (i64::MAX - d) / 10 {
            // the number can only grow from here on
            proof {
                let here = i as int + 1;
                assert(digits_val(s@.take(here)) == acc * 10 + d);
                assert(digits_val(s@.take(here)) > i64::MAX);
                if all_digits(s@) {
                    lemma_digits_val_monotone(s@, here, n as int);
                    assert(s@.take(n as int) =~= s@);
                }
            }
            return None;
        }
        acc = acc * 10 + d;
        i += 1;
    }
    proof {
        assert(s@.take(n as int) =~= s@);
    }
    Some(acc)
}

/// What a caller-given date means, relative to `now`: a leading
/// minus sign followed by digits counts minutes back from `now`,
/// anything else must parse as an ISO-8601 instant.
pub open spec fn spec_parse_date(s: Seq<char>, now: i64) -> Option<i64> {
    if s.len() > 0 && s[0] == '-' {
        match spec_parse_u63(s.skip(1)) {
            Some(minutes) => if now - minutes * 60 >= i64::MIN && minutes * 60 <= i64::MAX {
                Some((now - minutes * 60) as i64)
            } else {
                None
            },
            None => None,
        }
    } else {
        iso_parse_of(s)
    }
}

/// Turns a caller-given date into a Unix timestamp: `-N` means `N`
/// minutes before `now`, anything else is read as an ISO-8601
/// instant.  Fails exactly when neither reading applies (or the
/// offset leaves the timestamp range).
pub fn parse_date(date: &str, now: i64) -> (r: Result<i64, String>)
    ensures
        match r {
            Ok(ts) => spec_parse_date(date@, now) == Some(ts),
            Err(_) => spec_parse_date(date@, now) is None,
        },
{
    let n = date.unicode_len();
    if n > 0 && date.get_char(0) == '-' {
        let rest = date.substring_char(1, n);
        proof {
            assert(rest@ =~= date@.skip(1));
        }
        match parse_u63(rest) {
            Some(minutes) => {
                if minutes <= i64::MAX / 60 && now >= i64::MIN + minutes * 60 {
                    Ok(now - minutes * 60)
                } else {
                    Err(String::from_str("date offset out of range"))
                }
            },
            None => Err(String::from_str("invalid date offset")),
        }
    } else {
        match parse_iso_instant(date) {
            Some(ts) => Ok(ts),
            None => Err(String::from_str("invalid date")),
        }
    }
}

/// Turns an optional caller-given end date into a Unix timestamp:
/// an absent date means `now`.
pub fn parse_end_date(date: &Option<String>, now: i64) -> (r: Result<i64, String>)
    ensures
        match date {
            Some(d) => match r {
                Ok(ts) => spec_parse_date(d@, now) == Some(ts),
                Err(_) => spec_parse_date(d@, now) is None,
            },
            None => r == Ok::<i64, String>(now),
        },
{
    match date {
        Some(d) => parse_date(d.as_str(), now),
        None => Ok(now),
    }
}

} // verus!
