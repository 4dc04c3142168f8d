//! Calendar dates (proleptic Gregorian, UTC) from day counts since
//! 1970-01-01, and their `YYYY-MM-DD` text.
use vstd::prelude::*;
use crate::text::{decimal, decimal_string, push_char, push_str, owned};

verus! {

broadcast use vstd::string::group_string_axioms;

pub open spec fn is_leap(y: int) -> bool {
    (y % 4 == 0 && y % 100 != 0) || y % 400 == 0
}

pub open spec fn year_days(y: int) -> nat {
    if is_leap(y) { 366 } else { 365 }
}

/// Days from 1970-01-01 to the first day of year `y`.
pub open spec fn days_before_year(y: int) -> nat
    decreases y - 1970,
{
    if y <= 1970 {
        0
    } else {
        days_before_year(y - 1) + year_days(y - 1)
    }
}

pub open spec fn month_days(y: int, m: int) -> nat {
    if m == 2 {
        if is_leap(y) { 29 } else { 28 }
    } else if m == 4 || m == 6 || m == 9 || m == 11 {
        30
    } else {
        31
    }
}

/// Days from the first of January to the first day of month `m`.
pub open spec fn days_before_month(y: int, m: int) -> nat
    decreases m,
{
    if m <= 1 {
        0
    } else {
        days_before_month(y, m - 1) + month_days(y, m - 1)
    }
}

pub open spec fn valid_date(y: int, m: int, d: int) -> bool {
    y >= 1970 && 1 <= m <= 12 && 1 <= d <= month_days(y, m)
}

/// Days from 1970-01-01 to the given date.
pub open spec fn day_number(y: int, m: int, d: int) -> int {
    days_before_year(y) + days_before_month(y, m) + d - 1
}

proof fn lemma_days_before_year_grows(y: int)
    requires
        y >= 1970,
    ensures
        days_before_year(y) >= 365 * (y - 1970),
    decreases y - 1970,
{
    if y > 1970 {
        lemma_days_before_year_grows(y - 1);
    }
}

proof fn lemma_year_total(y: int)
    ensures
        days_before_month(y, 13) == year_days(y),
{
    reveal_with_fuel(days_before_month, 13);
}

/// The date `days` days after 1970-01-01.
pub fn ymd_from_days(days: u64) -> (r: (u64, u64, u64))
    ensures
        valid_date(r.0 as int, r.1 as int, r.2 as int),
        day_number(r.0 as int, r.1 as int, r.2 as int) == days,
{
    let mut y: u64 = 1970;
    let mut remaining: u64 = days;
    while remaining >= 365
        invariant_except_break
            remaining >= 0,
        invariant
            y >= 1970,
            days_before_year(y as int) + remaining == days,
        ensures
            y >= 1970,
            days_before_year(y as int) + remaining == days,
            remaining < year_days(y as int),
        decreases remaining,
    {
        let is_leap = (y % 4 == 0 && y % 100 != 0) || (y % 400 == 0);
        let days_in_y: u64 = if is_leap { 366 } else { 365 };
        if remaining >= days_in_y {
            remaining -= days_in_y;
            proof {
                assert(days_before_year(y + 1) == days_before_year(y as int) + year_days(y as int));
                lemma_days_before_year_grows(y + 1);
                assert(365 * (y + 1 - 1970) <= days);
            }
            y += 1;
        } else {
            break;
        }
    }
    let leap = (y % 4 == 0 && y % 100 != 0) || (y % 400 == 0);
    let feb: u64 = if leap { 29 } else { 28 };
    let days_per_month: [u64; 12] = [31, feb, 31, 30, 31, 30, 31, 31, 30, 31, 30, 31];
    let mut month: u64 = 1;
    let mut i: usize = 0;
    let ghost rem0 = remaining;
    proof {
        lemma_year_total(y as int);
    }
    while i < 12
        invariant_except_break
            remaining >= 0,
        invariant
            i <= 12,
            days_before_month(y as int, i + 1) + remaining == rem0,
            rem0 < year_days(y as int),
            days_before_month(y as int, 13) == year_days(y as int),
            forall|k: int| 0 <= k < 12 ==> days_per_month@[k] == month_days(y as int, k + 1),
        ensures
            1 <= month <= 12,
            days_before_month(y as int, month as int) + remaining == rem0,
            remaining < month_days(y as int, month as int),
        decreases 12 - i,
    {
        let dpm = days_per_month[i];
        if remaining < dpm {
            month = (i + 1) as u64;
            break;
        }
        remaining -= dpm;
        i += 1;
        proof {
            assert(days_before_month(y as int, i + 1) == days_before_month(y as int, i as int) + month_days(y as int, i as int));
        }
    }
    (y, month, remaining + 1)
}

/// `s` left-padded with zeros to at least `width` characters.
pub open spec fn zero_pad(s: Seq<char>, width: nat) -> Seq<char> {
    if s.len() < width {
        Seq::new((width - s.len()) as nat, |i: int| '0') + s
    } else {
        s
    }
}

/// `YYYY-MM-DD` text of a date (`{:04}-{:02}-{:02}`).
pub open spec fn iso_date_text(y: nat, m: nat, d: nat) -> Seq<char> {
    zero_pad(decimal(y), 4) + "-"@ + zero_pad(decimal(m), 2) + "-"@ + zero_pad(decimal(d), 2)
}

/// Appends `n` in decimal, zero-padded to `width`.
pub fn push_padded(out: &mut String, n: u64, width: usize)
    ensures
        final(out)@ == old(out)@ + zero_pad(decimal(n as nat), width as nat),
{
    let d = decimal_string(n);
    let len = d.as_str().unicode_len();
    if len < width {
        let mut k: usize = 0;
        let ghost start = out@;
        while k < width - len
            invariant
                k <= width - len,
                len < width,
                out@ == start + Seq::new(k as nat, |i: int| '0'),
            decreases width - len - k,
        {
            push_char(out, '0');
            proof {
                assert(Seq::new((k + 1) as nat, |i: int| '0') =~= Seq::new(k as nat, |i: int| '0').push('0'));
            }
            k += 1;
        }
        proof {
            assert(start + Seq::new((width - len) as nat, |i: int| '0') + d@ =~= start + (Seq::new((width - len) as nat, |i: int| '0') + d@));
        }
    }
    push_str(out, d.as_str());
}

/// The `YYYY-MM-DD` date `days` days after 1970-01-01.
pub fn iso_date_from_days(days: u64) -> (r: String)
    ensures
        exists|y: nat, m: nat, d: nat|
            valid_date(y as int, m as int, d as int) && day_number(y as int, m as int, d as int) == days && r@
                == #[trigger] iso_date_text(y, m, d),
{
    let (y, m, d) = ymd_from_days(days);
    let mut out = String::new();
    push_padded(&mut out, y, 4);
    push_str(&mut out, "-");
    push_padded(&mut out, m, 2);
    push_str(&mut out, "-");
    push_padded(&mut out, d, 2);
    proof {
        assert(out@ =~= iso_date_text(y as nat, m as nat, d as nat));
    }
    out
}

/// Seconds since the Unix epoch, read from the system clock (0 when the
/// clock reads earlier than the epoch).  Nothing is stated of the value.
#[verifier::external_body]
pub(crate) fn now_unix_secs() -> u64 {
    std::time::SystemTime::now().duration_since(std::time::UNIX_EPOCH).map(|d| d.as_secs()).unwrap_or(0)
}

/// Today's UTC date as `YYYY-MM-DD`.
pub fn simple_iso_date() -> (r: String)
    ensures
        exists|y: nat, m: nat, d: nat|
            valid_date(y as int, m as int, d as int) && r@ == #[trigger] iso_date_text(y, m, d),
{
    let secs = now_unix_secs();
    iso_date_from_days(secs / 86400)
}

} // verus!
