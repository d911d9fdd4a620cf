use vstd::prelude::*;

use crate::errors::TwigError;
use crate::strutil::{
    all_digits, dec_val, digit_of, digit_val, is_digit, is_digit_char, lemma_dec_val_bound,
    lemma_dec_val_nonneg, lemma_dec_val_prefix_le, pow10, trim_bounds, trim_spec,
};
use crate::timefmt::{append_dec, dec_digit, dec_of};

verus! {

/// The unit letter a user may attach to an effort value.
#[derive(Clone, Copy, Debug, PartialEq, Eq, Structural)]
pub enum EffortUnit {
    Hours,
    Days,
    Weeks,
    Months,
}

/// A parsed effort estimate. The numeric value is held in thousandths of
/// the given unit, so `"0.5h"` parses to 500 thousandths of an hour.
#[derive(Clone, Copy, Debug, PartialEq, Eq, Structural)]
pub struct EffortEstimate {
    pub value_milli: u64,
    pub unit: EffortUnit,
}

/// The largest whole-number part an effort value may carry.
pub const MAX_EFFORT_WHOLE: u64 = 999999999999;

/// The bound that parsed effort values respect, in thousandths of a unit.
pub const MAX_EFFORT_MILLI: u64 = 999999999999999;

/// The bound on a stored hour total, in thousandths of an hour: the
/// largest parsed value converted with the largest unit factor.
pub const MAX_STORED_MILLI_HOURS: u64 = 159999999999999840;

/// Hours per unit: an 8-hour day, a 40-hour week, a 160-hour month.
pub open spec fn unit_hours(u: EffortUnit) -> int {
    match u {
        EffortUnit::Hours => 1,
        EffortUnit::Days => 8,
        EffortUnit::Weeks => 40,
        EffortUnit::Months => 160,
    }
}

/// The unit a letter denotes, case-insensitively.
pub open spec fn unit_of(c: char) -> Option<EffortUnit> {
    if c == 'h' || c == 'H' {
        Some(EffortUnit::Hours)
    } else if c == 'd' || c == 'D' {
        Some(EffortUnit::Days)
    } else if c == 'w' || c == 'W' {
        Some(EffortUnit::Weeks)
    } else if c == 'm' || c == 'M' {
        Some(EffortUnit::Months)
    } else {
        None
    }
}

/// The index of the first `'.'`, or the length when there is none.
pub open spec fn first_dot(s: Seq<char>) -> int
    decreases s.len(),
{
    if s.len() == 0 {
        0
    } else if s[0] == '.' {
        0
    } else {
        1 + first_dot(s.drop_first())
    }
}

proof fn lemma_first_dot_at(s: Seq<char>, k: int)
    requires
        0 <= k <= s.len(),
        forall|j: int| 0 <= j < k ==> s[j] != '.',
        k < s.len() ==> s[k] == '.',
    ensures
        first_dot(s) == k,
    decreases k,
{
    if s.len() == 0 {
    } else if k == 0 {
    } else {
        let d = s.drop_first();
        lemma_first_dot_at(d, k - 1);
    }
}

/// A numeric token: decimal digits with at most one dot, neither empty
/// nor a lone dot.
pub open spec fn valid_number(s: Seq<char>) -> bool {
    let k = first_dot(s);
    if k == s.len() {
        s.len() > 0 && all_digits(s)
    } else {
        &&& s.len() > 1
        &&& all_digits(s.take(k))
        &&& all_digits(s.skip(k + 1))
        &&& first_dot(s.skip(k + 1)) == s.len() - k - 1
    }
}

/// The fractional digits' contribution in thousandths: the first three
/// digits, padded with zeros when fewer are given.
pub open spec fn frac3(f: Seq<char>) -> int {
    if f.len() >= 3 {
        dec_val(f.take(3))
    } else {
        dec_val(f) * pow10((3 - f.len()) as nat)
    }
}

/// The token's value in thousandths of a unit.
pub open spec fn number_milli(s: Seq<char>) -> int {
    let k = first_dot(s);
    if k == s.len() {
        dec_val(s) * 1000
    } else {
        dec_val(s.take(k)) * 1000 + frac3(s.skip(k + 1))
    }
}

/// What parsing an effort string yields: the input is trimmed, its last
/// character names the unit, and the rest is the numeric value, which must
/// stay within `MAX_EFFORT_WHOLE` whole units.
pub open spec fn effort_spec(raw: Seq<char>) -> Option<EffortEstimate> {
    let t = trim_spec(raw);
    if t.len() == 0 {
        None
    } else {
        match unit_of(t.last()) {
            Some(u) => {
                let num = t.drop_last();
                if valid_number(num) && dec_val(num.take(first_dot(num))) <= MAX_EFFORT_WHOLE {
                    Some(EffortEstimate { value_milli: number_milli(num) as u64, unit: u })
                } else {
                    None
                }
            },
            None => None,
        }
    }
}

fn parse_whole(s: &str, lo: usize, hi: usize) -> (r: Option<u64>)
    requires
        lo <= hi <= s@.len(),
    ensures
        r is Some <==> (all_digits(s@.subrange(lo as int, hi as int)) && dec_val(
            s@.subrange(lo as int, hi as int),
        ) <= MAX_EFFORT_WHOLE),
        r is Some ==> r->0 == dec_val(s@.subrange(lo as int, hi as int)),
{
    let ghost num = s@.subrange(lo as int, hi as int);
    let mut i = lo;
    let mut acc: u64 = 0;
    while i < hi
        invariant
            lo <= i <= hi <= s@.len(),
            num == s@.subrange(lo as int, hi as int),
            forall|j: int| 0 <= j < i - lo ==> is_digit(#[trigger] num[j]),
            acc == dec_val(num.take(i - lo)),
            acc <= MAX_EFFORT_WHOLE,
        decreases hi - i,
    {
        let c = s.get_char(i);
        proof {
            assert(num[i - lo] == c);
        }
        if !is_digit_char(c) {
            return None;
        }
        let d = digit_of(c);
        let next = acc * 10 + d;
        proof {
            assert(num.take(i - lo + 1).drop_last() =~= num.take(i - lo));
            assert(num.take(i - lo + 1).last() == c);
        }
        if next > MAX_EFFORT_WHOLE {
            proof {
                if all_digits(num) {
                    lemma_dec_val_prefix_le(num, i - lo + 1);
                }
            }
            return None;
        }
        acc = next;
        i += 1;
    }
    proof {
        assert(num.take(hi - lo) =~= num);
    }
    Some(acc)
}

fn parse_frac(s: &str, lo: usize, hi: usize) -> (r: Option<u64>)
    requires
        lo <= hi <= s@.len(),
    ensures
        r is Some <==> all_digits(s@.subrange(lo as int, hi as int)),
        r is Some ==> r->0 == frac3(s@.subrange(lo as int, hi as int)) && r->0 <= 999,
{
    let ghost f = s@.subrange(lo as int, hi as int);
    let mut i = lo;
    let mut acc: u64 = 0;
    while i < hi
        invariant
            lo <= i <= hi <= s@.len(),
            f == s@.subrange(lo as int, hi as int),
            forall|j: int| 0 <= j < i - lo ==> is_digit(#[trigger] f[j]),
            acc == dec_val(f.take(if i - lo <= 3 { i - lo } else { 3 })),
            acc <= 999,
        decreases hi - i,
    {
        let c = s.get_char(i);
        proof {
            assert(f[i - lo] == c);
        }
        if !is_digit_char(c) {
            return None;
        }
        if i - lo < 3 {
            let d = digit_of(c);
            proof {
                assert(f.take(i - lo + 1).drop_last() =~= f.take(i - lo));
                assert(f.take(i - lo + 1).last() == c);
                let p = f.take(i - lo);
                assert(forall|j: int| 0 <= j < p.len() ==> is_digit(#[trigger] p[j]));
                lemma_dec_val_nonneg(p);
                lemma_dec_val_bound(p, pow10(p.len() as nat));
                assert(pow10(0) == 1);
                assert(pow10(1) == 10);
                assert(pow10(2) == 100);
            }
            acc = acc * 10 + d;
        }
        i += 1;
    }
    let len = hi - lo;
    proof {
        assert(forall|j: int| 0 <= j < f.len() ==> is_digit(#[trigger] f[j]));
        lemma_dec_val_nonneg(f);
        if len >= 3 {
            assert(acc == dec_val(f.take(3)));
        } else {
            assert(f.take(len as int) =~= f);
            lemma_dec_val_bound(f, pow10(f.len() as nat));
            assert(pow10(0) == 1);
            assert(pow10(1) == 10);
            assert(pow10(2) == 100);
        }
    }
    if len == 0 {
        Some(0)
    } else if len == 1 {
        Some(acc * 100)
    } else if len == 2 {
        Some(acc * 10)
    } else {
        Some(acc)
    }
}

impl EffortEstimate {
    /// Parsed values stay below one thousand billion whole units.
    pub open spec fn wf(self) -> bool {
        self.value_milli <= MAX_EFFORT_MILLI
    }

    /// Parses an effort string such as `"1h"`, `"2d"`, `"3w"` or `"2m"`:
    /// a decimal value followed by one unit letter.
    pub fn parse(s: &str) -> (r: Result<EffortEstimate, TwigError>)
        ensures
            r is Ok <==> effort_spec(s@) is Some,
            r is Ok ==> r->Ok_0 == effort_spec(s@)->0 && r->Ok_0.wf(),
            r is Err ==> r->Err_0 == TwigError::InvalidFormat,
    {
        let (a, b) = trim_bounds(s);
        let ghost t = trim_spec(s@);
        if b == a {
            return Err(TwigError::InvalidFormat);
        }
        let uc = s.get_char(b - 1);
        proof {
            assert(t.last() == uc);
        }
        let unit = if uc == 'h' || uc == 'H' {
            EffortUnit::Hours
        } else if uc == 'd' || uc == 'D' {
            EffortUnit::Days
        } else if uc == 'w' || uc == 'W' {
            EffortUnit::Weeks
        } else if uc == 'm' || uc == 'M' {
            EffortUnit::Months
        } else {
            return Err(TwigError::InvalidFormat);
        };
        let lo = a;
        let hi = b - 1;
        let ghost num = s@.subrange(lo as int, hi as int);
        proof {
            assert(num =~= t.drop_last());
        }
        let mut k = lo;
        while k < hi && s.get_char(k) != '.'
            invariant
                lo <= k <= hi <= s@.len(),
                num == s@.subrange(lo as int, hi as int),
                forall|j: int| 0 <= j < k - lo ==> num[j] != '.',
            decreases hi - k,
        {
            proof {
                assert(num[k - lo] == s@[k as int]);
            }
            k += 1;
        }
        proof {
            if k < hi {
                assert(num[k - lo] == s@[k as int]);
            }
            lemma_first_dot_at(num, k - lo);
        }
        if k == hi {
            if lo == hi {
                return Err(TwigError::InvalidFormat);
            }
            match parse_whole(s, lo, hi) {
                Some(w) => {
                    proof {
                        assert(num.take(hi - lo) =~= num);
                    }
                    Ok(EffortEstimate { value_milli: w * 1000, unit })
                },
                None => {
                    proof {
                        assert(num.take(hi - lo) =~= num);
                    }
                    Err(TwigError::InvalidFormat)
                },
            }
        } else {
            if hi - lo < 2 {
                return Err(TwigError::InvalidFormat);
            }
            let w = match parse_whole(s, lo, k) {
                Some(w) => w,
                None => {
                    proof {
                        assert(s@.subrange(lo as int, k as int) =~= num.take(k - lo));
                    }
                    return Err(TwigError::InvalidFormat);
                },
            };
            let f = match parse_frac(s, k + 1, hi) {
                Some(f) => f,
                None => {
                    proof {
                        assert(s@.subrange(k + 1, hi as int) =~= num.skip(k - lo + 1));
                    }
                    return Err(TwigError::InvalidFormat);
                },
            };
            proof {
                assert(s@.subrange(lo as int, k as int) =~= num.take(k - lo));
                assert(s@.subrange(k + 1, hi as int) =~= num.skip(k - lo + 1));
                let fr = num.skip(k - lo + 1);
                assert(forall|j: int| 0 <= j < fr.len() ==> is_digit(#[trigger] fr[j]));
                assert forall|j: int| 0 <= j < fr.len() implies fr[j] != '.' by {
                    assert(is_digit(fr[j]));
                }
                lemma_first_dot_at(fr, fr.len() as int);
            }
            Ok(EffortEstimate { value_milli: w * 1000 + f, unit })
        }
    }

    /// The value converted to thousandths of an hour.
    pub fn to_hours_millis(&self) -> (r: u64)
        requires
            self.wf(),
        ensures
            r == self.value_milli * unit_hours(self.unit),
            r <= MAX_STORED_MILLI_HOURS,
    {
        match self.unit {
            EffortUnit::Hours => self.value_milli,
            EffortUnit::Days => self.value_milli * 8,
            EffortUnit::Weeks => self.value_milli * 40,
            EffortUnit::Months => self.value_milli * 160,
        }
    }
}

/// The letter that closes a formatted estimate for each unit.
pub open spec fn unit_letter(u: EffortUnit) -> char {
    match u {
        EffortUnit::Hours => 'h',
        EffortUnit::Days => 'd',
        EffortUnit::Weeks => 'w',
        EffortUnit::Months => 'm',
    }
}

/// Hour totals are clamped to the largest storable value before they are
/// formatted, so formatting is total.
pub open spec fn clamp_hours(hm: int) -> int {
    if hm > MAX_STORED_MILLI_HOURS {
        MAX_STORED_MILLI_HOURS as int
    } else {
        hm
    }
}

/// The display unit an hour total selects: the largest unit whose
/// threshold the value meets (hours below 8, days below 40, weeks below
/// 160, else months).
pub open spec fn display_unit(hm: int) -> EffortUnit {
    if hm < 8000 {
        EffortUnit::Hours
    } else if hm < 40000 {
        EffortUnit::Days
    } else if hm < 160000 {
        EffortUnit::Weeks
    } else {
        EffortUnit::Months
    }
}

/// The value in tenths of the display unit, rounded half-up.
pub open spec fn display_tenths(hm: int) -> int {
    (hm + 50 * unit_hours(display_unit(hm))) / (100 * unit_hours(display_unit(hm)))
}

/// The formatted estimate: the clamped value rounded to one decimal
/// place, followed by the unit letter.
pub open spec fn from_hours_spec(hm: int) -> Seq<char> {
    let c = clamp_hours(hm);
    let t = display_tenths(c);
    dec_of(t / 10) + seq!['.', dec_digit(t % 10), unit_letter(display_unit(c))]
}

/// Formats an hour total (in thousandths of an hour) back to a value with
/// one decimal place and the largest unit whose threshold it meets.
pub fn from_hours(hours_milli_raw: u64) -> (r: String)
    ensures
        r@ == from_hours_spec(hours_milli_raw as int),
{
    let hours_milli = if hours_milli_raw > MAX_STORED_MILLI_HOURS {
        MAX_STORED_MILLI_HOURS
    } else {
        hours_milli_raw
    };
    let (div, letter): (u64, &str) = if hours_milli < 8000 {
        (1, "h")
    } else if hours_milli < 40000 {
        (8, "d")
    } else if hours_milli < 160000 {
        (40, "w")
    } else {
        (160, "m")
    };
    let tenths = (hours_milli + 50 * div) / (100 * div);
    let mut out = String::new();
    append_dec(&mut out, tenths / 10);
    proof {
        reveal_strlit(".");
        reveal_strlit("h");
        reveal_strlit("d");
        reveal_strlit("w");
        reveal_strlit("m");
    }
    out.append(".");
    crate::timefmt::append_dec(&mut out, tenths % 10);
    out.append(letter);
    proof {
        assert(dec_of((tenths % 10) as int) =~= seq![dec_digit((tenths % 10) as int)]);
        assert(out@ =~= from_hours_spec(hours_milli_raw as int));
    }
    out
}

} // verus!
