use vstd::prelude::*;

use crate::clock;
use crate::errors::TwigError;
use crate::strutil::{
    all_digits, dec_val, digit_of, is_digit, is_digit_char, lemma_dec_val_bound,
    lemma_dec_val_nonneg, pow10, trim_bounds, trim_spec,
};

verus! {

/// The lowercase counterpart of an ASCII letter; any other character is
/// itself.
pub open spec fn lower_char(c: char) -> char {
    if c == 'A' {
        'a'
    } else if c == 'B' {
        'b'
    } else if c == 'C' {
        'c'
    } else if c == 'D' {
        'd'
    } else if c == 'E' {
        'e'
    } else if c == 'F' {
        'f'
    } else if c == 'G' {
        'g'
    } else if c == 'H' {
        'h'
    } else if c == 'I' {
        'i'
    } else if c == 'J' {
        'j'
    } else if c == 'K' {
        'k'
    } else if c == 'L' {
        'l'
    } else if c == 'M' {
        'm'
    } else if c == 'N' {
        'n'
    } else if c == 'O' {
        'o'
    } else if c == 'P' {
        'p'
    } else if c == 'Q' {
        'q'
    } else if c == 'R' {
        'r'
    } else if c == 'S' {
        's'
    } else if c == 'T' {
        't'
    } else if c == 'U' {
        'u'
    } else if c == 'V' {
        'v'
    } else if c == 'W' {
        'w'
    } else if c == 'X' {
        'x'
    } else if c == 'Y' {
        'y'
    } else if c == 'Z' {
        'z'
    } else {
        c
    }
}

fn lower_char_exec(c: char) -> (r: char)
    ensures
        r == lower_char(c),
{
    match c {
        'A' => 'a',
        'B' => 'b',
        'C' => 'c',
        'D' => 'd',
        'E' => 'e',
        'F' => 'f',
        'G' => 'g',
        'H' => 'h',
        'I' => 'i',
        'J' => 'j',
        'K' => 'k',
        'L' => 'l',
        'M' => 'm',
        'N' => 'n',
        'O' => 'o',
        'P' => 'p',
        'Q' => 'q',
        'R' => 'r',
        'S' => 's',
        'T' => 't',
        'U' => 'u',
        'V' => 'v',
        'W' => 'w',
        'X' => 'x',
        'Y' => 'y',
        'Z' => 'z',
        other => other,
    }
}

/// The trimmed input, ASCII-lowercased.
pub open spec fn lower_seq(s: Seq<char>) -> Seq<char> {
    s.map_values(|c: char| lower_char(c))
}

/// Whether the trimmed, lowercased slice `[lo, hi)` of `s` reads as the
/// keyword.
fn region_matches_lower(s: &str, lo: usize, hi: usize, kw: &str) -> (r: bool)
    requires
        lo <= hi <= s@.len(),
    ensures
        r == (lower_seq(s@.subrange(lo as int, hi as int)) == kw@),
{
    let ghost t = lower_seq(s@.subrange(lo as int, hi as int));
    let klen = kw.unicode_len();
    if hi - lo != klen {
        proof {
            assert(t.len() == hi - lo);
        }
        return false;
    }
    let mut i: usize = 0;
    while i < klen
        invariant
            lo <= hi <= s@.len(),
            hi - lo == klen == kw@.len(),
            t == lower_seq(s@.subrange(lo as int, hi as int)),
            t.len() == klen,
            0 <= i <= klen,
            forall|j: int| 0 <= j < i ==> t[j] == kw@[j],
        decreases klen - i,
    {
        let c = lower_char_exec(s.get_char(lo + i));
        proof {
            assert(t[i as int] == lower_char(s@.subrange(lo as int, hi as int)[i as int]));
        }
        if c != kw.get_char(i) {
            proof {
                assert(t[i as int] != kw@[i as int]);
            }
            return false;
        }
        i += 1;
    }
    proof {
        assert(t =~= kw@);
    }
    true
}

/// The Gregorian leap-year rule.
pub open spec fn is_leap(y: int) -> bool {
    y % 4 == 0 && (y % 100 != 0 || y % 400 == 0)
}

/// The number of days in a month of the Gregorian calendar.
pub open spec fn days_in_month_spec(y: int, m: int) -> int {
    if m == 2 {
        if is_leap(y) {
            29
        } else {
            28
        }
    } else if m == 4 || m == 6 || m == 9 || m == 11 {
        30
    } else {
        31
    }
}

/// A valid calendar date.
pub open spec fn valid_ymd(y: int, m: int, d: int) -> bool {
    1 <= m <= 12 && 1 <= d <= days_in_month_spec(y, m)
}

pub fn days_in_month(y: u64, m: u64) -> (r: u64)
    requires
        1 <= m <= 12,
    ensures
        r == days_in_month_spec(y as int, m as int),
{
    if m == 2 {
        if (y % 4 == 0) && (y % 100 != 0 || y % 400 == 0) {
            29
        } else {
            28
        }
    } else if m == 4 || m == 6 || m == 9 || m == 11 {
        30
    } else {
        31
    }
}

/// The `YYYY-MM-DD` shape.
pub open spec fn iso_shape(t: Seq<char>) -> bool {
    &&& t.len() == 10
    &&& t[4] == '-'
    &&& t[7] == '-'
    &&& all_digits(t.subrange(0, 4))
    &&& all_digits(t.subrange(5, 7))
    &&& all_digits(t.subrange(8, 10))
}

pub open spec fn iso_year(t: Seq<char>) -> int {
    dec_val(t.subrange(0, 4))
}

pub open spec fn iso_month(t: Seq<char>) -> int {
    dec_val(t.subrange(5, 7))
}

pub open spec fn iso_day(t: Seq<char>) -> int {
    dec_val(t.subrange(8, 10))
}

/// A parseable explicit date: the ISO shape naming a valid calendar day.
pub open spec fn iso_valid(t: Seq<char>) -> bool {
    iso_shape(t) && valid_ymd(iso_year(t), iso_month(t), iso_day(t))
}

fn read_num(s: &str, lo: usize, hi: usize) -> (r: Option<u64>)
    requires
        lo <= hi <= s@.len(),
        hi - lo <= 4,
    ensures
        r is Some <==> all_digits(s@.subrange(lo as int, hi as int)),
        r is Some ==> r->0 == dec_val(s@.subrange(lo as int, hi as int)) && r->0 < 10000,
{
    let ghost seg = s@.subrange(lo as int, hi as int);
    let mut acc: u64 = 0;
    let mut i = lo;
    while i < hi
        invariant
            lo <= i <= hi <= s@.len(),
            hi - lo <= 4,
            seg == s@.subrange(lo as int, hi as int),
            forall|j: int| 0 <= j < i - lo ==> is_digit(#[trigger] seg[j]),
            acc == dec_val(seg.take(i - lo)),
            acc < 10000,
        decreases hi - i,
    {
        let c = s.get_char(i);
        proof {
            assert(seg[i - lo] == c);
        }
        if !is_digit_char(c) {
            return None;
        }
        let d = digit_of(c);
        proof {
            let k = i - lo;
            assert(seg.take(k + 1).drop_last() =~= seg.take(k as int));
            assert(seg.take(k + 1).last() == c);
            let p = seg.take(k as int);
            assert(forall|j: int| 0 <= j < p.len() ==> is_digit(#[trigger] p[j]));
            lemma_dec_val_nonneg(p);
            assert(pow10(0) == 1);
            assert(pow10(1) == 10);
            assert(pow10(2) == 100);
            assert(pow10(3) == 1000);
            assert(k == 0 || k == 1 || k == 2 || k == 3);
            assert(pow10(p.len() as nat) <= 1000);
            lemma_dec_val_bound(p, 1000);
        }
        acc = acc * 10 + d;
        i += 1;
    }
    proof {
        assert(seg.take(hi - lo) =~= seg);
    }
    Some(acc)
}

/// Parses a date token: `today`, `yesterday` or `tomorrow` in any
/// letter case, or an explicit `YYYY-MM-DD`, with surrounding whitespace
/// ignored. A keyword yields the current time shifted by whole days; an
/// explicit date yields the machine's local midnight of that day.
pub fn parse_date(s: &str) -> (r: Result<i64, TwigError>)
    ensures
        ({
            let t = trim_spec(s@);
            let low = lower_seq(t);
            &&& (r is Ok <==> (low == "today"@ || low == "yesterday"@ || low == "tomorrow"@
                || iso_valid(t)))
            &&& (r is Err ==> r->Err_0 == TwigError::InvalidFormat)
        }),
{
    let (a, b) = trim_bounds(s);
    let ghost t = trim_spec(s@);
    if region_matches_lower(s, a, b, "today") {
        return Ok(clock::now_seconds());
    }
    if region_matches_lower(s, a, b, "yesterday") {
        let now = clock::now_seconds();
        let v = if now >= i64::MIN + 86400 {
            now - 86400
        } else {
            i64::MIN
        };
        return Ok(v);
    }
    if region_matches_lower(s, a, b, "tomorrow") {
        let now = clock::now_seconds();
        let v = if now <= i64::MAX - 86400 {
            now + 86400
        } else {
            i64::MAX
        };
        return Ok(v);
    }
    if b - a != 10 {
        return Err(TwigError::InvalidFormat);
    }
    if s.get_char(a + 4) != '-' || s.get_char(a + 7) != '-' {
        proof {
            assert(t[4] == s@[a + 4]);
            assert(t[7] == s@[a + 7]);
        }
        return Err(TwigError::InvalidFormat);
    }
    let y = match read_num(s, a, a + 4) {
        Some(v) => v,
        None => {
            proof {
                assert(s@.subrange(a as int, a + 4) =~= t.subrange(0, 4));
            }
            return Err(TwigError::InvalidFormat);
        },
    };
    let m = match read_num(s, a + 5, a + 7) {
        Some(v) => v,
        None => {
            proof {
                assert(s@.subrange(a + 5, a + 7) =~= t.subrange(5, 7));
            }
            return Err(TwigError::InvalidFormat);
        },
    };
    let d = match read_num(s, a + 8, a + 10) {
        Some(v) => v,
        None => {
            proof {
                assert(s@.subrange(a + 8, a + 10) =~= t.subrange(8, 10));
            }
            return Err(TwigError::InvalidFormat);
        },
    };
    proof {
        assert(s@.subrange(a as int, a + 4) =~= t.subrange(0, 4));
        assert(s@.subrange(a + 5, a + 7) =~= t.subrange(5, 7));
        assert(s@.subrange(a + 8, a + 10) =~= t.subrange(8, 10));
        assert(t[4] == s@[a + 4]);
        assert(t[7] == s@[a + 7]);
    }
    if m < 1 || m > 12 {
        return Err(TwigError::InvalidFormat);
    }
    if d < 1 || d > days_in_month(y, m) {
        return Err(TwigError::InvalidFormat);
    }
    match clock::local_midnight_ts(y as i32, m as u32, d as u32) {
        Some(ts) => Ok(ts),
        None => Err(TwigError::InvalidFormat),
    }
}

} // verus!
