use vstd::prelude::*;

verus! {

/// The decimal digit character for a value below 10.
pub open spec fn dec_digit(d: int) -> char {
    if d == 0 {
        '0'
    } else if d == 1 {
        '1'
    } else if d == 2 {
        '2'
    } else if d == 3 {
        '3'
    } else if d == 4 {
        '4'
    } else if d == 5 {
        '5'
    } else if d == 6 {
        '6'
    } else if d == 7 {
        '7'
    } else if d == 8 {
        '8'
    } else {
        '9'
    }
}

/// The usual decimal rendering of a non-negative value, without leading
/// zeros (a lone zero for 0).
pub open spec fn dec_of(v: int) -> Seq<char>
    decreases v,
{
    if v < 10 {
        seq![dec_digit(v)]
    } else {
        dec_of(v / 10).push(dec_digit(v % 10))
    }
}

fn append_dec_digit(s: &mut String, d: u64)
    requires
        d < 10,
    ensures
        final(s)@ == old(s)@.push(dec_digit(d as int)),
{
    match d {
        0 => {
            proof {
                reveal_strlit("0");
            }
            s.append("0");
        },
        1 => {
            proof {
                reveal_strlit("1");
            }
            s.append("1");
        },
        2 => {
            proof {
                reveal_strlit("2");
            }
            s.append("2");
        },
        3 => {
            proof {
                reveal_strlit("3");
            }
            s.append("3");
        },
        4 => {
            proof {
                reveal_strlit("4");
            }
            s.append("4");
        },
        5 => {
            proof {
                reveal_strlit("5");
            }
            s.append("5");
        },
        6 => {
            proof {
                reveal_strlit("6");
            }
            s.append("6");
        },
        7 => {
            proof {
                reveal_strlit("7");
            }
            s.append("7");
        },
        8 => {
            proof {
                reveal_strlit("8");
            }
            s.append("8");
        },
        _ => {
            proof {
                reveal_strlit("9");
            }
            s.append("9");
        },
    }
    proof {
        assert(final(s)@ =~= old(s)@.push(dec_digit(d as int)));
    }
}

/// Appends the decimal rendering of `v` to `s`.
pub fn append_dec(s: &mut String, v: u64)
    ensures
        final(s)@ == old(s)@ + dec_of(v as int),
    decreases v,
{
    if v < 10 {
        append_dec_digit(s, v);
        proof {
            assert(final(s)@ =~= old(s)@ + dec_of(v as int));
        }
    } else {
        append_dec(s, v / 10);
        append_dec_digit(s, v % 10);
        proof {
            assert(final(s)@ =~= old(s)@ + dec_of(v as int));
        }
    }
}

/// The decimal rendering of `v` as a fresh string.
pub fn u64_to_string(v: u64) -> (r: String)
    ensures
        r@ == dec_of(v as int),
{
    let mut s = String::new();
    append_dec(&mut s, v);
    proof {
        assert(s@ =~= dec_of(v as int));
    }
    s
}

/// The human duration breakdown: seconds below one minute render as
/// `{n}s`; otherwise a descending `{days}d {hours}h {minutes}m` using an
/// 8-hour workday, omitting zero-valued leading units, with the minutes
/// part shown only when non-zero or alone.
pub open spec fn duration_spec(s: int) -> Seq<char> {
    if s < 60 {
        dec_of(s) + seq!['s']
    } else {
        let m = s / 60;
        let h = m / 60;
        let d = h / 8;
        let rh = h % 8;
        let rm = m % 60;
        if d > 0 {
            if rm > 0 {
                dec_of(d) + seq!['d', ' '] + dec_of(rh) + seq!['h', ' '] + dec_of(rm) + seq!['m']
            } else {
                dec_of(d) + seq!['d', ' '] + dec_of(rh) + seq!['h']
            }
        } else if rh > 0 {
            if rm > 0 {
                dec_of(rh) + seq!['h', ' '] + dec_of(rm) + seq!['m']
            } else {
                dec_of(rh) + seq!['h']
            }
        } else {
            dec_of(rm) + seq!['m']
        }
    }
}

/// Renders an accumulated number of seconds as the human breakdown that
/// `duration_spec` describes.
pub fn format_duration_human(seconds: i64) -> (r: String)
    requires
        0 <= seconds,
    ensures
        r@ == duration_spec(seconds as int),
{
    let mut s = String::new();
    proof {
        reveal_strlit("s");
        reveal_strlit("d");
        reveal_strlit("h");
        reveal_strlit("m");
        reveal_strlit(" ");
    }
    if seconds < 60 {
        append_dec(&mut s, seconds as u64);
        s.append("s");
        proof {
            assert(s@ =~= duration_spec(seconds as int));
        }
        return s;
    }
    let m = (seconds as u64) / 60;
    let h = m / 60;
    let d = h / 8;
    let rh = h % 8;
    let rm = m % 60;
    if d > 0 {
        append_dec(&mut s, d);
        s.append("d");
        s.append(" ");
        append_dec(&mut s, rh);
        s.append("h");
        if rm > 0 {
            s.append(" ");
            append_dec(&mut s, rm);
            s.append("m");
        }
    } else if rh > 0 {
        append_dec(&mut s, rh);
        s.append("h");
        if rm > 0 {
            s.append(" ");
            append_dec(&mut s, rm);
            s.append("m");
        }
    } else {
        append_dec(&mut s, rm);
        s.append("m");
    }
    proof {
        assert(s@ =~= duration_spec(seconds as int));
    }
    s
}

} // verus!
