use vstd::prelude::*;

verus! {

/// A 128-bit task identifier, held as its high and low 64-bit halves.
/// Its canonical text form is the lowercase hyphenated hexadecimal
/// rendering, 8-4-4-4-12 digits; the short display form is the first
/// 8 digits of that rendering.
#[derive(Clone, Copy, Debug, PartialEq, Eq, Structural, Hash)]
pub struct TaskId {
    pub hi: u64,
    pub lo: u64,
}

/// The lowercase hexadecimal digit for a value below 16.
pub open spec fn hex_digit(d: int) -> char {
    if d == 0 {
        '0'
    } else if d == 1 {
        '1'
    } else if d == 2 {
        '2'
    } else if d == 3 {
        '3'
    } else if d == 4 {
        '4'
    } else if d == 5 {
        '5'
    } else if d == 6 {
        '6'
    } else if d == 7 {
        '7'
    } else if d == 8 {
        '8'
    } else if d == 9 {
        '9'
    } else if d == 10 {
        'a'
    } else if d == 11 {
        'b'
    } else if d == 12 {
        'c'
    } else if d == 13 {
        'd'
    } else if d == 14 {
        'e'
    } else {
        'f'
    }
}

/// The last `n` lowercase hex digits of `v`, most significant first.
pub open spec fn hex_of(v: int, n: nat) -> Seq<char>
    decreases n,
{
    if n == 0 {
        Seq::empty()
    } else {
        hex_of(v / 16, (n - 1) as nat).push(hex_digit(v % 16))
    }
}

fn append_hex_digit(s: &mut String, d: u64)
    requires
        d < 16,
    ensures
        final(s)@ == old(s)@.push(hex_digit(d as int)),
{
    match d {
        0 => {
            proof {
                reveal_strlit("0");
            }
            s.append("0");
        },
        1 => {
            proof {
                reveal_strlit("1");
            }
            s.append("1");
        },
        2 => {
            proof {
                reveal_strlit("2");
            }
            s.append("2");
        },
        3 => {
            proof {
                reveal_strlit("3");
            }
            s.append("3");
        },
        4 => {
            proof {
                reveal_strlit("4");
            }
            s.append("4");
        },
        5 => {
            proof {
                reveal_strlit("5");
            }
            s.append("5");
        },
        6 => {
            proof {
                reveal_strlit("6");
            }
            s.append("6");
        },
        7 => {
            proof {
                reveal_strlit("7");
            }
            s.append("7");
        },
        8 => {
            proof {
                reveal_strlit("8");
            }
            s.append("8");
        },
        9 => {
            proof {
                reveal_strlit("9");
            }
            s.append("9");
        },
        10 => {
            proof {
                reveal_strlit("a");
            }
            s.append("a");
        },
        11 => {
            proof {
                reveal_strlit("b");
            }
            s.append("b");
        },
        12 => {
            proof {
                reveal_strlit("c");
            }
            s.append("c");
        },
        13 => {
            proof {
                reveal_strlit("d");
            }
            s.append("d");
        },
        14 => {
            proof {
                reveal_strlit("e");
            }
            s.append("e");
        },
        _ => {
            proof {
                reveal_strlit("f");
            }
            s.append("f");
        },
    }
    proof {
        assert(final(s)@ =~= old(s)@.push(hex_digit(d as int)));
    }
}

/// Appends the last `n` hex digits of `v` to `s`, most significant first.
fn append_hex(s: &mut String, v: u64, n: usize)
    ensures
        final(s)@ == old(s)@ + hex_of(v as int, n as nat),
    decreases n,
{
    if n == 0 {
        proof {
            assert(final(s)@ =~= old(s)@ + hex_of(v as int, 0));
        }
        return ;
    }
    append_hex(s, v / 16, n - 1);
    append_hex_digit(s, v % 16);
    proof {
        assert(final(s)@ =~= old(s)@ + hex_of(v as int, n as nat));
    }
}

impl TaskId {
    /// The 8 leading hex digits of the canonical rendering.
    pub open spec fn short_spec(self) -> Seq<char> {
        hex_of(self.hi as int / 0x100000000, 8)
    }

    /// The canonical lowercase hyphenated rendering, 36 characters.
    pub open spec fn canonical_spec(self) -> Seq<char> {
        hex_of(self.hi as int / 0x100000000, 8) + seq!['-'] + hex_of(
            (self.hi as int / 0x10000) % 0x10000,
            4,
        ) + seq!['-'] + hex_of(self.hi as int % 0x10000, 4) + seq!['-'] + hex_of(
            self.lo as int / 0x1000000000000,
            4,
        ) + seq!['-'] + hex_of(self.lo as int % 0x1000000000000, 12)
    }

    /// The short display form: the first 8 hex characters of the full
    /// identifier rendering.
    pub fn short_hex(&self) -> (r: String)
        ensures
            r@ == self.short_spec(),
    {
        let mut s = String::new();
        append_hex(&mut s, self.hi / 0x100000000, 8);
        proof {
            assert(s@ =~= self.short_spec());
        }
        s
    }

    /// The canonical hyphenated rendering of the full identifier.
    pub fn to_canonical(&self) -> (r: String)
        ensures
            r@ == self.canonical_spec(),
    {
        let mut s = String::new();
        append_hex(&mut s, self.hi / 0x100000000, 8);
        proof {
            reveal_strlit("-");
        }
        s.append("-");
        append_hex(&mut s, (self.hi / 0x10000) % 0x10000, 4);
        s.append("-");
        append_hex(&mut s, self.hi % 0x10000, 4);
        s.append("-");
        append_hex(&mut s, self.lo / 0x1000000000000, 4);
        s.append("-");
        append_hex(&mut s, self.lo % 0x1000000000000, 12);
        proof {
            assert(s@ =~= self.canonical_spec());
        }
        s
    }

    /// A fresh random identifier, carrying the version and variant bits
    /// that a randomly generated identifier declares.
    pub fn random() -> (r: TaskId)
        ensures
            (r.hi / 0x1000) % 16 == 4,
            r.lo / 0x4000000000000000 == 2,
    {
        let (hi, lo) = random_id_bits();
        TaskId { hi, lo }
    }
}

/// A hexadecimal digit in either case.
pub open spec fn is_hex(c: char) -> bool {
    ('0' <= c && c <= '9') || ('a' <= c && c <= 'f') || ('A' <= c && c <= 'F')
}

/// The value of a hexadecimal digit in either case.
pub open spec fn hex_val(c: char) -> int {
    if '0' <= c && c <= '9' {
        c as int - '0' as int
    } else if 'a' <= c && c <= 'f' {
        c as int - 'a' as int + 10
    } else {
        c as int - 'A' as int + 10
    }
}

pub open spec fn all_hex(s: Seq<char>) -> bool {
    forall|i: int| 0 <= i < s.len() ==> is_hex(#[trigger] s[i])
}

/// The value of a string of hex digits, most significant first.
pub open spec fn hex_seq_val(s: Seq<char>) -> int
    decreases s.len(),
{
    if s.len() == 0 {
        0
    } else {
        hex_seq_val(s.drop_last()) * 16 + hex_val(s.last())
    }
}

/// Sixteen to the power of `n`.
pub open spec fn pow16(n: nat) -> int
    decreases n,
{
    if n == 0 {
        1
    } else {
        pow16((n - 1) as nat) * 16
    }
}

proof fn lemma_pow16_pos(n: nat)
    ensures
        pow16(n) >= 1,
    decreases n,
{
    if n > 0 {
        lemma_pow16_pos((n - 1) as nat);
    }
}

proof fn lemma_pow16_le(a: nat, b: nat)
    requires
        a <= b,
    ensures
        pow16(a) <= pow16(b),
    decreases b - a,
{
    if a < b {
        lemma_pow16_le(a, (b - 1) as nat);
        lemma_pow16_pos((b - 1) as nat);
    }
}

proof fn lemma_pow16_16()
    ensures
        pow16(4) == 0x10000,
        pow16(8) == 0x100000000,
        pow16(12) == 0x1000000000000,
        pow16(16) == 0x10000000000000000,
{
    assert(pow16(0) == 1);
    assert(pow16(1) == 16);
    assert(pow16(2) == 0x100);
    assert(pow16(3) == 0x1000);
    assert(pow16(4) == 0x10000);
    assert(pow16(5) == 0x100000);
    assert(pow16(6) == 0x1000000);
    assert(pow16(7) == 0x10000000);
    assert(pow16(8) == 0x100000000);
    assert(pow16(9) == 0x1000000000);
    assert(pow16(10) == 0x10000000000);
    assert(pow16(11) == 0x100000000000);
    assert(pow16(12) == 0x1000000000000);
    assert(pow16(13) == 0x10000000000000);
    assert(pow16(14) == 0x100000000000000);
    assert(pow16(15) == 0x1000000000000000);
}

proof fn lemma_hex_seq_val_bound(s: Seq<char>)
    requires
        all_hex(s),
    ensures
        0 <= hex_seq_val(s) < pow16(s.len() as nat),
    decreases s.len(),
{
    if s.len() > 0 {
        let d = s.drop_last();
        assert(forall|i: int| 0 <= i < d.len() ==> is_hex(#[trigger] d[i]));
        lemma_hex_seq_val_bound(d);
        assert(is_hex(s.last()));
    }
}

/// The canonical 8-4-4-4-12 shape: hyphens at the fixed positions and
/// hex digits everywhere else.
pub open spec fn hyphenated_form(s: Seq<char>) -> bool {
    &&& s.len() == 36
    &&& s[8] == '-'
    &&& s[13] == '-'
    &&& s[18] == '-'
    &&& s[23] == '-'
    &&& all_hex(uuid_digits(s))
}

/// The bare 32-digit shape.
pub open spec fn simple_form(s: Seq<char>) -> bool {
    s.len() == 32 && all_hex(s)
}

/// The 32 digit characters of an identifier string, with the hyphens of
/// the canonical shape dropped.
pub open spec fn uuid_digits(s: Seq<char>) -> Seq<char> {
    if s.len() == 36 {
        s.subrange(0, 8) + s.subrange(9, 13) + s.subrange(14, 18) + s.subrange(19, 23)
            + s.subrange(24, 36)
    } else {
        s
    }
}

/// A parseable identifier string: canonical hyphenated or bare digits,
/// in either case.
pub open spec fn valid_uuid_str(s: Seq<char>) -> bool {
    hyphenated_form(s) || simple_form(s)
}

/// The identifier that 32 digit characters denote.
pub open spec fn id_of_digits(d: Seq<char>) -> TaskId {
    TaskId { hi: hex_seq_val(d.take(16)) as u64, lo: hex_seq_val(d.skip(16)) as u64 }
}

/// The identifier a valid string denotes.
pub open spec fn parse_id_spec(s: Seq<char>) -> TaskId {
    id_of_digits(uuid_digits(s))
}

proof fn lemma_hex_of_len(v: int, n: nat)
    ensures
        hex_of(v, n).len() == n,
    decreases n,
{
    if n > 0 {
        lemma_hex_of_len(v / 16, (n - 1) as nat);
    }
}

proof fn lemma_hex_digit_props(d: int)
    requires
        0 <= d < 16,
    ensures
        is_hex(hex_digit(d)),
        hex_val(hex_digit(d)) == d,
{
}

proof fn lemma_hex_of_all_hex(v: int, n: nat)
    requires
        v >= 0,
    ensures
        all_hex(hex_of(v, n)),
    decreases n,
{
    if n > 0 {
        lemma_hex_of_all_hex(v / 16, (n - 1) as nat);
        lemma_hex_digit_props(v % 16);
        let s = hex_of(v, n);
        let d = hex_of(v / 16, (n - 1) as nat);
        assert forall|i: int| 0 <= i < s.len() implies is_hex(#[trigger] s[i]) by {
            if i < s.len() - 1 {
                assert(s[i] == d[i]);
            }
        }
    }
}

proof fn lemma_hex_of_roundtrip(v: int, n: nat)
    requires
        0 <= v < pow16(n),
    ensures
        hex_seq_val(hex_of(v, n)) == v,
    decreases n,
{
    if n == 0 {
    } else {
        lemma_hex_of_roundtrip(v / 16, (n - 1) as nat);
        lemma_hex_digit_props(v % 16);
        let s = hex_of(v, n);
        assert(s.drop_last() == hex_of(v / 16, (n - 1) as nat));
        assert(s.last() == hex_digit(v % 16));
    }
}

proof fn lemma_hex_seq_val_append(a: Seq<char>, b: Seq<char>)
    ensures
        hex_seq_val(a + b) == hex_seq_val(a) * pow16(b.len() as nat) + hex_seq_val(b),
    decreases b.len(),
{
    if b.len() == 0 {
        assert(a + b =~= a);
        assert(pow16(0) == 1);
    } else {
        let bd = b.drop_last();
        assert((a + b).drop_last() =~= a + bd);
        assert((a + b).last() == b.last());
        lemma_hex_seq_val_append(a, bd);
        assert(hex_seq_val(a + b) == (hex_seq_val(a) * pow16(bd.len() as nat) + hex_seq_val(bd))
            * 16 + hex_val(b.last()));
        assert((hex_seq_val(a) * pow16(bd.len() as nat)) * 16 == hex_seq_val(a) * (pow16(
            bd.len() as nat,
        ) * 16)) by (nonlinear_arith);
        assert(pow16(bd.len() as nat) * 16 == pow16(b.len() as nat));
    }
}

/// Rendering and parsing invert each other: an identifier's canonical
/// string is a valid identifier string, parses back to the very same
/// identifier, and opens with the short display form.
pub proof fn lemma_canonical_roundtrip(id: TaskId)
    ensures
        valid_uuid_str(id.canonical_spec()),
        parse_id_spec(id.canonical_spec()) == id,
        id.canonical_spec().take(8) == id.short_spec(),
{
    let hi = id.hi as int;
    let lo = id.lo as int;
    let h8 = hex_of(hi / 0x100000000, 8);
    let h4a = hex_of((hi / 0x10000) % 0x10000, 4);
    let h4b = hex_of(hi % 0x10000, 4);
    let l4 = hex_of(lo / 0x1000000000000, 4);
    let l12 = hex_of(lo % 0x1000000000000, 12);
    let c = id.canonical_spec();
    lemma_hex_of_len(hi / 0x100000000, 8);
    lemma_hex_of_len((hi / 0x10000) % 0x10000, 4);
    lemma_hex_of_len(hi % 0x10000, 4);
    lemma_hex_of_len(lo / 0x1000000000000, 4);
    lemma_hex_of_len(lo % 0x1000000000000, 12);
    lemma_hex_of_all_hex(hi / 0x100000000, 8);
    lemma_hex_of_all_hex((hi / 0x10000) % 0x10000, 4);
    lemma_hex_of_all_hex(hi % 0x10000, 4);
    lemma_hex_of_all_hex(lo / 0x1000000000000, 4);
    lemma_hex_of_all_hex(lo % 0x1000000000000, 12);
    assert(c.len() == 36);
    assert(c[8] == '-');
    assert(c[13] == '-');
    assert(c[18] == '-');
    assert(c[23] == '-');
    let digits = uuid_digits(c);
    assert(digits =~= h8 + h4a + h4b + l4 + l12);
    assert(all_hex(digits)) by {
        assert forall|i: int| 0 <= i < digits.len() implies is_hex(#[trigger] digits[i]) by {
            if i < 8 {
                assert(digits[i] == h8[i]);
            } else if i < 12 {
                assert(digits[i] == h4a[i - 8]);
            } else if i < 16 {
                assert(digits[i] == h4b[i - 12]);
            } else if i < 20 {
                assert(digits[i] == l4[i - 16]);
            } else {
                assert(digits[i] == l12[i - 20]);
            }
        }
    }
    assert(c.take(8) =~= h8);
    // the 32 digits split back into the two halves
    assert(digits.take(16) =~= h8 + h4a + h4b);
    assert(digits.skip(16) =~= l4 + l12);
    lemma_pow16_16();
    assert(pow16(8) == 0x100000000);
    assert(pow16(4) == 0x10000);
    assert(pow16(12) == 0x1000000000000);
    lemma_hex_of_roundtrip(hi / 0x100000000, 8);
    lemma_hex_of_roundtrip((hi / 0x10000) % 0x10000, 4);
    lemma_hex_of_roundtrip(hi % 0x10000, 4);
    lemma_hex_of_roundtrip(lo / 0x1000000000000, 4);
    lemma_hex_of_roundtrip(lo % 0x1000000000000, 12);
    lemma_hex_seq_val_append(h8 + h4a, h4b);
    lemma_hex_seq_val_append(h8, h4a);
    lemma_hex_seq_val_append(l4, l12);
    assert((h8 + h4a) + h4b =~= h8 + h4a + h4b);
    assert(hex_seq_val(h8 + h4a) == (hi / 0x100000000) * 0x10000 + (hi / 0x10000) % 0x10000);
    assert(hex_seq_val(h8 + h4a + h4b) == ((hi / 0x100000000) * 0x10000 + (hi / 0x10000) % 0x10000)
        * 0x10000 + hi % 0x10000);
    assert(((hi / 0x100000000) * 0x10000 + (hi / 0x10000) % 0x10000) * 0x10000 + hi % 0x10000
        == hi) by (nonlinear_arith)
        requires
            0 <= hi < 0x10000000000000000,
    ;
    assert(hex_seq_val(l4 + l12) == (lo / 0x1000000000000) * 0x1000000000000 + lo
        % 0x1000000000000);
    assert((lo / 0x1000000000000) * 0x1000000000000 + lo % 0x1000000000000 == lo) by (nonlinear_arith)
        requires
            0 <= lo < 0x10000000000000000,
    ;
}

fn is_hex_char(c: char) -> (r: bool)
    ensures
        r == is_hex(c),
{
    ('0' <= c && c <= '9') || ('a' <= c && c <= 'f') || ('A' <= c && c <= 'F')
}

fn hex_digit_of(c: char) -> (r: u64)
    requires
        is_hex(c),
    ensures
        r == hex_val(c),
        r < 16,
{
    if '0' <= c && c <= '9' {
        (c as u32 as u64) - ('0' as u32 as u64)
    } else if 'a' <= c && c <= 'f' {
        (c as u32 as u64) - ('a' as u32 as u64) + 10
    } else {
        (c as u32 as u64) - ('A' as u32 as u64) + 10
    }
}

fn collect_hex(s: &str, from: usize, to: usize, dv: &mut Vec<char>) -> (ok: bool)
    requires
        from <= to <= s@.len(),
    ensures
        ok <==> all_hex(s@.subrange(from as int, to as int)),
        ok ==> final(dv)@ == old(dv)@ + s@.subrange(from as int, to as int),
{
    let ghost seg = s@.subrange(from as int, to as int);
    let mut i = from;
    while i < to
        invariant
            from <= i <= to <= s@.len(),
            seg == s@.subrange(from as int, to as int),
            forall|j: int| 0 <= j < i - from ==> is_hex(#[trigger] seg[j]),
            dv@ =~= old(dv)@ + seg.take(i - from),
        decreases to - i,
    {
        let c = s.get_char(i);
        proof {
            assert(seg[i - from] == c);
        }
        if !is_hex_char(c) {
            return false;
        }
        dv.push(c);
        proof {
            assert(dv@ =~= old(dv)@ + seg.take(i - from + 1));
        }
        i += 1;
    }
    proof {
        assert(seg.take(to - from) =~= seg);
    }
    true
}

fn fold_hex16(dv: &Vec<char>, from: usize) -> (r: u64)
    requires
        from + 16 <= dv@.len(),
        all_hex(dv@.subrange(from as int, from as int + 16)),
    ensures
        r == hex_seq_val(dv@.subrange(from as int, from as int + 16)),
{
    let ghost seg = dv@.subrange(from as int, from as int + 16);
    let dlen = dv.len();
    let mut acc: u64 = 0;
    let mut i: usize = 0;
    while i < 16
        invariant
            0 <= i <= 16,
            from + 16 <= dlen == dv@.len(),
            seg == dv@.subrange(from as int, from as int + 16),
            all_hex(seg),
            acc == hex_seq_val(seg.take(i as int)),
            acc < pow16(i as nat),
        decreases 16 - i,
    {
        let c = dv[from + i];
        proof {
            assert(seg[i as int] == c);
            assert(seg.take(i + 1).drop_last() =~= seg.take(i as int));
            assert(seg.take(i + 1).last() == c);
            let p = seg.take(i as int);
            assert(forall|j: int| 0 <= j < p.len() ==> is_hex(#[trigger] p[j]));
            lemma_hex_seq_val_bound(p);
            lemma_pow16_le((i + 1) as nat, 16);
            lemma_pow16_16();
        }
        let d = hex_digit_of(c);
        acc = acc * 16 + d;
        i += 1;
    }
    proof {
        assert(seg.take(16) =~= seg);
    }
    acc
}

/// Parses a full identifier string: the canonical hyphenated shape or
/// the bare 32-digit shape, in either letter case.
pub fn parse_task_id(s: &str) -> (r: Result<TaskId, crate::errors::TwigError>)
    ensures
        r is Ok <==> valid_uuid_str(s@),
        r is Ok ==> r->Ok_0 == parse_id_spec(s@),
        r is Err ==> r->Err_0 == crate::errors::TwigError::InvalidFormat,
{
    let n = s.unicode_len();
    if n == 36 {
        if s.get_char(8) != '-' || s.get_char(13) != '-' || s.get_char(18) != '-' || s.get_char(23)
            != '-' {
            return Err(crate::errors::TwigError::InvalidFormat);
        }
        let ghost digits = uuid_digits(s@);
        let mut dv: Vec<char> = Vec::new();
        if !collect_hex(s, 0, 8, &mut dv) {
            proof {
                lemma_segment_not_hex(s@, 0, 8, 0);
            }
            return Err(crate::errors::TwigError::InvalidFormat);
        }
        if !collect_hex(s, 9, 13, &mut dv) {
            proof {
                lemma_segment_not_hex(s@, 9, 13, 8);
            }
            return Err(crate::errors::TwigError::InvalidFormat);
        }
        if !collect_hex(s, 14, 18, &mut dv) {
            proof {
                lemma_segment_not_hex(s@, 14, 18, 12);
            }
            return Err(crate::errors::TwigError::InvalidFormat);
        }
        if !collect_hex(s, 19, 23, &mut dv) {
            proof {
                lemma_segment_not_hex(s@, 19, 23, 16);
            }
            return Err(crate::errors::TwigError::InvalidFormat);
        }
        if !collect_hex(s, 24, 36, &mut dv) {
            proof {
                lemma_segment_not_hex(s@, 24, 36, 20);
            }
            return Err(crate::errors::TwigError::InvalidFormat);
        }
        proof {
            assert(dv@ =~= digits);
            assert(dv@.subrange(0, 16) =~= digits.take(16));
            assert(dv@.subrange(16, 32) =~= digits.skip(16));
            assert forall|i: int| 0 <= i < 16 implies is_hex(
                #[trigger] dv@.subrange(0, 16)[i],
            ) by {
                assert(dv@.subrange(0, 16)[i] == digits[i]);
            }
            assert forall|i: int| 0 <= i < 16 implies is_hex(
                #[trigger] dv@.subrange(16, 32)[i],
            ) by {
                assert(dv@.subrange(16, 32)[i] == digits[i + 16]);
            }
        }
        let hi = fold_hex16(&dv, 0);
        let lo = fold_hex16(&dv, 16);
        Ok(TaskId { hi, lo })
    } else if n == 32 {
        let ghost digits = s@;
        let mut dv: Vec<char> = Vec::new();
        if !collect_hex(s, 0, 32, &mut dv) {
            proof {
                assert(s@.subrange(0, 32) =~= s@);
            }
            return Err(crate::errors::TwigError::InvalidFormat);
        }
        proof {
            assert(s@.subrange(0, 32) =~= s@);
            assert(dv@ =~= digits);
            assert(dv@.subrange(0, 16) =~= digits.take(16));
            assert(dv@.subrange(16, 32) =~= digits.skip(16));
            assert forall|i: int| 0 <= i < 16 implies is_hex(
                #[trigger] dv@.subrange(0, 16)[i],
            ) by {
                assert(dv@.subrange(0, 16)[i] == digits[i]);
            }
            assert forall|i: int| 0 <= i < 16 implies is_hex(
                #[trigger] dv@.subrange(16, 32)[i],
            ) by {
                assert(dv@.subrange(16, 32)[i] == digits[i + 16]);
            }
        }
        let hi = fold_hex16(&dv, 0);
        let lo = fold_hex16(&dv, 16);
        Ok(TaskId { hi, lo })
    } else {
        Err(crate::errors::TwigError::InvalidFormat)
    }
}

/// A non-hex character inside one hyphen-separated segment makes the
/// digit sequence non-hex.
proof fn lemma_segment_not_hex(s: Seq<char>, from: int, to: int, off: int)
    requires
        s.len() == 36,
        0 <= from <= to <= 36,
        !all_hex(s.subrange(from, to)),
        forall|j: int| from <= j < to ==> uuid_digits(s)[off + j - from] == s[j],
        0 <= off,
        off + (to - from) <= 32,
    ensures
        !all_hex(uuid_digits(s)),
{
    let seg = s.subrange(from, to);
    let j = choose|j: int| 0 <= j < seg.len() && !is_hex(seg[j]);
    assert(uuid_digits(s)[off + j] == s[from + j]);
    assert(!is_hex(uuid_digits(s)[off + j]));
}

/// Relies on uuid::Uuid::new_v4 and Uuid::as_u64_pair: a fresh random
/// RFC 9562 version-4 identifier, split into its most significant and
/// least significant 64 bits.
#[verifier::external_body]
fn random_id_bits() -> (r: (u64, u64))
    ensures
        (r.0 / 0x1000) % 16 == 4,
        r.1 / 0x4000000000000000 == 2,
{
    uuid::Uuid::new_v4().as_u64_pair()
}

} // verus!
