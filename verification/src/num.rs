//! Whole numbers as text: decimal and hexadecimal rendering, padding, and
//! the parsing that reads a rendered number back.

use vstd::prelude::*;
use crate::text::{chars_of, digit};

verus! {

// ---------------------------------------------------------------------------
// Rendering
// ---------------------------------------------------------------------------

/// The decimal digit for `0 <= d < 10`.
pub open spec fn digit_char(d: int) -> char {
    (48 + d) as char
}

/// The decimal text of a natural number, without leading zeros.
pub open spec fn nat_text(n: int) -> Seq<char>
    decreases n,
{
    if n < 10 {
        seq![digit_char(n)]
    } else {
        nat_text(n / 10).push(digit_char(n % 10))
    }
}

/// The decimal text of an integer.
pub open spec fn int_text(n: int) -> Seq<char> {
    if n < 0 {
        seq!['-'] + nat_text(-n)
    } else {
        nat_text(n)
    }
}

/// The numbers that a list of them holds.
pub open spec fn ints_in(v: Seq<i64>) -> Seq<int> {
    Seq::new(v.len(), |i: int| v[i] as int)
}

fn push_nat(s: &mut String, n: u64)
    ensures
        final(s)@ == old(s)@ + nat_text(n as int),
    decreases n,
{
    if n >= 10 {
        push_nat(s, n / 10);
    }
    let d: u8 = (n % 10) as u8;
    s.push((48 + d) as char);
    assert(s@ =~= old(s)@ + nat_text(n as int));
}

/// The decimal text of a natural number.
pub fn show_nat(n: u64) -> (r: String)
    ensures
        r@ == int_text(n as int),
{
    let mut s = String::new();
    push_nat(&mut s, n);
    assert(s@ =~= int_text(n as int));
    s
}

/// The decimal text of an integer.
pub fn show_int(n: i64) -> (r: String)
    ensures
        r@ == int_text(n as int),
{
    let mut s = String::new();
    if n < 0 {
        s.push('-');
        push_nat(&mut s, (-(n as i128)) as u64);
    } else {
        push_nat(&mut s, n as u64);
    }
    assert(s@ =~= int_text(n as int));
    s
}

/// The decimal text of a count.
pub fn show_count(n: usize) -> (r: String)
    ensures
        r@ == int_text(n as int),
{
    show_nat(n as u64)
}

/// `n` spaces.
pub open spec fn spaces(n: int) -> Seq<char> {
    Seq::new(
        if n > 0 {
            n as nat
        } else {
            0
        },
        |i: int| ' ',
    )
}

/// `s` with spaces in front, up to `width` characters.
pub open spec fn padded_left(s: Seq<char>, width: int) -> Seq<char> {
    spaces(width - s.len()) + s
}

/// `s` with spaces behind, up to `width` characters.
pub open spec fn padded_right(s: Seq<char>, width: int) -> Seq<char> {
    s + spaces(width - s.len())
}

fn pad_of(len: usize, width: usize) -> (r: String)
    ensures
        r@ == spaces(width - len),
{
    let mut r = String::new();
    let mut i: usize = len;
    while i < width
        invariant
            len <= i,
            i <= width || i == len,
            r@ == spaces(i - len),
        decreases width - i,
    {
        r.push(' ');
        i += 1;
        assert(r@ =~= spaces(i - len));
    }
    assert(r@ =~= spaces(width - len));
    r
}

pub fn pad_left(s: &str, width: usize) -> (r: String)
    ensures
        r@ == padded_left(s@, width as int),
{
    let n = chars_of(s).len();
    let mut r = pad_of(n, width);
    r.append(s);
    r
}

pub fn pad_right(s: &str, width: usize) -> (r: String)
    ensures
        r@ == padded_right(s@, width as int),
{
    let n = chars_of(s).len();
    let p = pad_of(n, width);
    let mut r = String::from_str(s);
    r.append(p.as_str());
    r
}

/// The lower-case hexadecimal digit for `0 <= d < 16`.
pub open spec fn hex_char(d: int) -> char {
    if d < 10 {
        (48 + d) as char
    } else {
        (87 + d) as char
    }
}

/// The last `width` hexadecimal digits of `n`, with leading zeros.
pub open spec fn hex_text(n: int, width: nat) -> Seq<char>
    decreases width,
{
    if width == 0 {
        Seq::empty()
    } else {
        hex_text(n / 16, (width - 1) as nat).push(hex_char(n % 16))
    }
}

fn push_hex(s: &mut String, n: u64, width: u8)
    ensures
        final(s)@ == old(s)@ + hex_text(n as int, width as nat),
    decreases width,
{
    if width > 0 {
        push_hex(s, n / 16, width - 1);
        let d: u8 = (n % 16) as u8;
        if d < 10 {
            s.push((48 + d) as char);
        } else {
            s.push((87 + d) as char);
        }
    }
    assert(s@ =~= old(s)@ + hex_text(n as int, width as nat));
}

/// The 16 hexadecimal digits of a 64-bit number.
pub fn show_hex(n: u64) -> (r: String)
    ensures
        r@ == hex_text(n as int, 16),
{
    let mut s = String::new();
    push_hex(&mut s, n, 16);
    assert(s@ =~= hex_text(n as int, 16));
    s
}

// ---------------------------------------------------------------------------
// Parsing
// ---------------------------------------------------------------------------

/// The number that a sequence of decimal digits stands for.
pub open spec fn digits_value(s: Seq<char>) -> int
    decreases s.len(),
{
    if s.len() == 0 {
        0
    } else {
        digits_value(s.drop_last()) * 10 + (s.last() as int - 48)
    }
}

/// One or more decimal digits and nothing else.
pub open spec fn all_digits(s: Seq<char>) -> bool {
    s.len() > 0 && forall|i: int| 0 <= i < s.len() ==> digit(#[trigger] s[i])
}

/// The integer that `s` writes: digits, with an optional sign in front.
pub open spec fn int_value(s: Seq<char>) -> Option<int> {
    if s.len() > 0 && s[0] == '-' && all_digits(s.skip(1)) {
        Some(-digits_value(s.skip(1)))
    } else if s.len() > 0 && s[0] == '+' && all_digits(s.skip(1)) {
        Some(digits_value(s.skip(1)))
    } else if all_digits(s) {
        Some(digits_value(s))
    } else {
        None
    }
}

/// The natural number that `s` writes: digits, with an optional `+` in front.
pub open spec fn nat_value(s: Seq<char>) -> Option<int> {
    if s.len() > 0 && s[0] == '+' && all_digits(s.skip(1)) {
        Some(digits_value(s.skip(1)))
    } else if all_digits(s) {
        Some(digits_value(s))
    } else {
        None
    }
}

/// The 64-bit signed integer that `s` writes, if it is one.
pub open spec fn i64_value(s: Seq<char>) -> Option<int> {
    match int_value(s) {
        Some(n) => if i64::MIN <= n <= i64::MAX {
            Some(n)
        } else {
            None
        },
        None => None,
    }
}

/// The natural number up to `max` that `s` writes, if it is one.
pub open spec fn nat_value_upto(s: Seq<char>, max: int) -> Option<int> {
    match nat_value(s) {
        Some(n) => if n <= max {
            Some(n)
        } else {
            None
        },
        None => None,
    }
}

pub proof fn lemma_digits_value_nonneg(s: Seq<char>)
    requires
        forall|i: int| 0 <= i < s.len() ==> digit(#[trigger] s[i]),
    ensures
        digits_value(s) >= 0,
    decreases s.len(),
{
    if s.len() > 0 {
        lemma_digits_value_nonneg(s.drop_last());
        assert(digit(s[s.len() - 1]));
    }
}

/// A run of decimal digits: not one, a number of at most 64 bits, or larger.
enum Run {
    Not,
    Value(u64),
    Huge,
}

fn digit_run(v: &Vec<char>, from: usize) -> (r: Run)
    requires
        from <= v.len(),
    ensures
        match r {
            Run::Not => !all_digits(v@.skip(from as int)),
            Run::Value(n) => all_digits(v@.skip(from as int)) && digits_value(v@.skip(from as int))
                == n,
            Run::Huge => all_digits(v@.skip(from as int)) && digits_value(v@.skip(from as int))
                > u64::MAX,
        },
{
    let ghost s = v@.skip(from as int);
    if from == v.len() {
        return Run::Not;
    }
    let mut acc: u64 = 0;
    let mut huge = false;
    let mut i: usize = from;
    assert(s.take(0) =~= Seq::empty());
    while i < v.len()
        invariant
            from <= i <= v.len(),
            s == v@.skip(from as int),
            forall|k: int| 0 <= k < i - from ==> digit(#[trigger] s[k]),
            !huge ==> digits_value(s.take(i - from)) == acc,
            huge ==> digits_value(s.take(i - from)) > u64::MAX,
        decreases v.len() - i,
    {
        let c = v[i];
        assert(s[i - from] == c);
        if !('0' <= c && c <= '9') {
            assert(!digit(s[i - from]));
            return Run::Not;
        }
        let d: u8 = (c as u8) - 48;
        assert(s.take(i + 1 - from).drop_last() =~= s.take(i - from));
        if !huge {
            let next: u128 = acc as u128 * 10 + d as u128;
            if next > 0xffff_ffff_ffff_ffff {
                huge = true;
            } else {
                acc = next as u64;
            }
        }
        i += 1;
    }
    assert(s.take(s.len() as int) =~= s);
    if huge {
        Run::Huge
    } else {
        Run::Value(acc)
    }
}

/// Reads a 64-bit signed integer.
pub fn read_i64(s: &str) -> (r: Option<i64>)
    ensures
        match r {
            Some(n) => i64_value(s@) == Some(n as int),
            None => i64_value(s@) is None,
        },
{
    let v = chars_of(s);
    assert(v@.skip(0) =~= v@);
    if v.len() > 0 && (v[0] == '-' || v[0] == '+') {
        assert(!digit(s@[0]));
        let neg = v[0] == '-';
        match digit_run(&v, 1) {
            Run::Not => None,
            Run::Value(n) => {
                if neg {
                    if n <= 0x8000_0000_0000_0000 {
                        Some((-(n as i128)) as i64)
                    } else {
                        None
                    }
                } else if n <= 0x7fff_ffff_ffff_ffff {
                    Some(n as i64)
                } else {
                    None
                }
            },
            Run::Huge => None,
        }
    } else {
        match digit_run(&v, 0) {
            Run::Not => None,
            Run::Value(n) => if n <= 0x7fff_ffff_ffff_ffff {
                Some(n as i64)
            } else {
                None
            },
            Run::Huge => None,
        }
    }
}

/// Reads a natural number of at most 64 bits.
pub fn read_u64(s: &str) -> (r: Option<u64>)
    ensures
        match r {
            Some(n) => nat_value_upto(s@, u64::MAX as int) == Some(n as int),
            None => nat_value_upto(s@, u64::MAX as int) is None,
        },
{
    let v = chars_of(s);
    assert(v@.skip(0) =~= v@);
    let from: usize = if v.len() > 0 && v[0] == '+' {
        assert(!digit(s@[0]));
        1
    } else {
        0
    };
    match digit_run(&v, from) {
        Run::Not => None,
        Run::Value(n) => Some(n),
        Run::Huge => None,
    }
}

/// Reads a natural number that a count can hold.
pub fn read_count(s: &str) -> (r: Option<usize>)
    ensures
        match r {
            Some(n) => nat_value_upto(s@, usize::MAX as int) == Some(n as int),
            None => nat_value_upto(s@, usize::MAX as int) is None,
        },
{
    match read_u64(s) {
        Some(n) => if n <= usize::MAX as u64 {
            Some(n as usize)
        } else {
            None
        },
        None => None,
    }
}

// ---------------------------------------------------------------------------
// Reading back what was rendered
// ---------------------------------------------------------------------------

/// The text of a natural number is made of digits that write it.
pub proof fn lemma_nat_text(n: int)
    requires
        0 <= n,
    ensures
        all_digits(nat_text(n)),
        digits_value(nat_text(n)) == n,
    decreases n,
{
    let t = nat_text(n);
    if n < 10 {
        assert(t.drop_last() =~= Seq::empty());
        assert(digits_value(Seq::empty()) == 0);
    } else {
        lemma_nat_text(n / 10);
        assert(t.drop_last() =~= nat_text(n / 10));
    }
}

/// The text of a number is made of digits, behind a sign where it is negative.
pub proof fn lemma_int_text(n: int)
    ensures
        int_text(n).len() > 0,
        forall|i: int|
            0 <= i < int_text(n).len() ==> digit(#[trigger] int_text(n)[i]) || int_text(n)[i]
                == '-',
{
    if n < 0 {
        lemma_nat_text(-n);
        let t = nat_text(-n);
        assert forall|i: int| 0 <= i < int_text(n).len() implies digit(#[trigger] int_text(n)[i])
            || int_text(n)[i] == '-' by {
            if i > 0 {
                assert(int_text(n)[i] == t[i - 1]);
            }
        }
    } else {
        lemma_nat_text(n);
    }
}

/// The text of a number reads back as that number.
pub proof fn int_text_reads_back(n: int)
    ensures
        int_value(int_text(n)) == Some(n),
        0 <= n ==> nat_value(int_text(n)) == Some(n),
{
    if n < 0 {
        lemma_nat_text(-n);
        assert(int_text(n).skip(1) =~= nat_text(-n));
    } else {
        lemma_nat_text(n);
        assert(digit(nat_text(n)[0]));
    }
}

/// The text of a number is read as that number where the type can hold it, and
/// refused where it cannot.
pub proof fn numbers_out_of_range_are_refused(n: int, max: int)
    ensures
        i64::MIN <= n <= i64::MAX ==> i64_value(int_text(n)) == Some(n),
        n < i64::MIN || n > i64::MAX ==> i64_value(int_text(n)) is None,
        0 <= n <= max ==> nat_value_upto(int_text(n), max) == Some(n),
        n > max && n >= 0 ==> nat_value_upto(int_text(n), max) is None,
        n < 0 ==> nat_value_upto(int_text(n), max) is None,
{
    int_text_reads_back(n);
    if n < 0 {
        assert(int_text(n)[0] == '-');
        assert(!digit('-'));
    }
}

/// A text is padded with blanks alone, on the one side, up to the width and no
/// further.
pub proof fn padding_adds_blanks_alone(s: Seq<char>, width: int, i: int)
    ensures
        padded_left(s, width).len() == if width > s.len() {
            width
        } else {
            s.len() as int
        },
        padded_right(s, width).len() == padded_left(s, width).len(),
        s.is_suffix_of(padded_left(s, width)),
        s.is_prefix_of(padded_right(s, width)),
        0 <= i < padded_left(s, width).len() - s.len() ==> padded_left(s, width)[i] == ' ',
        s.len() <= i < padded_right(s, width).len() ==> padded_right(s, width)[i] == ' ',
{
    let l = padded_left(s, width);
    let r = padded_right(s, width);
    assert(l.subrange(l.len() - s.len(), l.len() as int) =~= s);
    assert(r.take(s.len() as int) =~= s);
}

/// Hexadecimal digits are written from the last to the first, each as one of
/// sixteen.
pub proof fn hexadecimal_digits_are_written_in_order(n: int, d: int, width: nat)
    requires
        0 <= n,
        0 <= d < 16,
    ensures
        hex_text(16 * n + d, (width + 1) as nat) == hex_text(n, width).push(
            "0123456789abcdef"@[d],
        ),
        hex_text(n, width).len() == width,
    decreases width,
{
    reveal_strlit("0123456789abcdef");
    assert((16 * n + d) / 16 == n && (16 * n + d) % 16 == d);
    if width > 0 {
        hexadecimal_digits_are_written_in_order(n / 16, n % 16, (width - 1) as nat);
        assert(16 * (n / 16) + n % 16 == n);
    }
}

} // verus!
