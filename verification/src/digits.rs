//! Decimal and hexadecimal numerals.

use vstd::prelude::*;
use vstd::string::*;

use crate::text::chars_of;

verus! {

/// The numeral for the digit `d`, lower case above nine.
pub open spec fn digit_char(d: int) -> char {
    if d < 10 {
        (48 + d) as char
    } else {
        (87 + d) as char
    }
}

/// The numeral for the digit `d`, lower case above nine.
pub fn digit(d: u8) -> (c: char)
    requires
        d < 16,
    ensures
        c == digit_char(d as int),
{
    if d < 10 {
        (48 + d) as char
    } else {
        (87 + d) as char
    }
}

/// The decimal numeral of `n`, without leading zeros.
pub open spec fn dec_seq(n: nat) -> Seq<char>
    decreases n,
{
    if n < 10 {
        seq![digit_char(n as int)]
    } else {
        dec_seq(n / 10).push(digit_char((n % 10) as int))
    }
}

/// Decimal numerals are made of digits, and different numbers have different
/// ones.
pub proof fn lemma_dec_seq(n: nat)
    ensures
        dec_seq(n).len() > 0,
        dec_value(dec_seq(n)) == n,
        forall|i: int| 0 <= i < dec_seq(n).len() ==> is_dec_digit(#[trigger] dec_seq(n)[i]),
    decreases n,
{
    let s = dec_seq(n);
    if n >= 10 {
        lemma_dec_seq(n / 10);
        assert(s.drop_last() =~= dec_seq(n / 10));
        assert forall|i: int| 0 <= i < s.len() implies is_dec_digit(#[trigger] s[i]) by {
            if i < s.len() - 1 {
                assert(s[i] == dec_seq(n / 10)[i]);
            }
        }
    } else {
        assert(s.drop_last() =~= Seq::<char>::empty());
        assert(dec_value(s.drop_last()) == 0);
    }
}

/// The lower-case hexadecimal numeral of `n`, without leading zeros.
pub open spec fn hex_seq(n: nat) -> Seq<char>
    decreases n,
{
    if n < 16 {
        seq![digit_char(n as int)]
    } else {
        hex_seq(n / 16).push(digit_char((n % 16) as int))
    }
}

/// Appends the decimal numeral of `n`.
pub fn push_dec(out: &mut String, n: u128)
    ensures
        final(out)@ == old(out)@ + dec_seq(n as nat),
    decreases n,
{
    if n >= 10 {
        push_dec(out, n / 10);
    }
    let ghost before = out@;
    out.push(digit((n % 10) as u8));
    proof {
        assert(out@ =~= old(out)@ + dec_seq(n as nat));
    }
}

/// The decimal numeral of `n`.
pub fn dec_string(n: u64) -> (s: String)
    ensures
        s@ == dec_seq(n as nat),
{
    let mut s = String::new();
    push_dec(&mut s, n as u128);
    assert(s@ =~= dec_seq(n as nat));
    s
}

/// Appends the hexadecimal numeral of `n`.
pub fn push_hex(out: &mut String, n: u64)
    ensures
        final(out)@ == old(out)@ + hex_seq(n as nat),
    decreases n,
{
    if n >= 16 {
        push_hex(out, n / 16);
    }
    out.push(digit((n % 16) as u8));
    proof {
        assert(out@ =~= old(out)@ + hex_seq(n as nat));
    }
}

/// A run of `n` times the character `c`.
pub open spec fn repeat_char(c: char, n: nat) -> Seq<char> {
    Seq::new(n, |i: int| c)
}

/// `s` filled up on the left with `c` to at least `width` characters.
pub open spec fn pad_left(s: Seq<char>, c: char, width: nat) -> Seq<char> {
    if s.len() < width {
        repeat_char(c, (width - s.len()) as nat) + s
    } else {
        s
    }
}

/// `s` filled up on the right with blanks to at least `width` characters.
pub open spec fn pad_right(s: Seq<char>, width: nat) -> Seq<char> {
    if s.len() < width {
        s + repeat_char(' ', (width - s.len()) as nat)
    } else {
        s
    }
}

/// The hexadecimal numeral of `n` with at least `width` digits.
pub fn hex_padded(n: u64, width: usize) -> (s: String)
    ensures
        s@ == pad_left(hex_seq(n as nat), '0', width as nat),
{
    let mut body = String::new();
    push_hex(&mut body, n);
    assert(body@ =~= hex_seq(n as nat));
    let len: usize = body.as_str().unicode_len();
    let mut s = String::new();
    let mut i: usize = len;
    while i < width
        invariant
            len <= i,
            i <= width || i == len,
            s@ == repeat_char('0', (i - len) as nat),
        decreases width - i,
    {
        s.push('0');
        proof {
            assert(s@ =~= repeat_char('0', (i + 1 - len) as nat));
        }
        i += 1;
    }
    s.append(body.as_str());
    assert(s@ =~= pad_left(hex_seq(n as nat), '0', width as nat));
    s
}

/// Appends `text` and blanks up to at least `width` characters.
pub fn push_padded(out: &mut String, text: &str, width: usize)
    ensures
        final(out)@ == old(out)@ + pad_right(text@, width as nat),
{
    let len: usize = text.unicode_len();
    out.append(text);
    let mut i: usize = len;
    assert(out@ =~= old(out)@ + text@ + repeat_char(' ', 0));
    while i < width
        invariant
            len <= i,
            i <= width || i == len,
            out@ == old(out)@ + text@ + repeat_char(' ', (i - len) as nat),
        decreases width - i,
    {
        out.push(' ');
        proof {
            assert(out@ =~= old(out)@ + text@ + repeat_char(' ', (i + 1 - len) as nat));
        }
        i += 1;
    }
    assert(out@ =~= old(out)@ + pad_right(text@, width as nat));
}

/// Whether `c` is a decimal digit.
pub open spec fn is_dec_digit(c: char) -> bool {
    '0' <= c <= '9'
}

/// The number that a sequence of decimal digits stands for.
pub open spec fn dec_value(s: Seq<char>) -> nat
    decreases s.len(),
{
    if s.len() == 0 {
        0
    } else {
        (dec_value(s.drop_last()) * 10 + (s.last() as int - 48)) as nat
    }
}

/// The digits of an unsigned numeral: an optional leading `+` is dropped.
pub open spec fn unsigned_digits(s: Seq<char>) -> Seq<char> {
    if s.len() > 0 && s[0] == '+' {
        s.drop_first()
    } else {
        s
    }
}

/// The value of an unsigned decimal numeral that fits in 32 bits.
pub open spec fn parse_u32_seq(s: Seq<char>) -> Option<u32> {
    let d = unsigned_digits(s);
    if d.len() > 0 && (forall|i: int| 0 <= i < d.len() ==> is_dec_digit(#[trigger] d[i]))
        && dec_value(d) <= u32::MAX {
        Some(dec_value(d) as u32)
    } else {
        None
    }
}

/// Reads an unsigned decimal numeral that fits in 32 bits.
pub fn parse_u32(s: &str) -> (r: Option<u32>)
    ensures
        r == parse_u32_seq(s@),
{
    let cs = chars_of(s);
    let start: usize = if cs.len() > 0 && cs[0] == '+' {
        1
    } else {
        0
    };
    let ghost d = unsigned_digits(s@);
    assert(d =~= cs@.skip(start as int));
    if start == cs.len() {
        return None;
    }
    let mut i: usize = start;
    let mut v: u64 = 0;
    let mut over: bool = false;
    assert(d.take(0) =~= Seq::<char>::empty());
    while i < cs.len()
        invariant
            start <= i <= cs@.len(),
            d == cs@.skip(start as int),
            d == unsigned_digits(s@),
            forall|j: int| 0 <= j < i - start ==> is_dec_digit(#[trigger] d[j]),
            over ==> dec_value(d.take(i - start)) > u32::MAX,
            !over ==> v == dec_value(d.take(i - start)) && v <= u32::MAX,
        decreases cs@.len() - i,
    {
        let c = cs[i];
        assert(d[i - start] == c);
        if !(c >= '0' && c <= '9') {
            assert(!is_dec_digit(d[i - start]));
            return None;
        }
        proof {
            assert(d.take(i - start + 1).drop_last() =~= d.take(i - start));
        }
        if !over {
            v = v * 10 + (c as u32 - 48) as u64;
            if v > 0xffff_ffff {
                over = true;
            }
        }
        i += 1;
    }
    assert(d.take(i - start) =~= d);
    if over {
        None
    } else {
        Some(v as u32)
    }
}

/// The value of a hexadecimal digit, in either case.
pub open spec fn hex_digit_value(c: char) -> Option<nat> {
    if '0' <= c <= '9' {
        Some((c as int - 48) as nat)
    } else if 'a' <= c <= 'f' {
        Some((c as int - 87) as nat)
    } else if 'A' <= c <= 'F' {
        Some((c as int - 55) as nat)
    } else {
        None
    }
}

/// The number that a sequence of hexadecimal digits stands for.
pub open spec fn hex_value(s: Seq<char>) -> nat
    decreases s.len(),
{
    if s.len() == 0 {
        0
    } else {
        hex_value(s.drop_last()) * 16 + hex_digit_value(s.last()).unwrap_or(0)
    }
}

/// The value of a hexadecimal numeral.
pub open spec fn parse_hex_seq(s: Seq<char>) -> Option<nat> {
    if s.len() > 0 && forall|i: int| 0 <= i < s.len() ==> hex_digit_value(#[trigger] s[i]) is Some {
        Some(hex_value(s))
    } else {
        None
    }
}

/// `n` hexadecimal digits stand for less than the `n`-th power of sixteen.
proof fn lemma_hex_value_small(s: Seq<char>)
    ensures
        s.len() == 0 ==> hex_value(s) == 0,
        s.len() <= 1 ==> hex_value(s) <= 0xf,
        s.len() <= 2 ==> hex_value(s) <= 0xff,
        s.len() <= 3 ==> hex_value(s) <= 0xfff,
        s.len() <= 4 ==> hex_value(s) <= 0xffff,
    decreases s.len(),
{
    if s.len() > 0 {
        lemma_hex_value_small(s.drop_last());
    }
}

/// The value of a hexadecimal digit, in either case.
pub fn hex_digit(c: char) -> (r: Option<u32>)
    ensures
        match r {
            Some(x) => hex_digit_value(c) == Some(x as nat) && x < 16,
            None => hex_digit_value(c) is None,
        },
{
    let u: u32 = c as u32;
    if c >= '0' && c <= '9' {
        Some(u - 48)
    } else if c >= 'a' && c <= 'f' {
        Some(u - 87)
    } else if c >= 'A' && c <= 'F' {
        Some(u - 55)
    } else {
        None
    }
}

/// Reads a hexadecimal numeral of at most four digits.
pub fn parse_hex(s: &str) -> (r: Option<usize>)
    requires
        s@.len() <= 4,
    ensures
        match r {
            Some(v) => parse_hex_seq(s@) == Some(v as nat) && v <= 0xffff,
            None => parse_hex_seq(s@) is None,
        },
{
    let cs = chars_of(s);
    if cs.len() == 0 {
        return None;
    }
    let mut i: usize = 0;
    let mut v: usize = 0;
    assert(s@.take(0) =~= Seq::<char>::empty());
    while i < cs.len()
        invariant
            i <= cs@.len(),
            cs@.len() <= 4,
            cs@ == s@,
            forall|j: int| 0 <= j < i ==> hex_digit_value(#[trigger] s@[j]) is Some,
            v == hex_value(s@.take(i as int)),
        decreases cs@.len() - i,
    {
        assert(s@[i as int] == cs@[i as int]);
        let x: u32 = match hex_digit(cs[i]) {
            Some(x) => x,
            None => {
                return None;
            },
        };
        proof {
            assert(s@.take(i + 1).drop_last() =~= s@.take(i as int));
            lemma_hex_value_small(s@.take(i as int));
        }
        v = v * 16 + x as usize;
        i += 1;
    }
    proof {
        assert(s@.take(i as int) =~= s@);
        lemma_hex_value_small(s@);
    }
    Some(v)
}

/// A hexadecimal numeral stands for the number that it was made from.
pub proof fn lemma_hex_seq_value(n: nat)
    ensures
        hex_value(hex_seq(n)) == n,
        hex_seq(n).len() >= 1,
        forall|i: int|
            0 <= i < hex_seq(n).len() ==> hex_digit_value(#[trigger] hex_seq(n)[i]) is Some,
        n < 0x10000 ==> hex_seq(n).len() <= 4,
    decreases n,
{
    if n < 16 {
        let s = hex_seq(n);
        assert(s.drop_last() =~= Seq::<char>::empty());
        assert(hex_value(s.drop_last()) == 0);
        assert(hex_digit_value(digit_char(n as int)) == Some(n));
    } else {
        lemma_hex_seq_value(n / 16);
        let s = hex_seq(n);
        assert(s.drop_last() =~= hex_seq(n / 16));
        assert(hex_digit_value(digit_char((n % 16) as int)) == Some(n % 16));
        assert forall|i: int| 0 <= i < s.len() implies hex_digit_value(#[trigger] s[i]) is Some by {
            if i < s.len() - 1 {
                assert(s[i] == hex_seq(n / 16)[i]);
            }
        }
        if n < 0x10000 {
            assert(n / 16 < 0x1000);
            lemma_hex_len3(n / 16);
        }
    }
}

proof fn lemma_hex_len3(n: nat)
    requires
        n < 0x1000,
    ensures
        hex_seq(n).len() <= 3,
{
    reveal_with_fuel(hex_seq, 4);
}

/// Leading zeros do not change the value of a numeral.
pub proof fn lemma_hex_zeros(k: nat, s: Seq<char>)
    ensures
        hex_value(repeat_char('0', k) + s) == hex_value(s),
    decreases s.len(), k,
{
    let t = repeat_char('0', k) + s;
    if s.len() > 0 {
        lemma_hex_zeros(k, s.drop_last());
        assert(t.drop_last() =~= repeat_char('0', k) + s.drop_last());
    } else if k > 0 {
        lemma_hex_zeros((k - 1) as nat, s);
        assert(t.drop_last() =~= repeat_char('0', (k - 1) as nat) + s);
        assert(hex_digit_value('0') == Some(0nat));
    } else {
        assert(t =~= s);
    }
}

/// A number is read back from its decimal numeral, also behind a `+`; a numeral
/// that is too large, empty or holds anything else is none.
pub proof fn numbers_are_read_back(n: u32, s: Seq<char>)
    ensures
        parse_u32_seq(dec_seq(n as nat)) == Some(n),
        parse_u32_seq(seq!['+'] + dec_seq(n as nat)) == Some(n),
        parse_u32_seq(Seq::empty()) is None,
        s.len() > 0 && s[0] != '+' && (exists|i: int|
            0 <= i < s.len() && !('0' <= #[trigger] s[i] <= '9')) ==> parse_u32_seq(s) is None,
        forall|m: nat| m > u32::MAX ==> parse_u32_seq(#[trigger] dec_seq(m)) is None,
{
    lemma_dec_seq(n as nat);
    let d = dec_seq(n as nat);
    assert(is_dec_digit(d[0]));
    assert((seq!['+'] + d).drop_first() =~= d);
    if s.len() > 0 && s[0] != '+' && (exists|i: int|
        0 <= i < s.len() && !('0' <= #[trigger] s[i] <= '9')) {
        let i = choose|i: int| 0 <= i < s.len() && !('0' <= #[trigger] s[i] <= '9');
        assert(!is_dec_digit(s[i]));
    }
    assert forall|m: nat| m > u32::MAX implies parse_u32_seq(#[trigger] dec_seq(m)) is None by {
        lemma_dec_seq(m);
        assert(is_dec_digit(dec_seq(m)[0]));
    }
}

/// Hexadecimal numerals are written with the digits `0` to `9` and `a` to `f`, and
/// read with capitals as well.
pub proof fn hexadecimal_digits(n: nat, c: char)
    ensures
        forall|i: int|
            0 <= i < hex_seq(n).len() ==> ('0' <= #[trigger] hex_seq(n)[i] <= '9' || 'a' <= hex_seq(
                n,
            )[i] <= 'f'),
        hex_digit_value(c) is Some <==> '0' <= c <= '9' || 'a' <= c <= 'f' || 'A' <= c <= 'F',
        '0' <= c <= '9' ==> hex_digit_value(c) == Some((c as int - '0' as int) as nat),
        'a' <= c <= 'f' ==> hex_digit_value(c) == Some((10 + c as int - 'a' as int) as nat),
        'A' <= c <= 'F' ==> hex_digit_value(c) == Some((10 + c as int - 'A' as int) as nat),
    decreases n,
{
    if n >= 16 {
        hexadecimal_digits(n / 16, c);
        let s = hex_seq(n);
        assert forall|i: int| 0 <= i < s.len() implies ('0' <= #[trigger] s[i] <= '9' || 'a' <= s[i]
            <= 'f') by {
            if i < s.len() - 1 {
                assert(s[i] == hex_seq(n / 16)[i]);
            }
        }
    }
}

/// Padding keeps the text and fills it up to the width, no further.
pub proof fn padding_keeps_the_text(s: Seq<char>, c: char, width: nat)
    ensures
        pad_right(s, width).take(s.len() as int) == s,
        pad_right(s, width).len() == (if s.len() < width {
            width
        } else {
            s.len()
        }),
        forall|i: int|
            s.len() <= i < pad_right(s, width).len() ==> #[trigger] pad_right(s, width)[i] == ' ',
        pad_left(s, c, width).len() == (if s.len() < width {
            width
        } else {
            s.len()
        }),
        pad_left(s, c, width).skip(pad_left(s, c, width).len() - s.len()) == s,
        forall|i: int|
            0 <= i < pad_left(s, c, width).len() - s.len() ==> #[trigger] pad_left(s, c, width)[i]
                == c,
{
    assert(pad_right(s, width).take(s.len() as int) =~= s);
    assert(pad_left(s, c, width).skip(pad_left(s, c, width).len() - s.len()) =~= s);
}

} // verus!
