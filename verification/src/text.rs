//! Text helpers for cached file names: decimal numbers and splitting at
//! dashes.
use vstd::prelude::*;

use crate::file::error::IntErrorKind;
use vstd::utf8::{encode_utf8, is_ascii_chars, is_ascii_chars_encode_utf8};

verus! {

/// The character of a decimal digit.
pub open spec fn digit_char(d: nat) -> char {
    (48 + d) as char
}

/// The decimal digits of `n`, without leading zeros.
pub open spec fn spec_decimal(n: nat) -> Seq<char>
    decreases n,
{
    if n < 10 {
        seq![digit_char(n)]
    } else {
        spec_decimal(n / 10).push(digit_char(n % 10))
    }
}

/// Whether a byte is an ASCII decimal digit.
pub open spec fn is_digit(b: u8) -> bool {
    48 <= b <= 57
}

/// Reading digits left to right into a number no larger than `max`: the
/// first byte that is not a digit, or the first digit that takes the value
/// past `max`, decides the error.
pub open spec fn spec_digits(d: Seq<u8>, max: nat) -> Result<nat, IntErrorKind>
    decreases d.len(),
{
    if d.len() == 0 {
        Ok(0)
    } else {
        match spec_digits(d.drop_last(), max) {
            Err(e) => Err(e),
            Ok(v) => if !is_digit(d.last()) {
                Err(IntErrorKind::InvalidDigit)
            } else if v * 10 + (d.last() - 48) > max {
                Err(IntErrorKind::PosOverflow)
            } else {
                Ok((v * 10 + (d.last() - 48)) as nat)
            },
        }
    }
}

/// Reading an unsigned decimal number no larger than `max`: empty text is
/// refused, an optional leading `+` is allowed, a lone sign is an invalid
/// digit.
pub open spec fn spec_parse_decimal(s: Seq<u8>, max: nat) -> Result<nat, IntErrorKind> {
    if s.len() == 0 {
        Err(IntErrorKind::Empty)
    } else if s.len() == 1 && (s[0] == 43 || s[0] == 45) {
        Err(IntErrorKind::InvalidDigit)
    } else if s[0] == 43 {
        spec_digits(s.drop_first(), max)
    } else {
        spec_digits(s, max)
    }
}

/// A number read is never larger than the bound.
proof fn lemma_digits_bound(d: Seq<u8>, max: nat)
    ensures
        spec_digits(d, max) matches Ok(v) ==> v <= max,
    decreases d.len(),
{
    if d.len() > 0 {
        lemma_digits_bound(d.drop_last(), max);
    }
}

/// A number read is never larger than the bound.
pub proof fn lemma_parse_decimal_bound(s: Seq<u8>, max: nat)
    ensures
        spec_parse_decimal(s, max) matches Ok(v) ==> v <= max,
{
    lemma_digits_bound(s, max);
    if s.len() > 0 {
        lemma_digits_bound(s.drop_first(), max);
    }
}

/// Reads digits left to right into a number no larger than `max`.
fn parse_digits(d: &[u8], start: usize, max: u32) -> (r: Result<u32, IntErrorKind>)
    requires
        start <= d@.len(),
        max >= 9,
    ensures
        match spec_digits(d@.skip(start as int), max as nat) {
            Ok(v) => r == Ok::<u32, IntErrorKind>(v as u32),
            Err(e) => r == Err::<u32, IntErrorKind>(e),
        },
{
    let ghost s = d@.skip(start as int);
    let mut acc: u32 = 0;
    let mut i: usize = start;
    assert(s.take(0) =~= Seq::<u8>::empty());
    while i < d.len()
        invariant
            start <= i <= d@.len(),
            s == d@.skip(start as int),
            max >= 9,
            spec_digits(s.take(i - start), max as nat) == Ok::<nat, IntErrorKind>(acc as nat),
            acc <= max,
        decreases d@.len() - i,
    {
        let b = d[i];
        proof {
            assert(s.take(i + 1 - start).drop_last() =~= s.take(i - start));
            assert(s.take(i + 1 - start).last() == b);
        }
        if b < 48 || b > 57 {
            proof {
                lemma_digits_error_persists(s, (i + 1 - start) as int, max as nat);
            }
            return Err(IntErrorKind::InvalidDigit);
        }
        let digit: u32 = (b - 48) as u32;
        if acc > (max - digit) / 10 {
            assert(acc * 10 + digit > max) by (nonlinear_arith)
                requires
                    acc > (max - digit) / 10,
                    digit <= 9,
                    max >= 9,
            ;
            proof {
                lemma_digits_error_persists(s, (i + 1 - start) as int, max as nat);
            }
            return Err(IntErrorKind::PosOverflow);
        }
        assert(acc * 10 + digit <= max) by (nonlinear_arith)
            requires
                acc <= (max - digit) / 10,
                digit <= 9,
                max >= 9,
        ;
        acc = acc * 10 + digit;
        i = i + 1;
    }
    assert(s.take(i - start) =~= s);
    Ok(acc)
}

/// Once a prefix of the digits is refused, the whole is refused the same way.
proof fn lemma_digits_error_persists(s: Seq<u8>, k: int, max: nat)
    requires
        0 <= k <= s.len(),
        spec_digits(s.take(k), max) is Err,
    ensures
        spec_digits(s, max) == spec_digits(s.take(k), max),
    decreases s.len() - k,
{
    if k < s.len() {
        assert(s.take(k + 1).drop_last() =~= s.take(k));
        lemma_digits_error_persists(s, k + 1, max);
    } else {
        assert(s.take(k) =~= s);
    }
}

/// Reads an unsigned decimal number no larger than `max`.
pub fn parse_decimal(s: &[u8], max: u32) -> (r: Result<u32, IntErrorKind>)
    requires
        max >= 9,
    ensures
        match spec_parse_decimal(s@, max as nat) {
            Ok(v) => r == Ok::<u32, IntErrorKind>(v as u32),
            Err(e) => r == Err::<u32, IntErrorKind>(e),
        },
{
    if s.len() == 0 {
        return Err(IntErrorKind::Empty);
    }
    if s.len() == 1 && (s[0] == 43 || s[0] == 45) {
        return Err(IntErrorKind::InvalidDigit);
    }
    if s[0] == 43 {
        assert(s@.skip(1) =~= s@.drop_first());
        parse_digits(s, 1, max)
    } else {
        assert(s@.skip(0) =~= s@);
        parse_digits(s, 0, max)
    }
}

/// The one-character text of a decimal digit.
fn digit_str(d: u32) -> (r: &'static str)
    requires
        d < 10,
    ensures
        r@ == seq![digit_char(d as nat)],
{
    let digits = "0123456789";
    proof {
        reveal_strlit("0123456789");
    }
    let r = digits.substring_char(d as usize, d as usize + 1);
    assert(r@ =~= seq![digit_char(d as nat)]);
    r
}

/// The decimal digits of `n`, without leading zeros.
pub fn decimal_string(n: u32) -> (r: String)
    ensures
        r@ == spec_decimal(n as nat),
    decreases n,
{
    if n < 10 {
        let mut r = String::new();
        r.append(digit_str(n));
        assert(r@ =~= spec_decimal(n as nat));
        r
    } else {
        let mut r = decimal_string(n / 10);
        r.append(digit_str(n % 10));
        assert(r@ =~= spec_decimal(n as nat));
        r
    }
}

/// The pieces of a text between its dashes, left to right; a text with `k`
/// dashes has `k + 1` pieces, some possibly empty.
pub open spec fn spec_split_dash(s: Seq<char>) -> Seq<Seq<char>>
    decreases s.len(),
{
    if s.len() == 0 {
        seq![Seq::empty()]
    } else {
        let p = spec_split_dash(s.drop_last());
        if s.last() == '-' {
            p.push(Seq::empty())
        } else {
            p.update(p.len() - 1, p.last().push(s.last()))
        }
    }
}

/// Splitting never yields an empty list.
pub proof fn lemma_split_dash_nonempty(s: Seq<char>)
    ensures
        spec_split_dash(s).len() >= 1,
    decreases s.len(),
{
    if s.len() > 0 {
        lemma_split_dash_nonempty(s.drop_last());
    }
}

/// The texts of the pieces.
pub open spec fn str_views(v: Seq<&str>) -> Seq<Seq<char>> {
    v.map_values(|p: &str| p@)
}

/// Splits a text at its dashes.
pub fn split_dash(s: &str) -> (r: Vec<&str>)
    ensures
        str_views(r@) == spec_split_dash(s@),
{
    let n = s.unicode_len();
    let mut parts: Vec<&str> = Vec::new();
    let mut start: usize = 0;
    let mut i: usize = 0;
    assert(s@.take(0) =~= Seq::<char>::empty());
    assert(s@.subrange(0, 0) =~= Seq::<char>::empty());
    while i < n
        invariant
            n == s@.len(),
            start <= i <= n,
            spec_split_dash(s@.take(i as int)) == str_views(parts@) + seq![s@.subrange(start as int, i as int)],
        decreases n - i,
    {
        let c = s.get_char(i);
        proof {
            lemma_split_dash_nonempty(s@.take(i as int));
            assert(s@.take(i + 1).drop_last() =~= s@.take(i as int));
            assert(s@.take(i + 1).last() == c);
        }
        if c == '-' {
            let piece = s.substring_char(start, i);
            let ghost before = parts@;
            parts.push(piece);
            start = i + 1;
            proof {
                assert(str_views(parts@) =~= str_views(before) + seq![piece@]);
                assert(s@.subrange(start as int, i + 1) =~= Seq::<char>::empty());
                assert(spec_split_dash(s@.take(i + 1)) =~= str_views(parts@) + seq![s@.subrange(start as int, i + 1)]);
            }
        } else {
            proof {
                assert(s@.subrange(start as int, i + 1) =~= s@.subrange(start as int, i as int).push(c));
                assert(spec_split_dash(s@.take(i + 1)) =~= str_views(parts@) + seq![s@.subrange(start as int, i + 1)]);
            }
        }
        i = i + 1;
    }
    let last = s.substring_char(start, n);
    let ghost before = parts@;
    parts.push(last);
    proof {
        assert(s@.take(n as int) =~= s@);
        assert(str_views(parts@) =~= str_views(before) + seq![last@]);
    }
    parts
}

/// ASCII characters as bytes, one byte each.
pub open spec fn ascii_bytes(s: Seq<char>) -> Seq<u8> {
    Seq::new(s.len(), |i: int| s[i] as u8)
}

/// The UTF-8 encoding of ASCII text is its characters as bytes.
pub proof fn lemma_encode_ascii(s: Seq<char>)
    requires
        is_ascii_chars(s),
    ensures
        encode_utf8(s) == ascii_bytes(s),
{
    is_ascii_chars_encode_utf8(s);
    assert(encode_utf8(s) =~= ascii_bytes(s));
}

/// Whether every character is a decimal digit.
pub open spec fn all_digit_chars(s: Seq<char>) -> bool {
    forall|i: int| 0 <= i < s.len() ==> '0' <= #[trigger] s[i] <= '9'
}

/// Decimal text is made of digits, at least one.
pub proof fn lemma_decimal_digits(n: nat)
    ensures
        spec_decimal(n).len() >= 1,
        all_digit_chars(spec_decimal(n)),
        is_ascii_chars(spec_decimal(n)),
    decreases n,
{
    if n >= 10 {
        lemma_decimal_digits(n / 10);
    }
    let d = spec_decimal(n);
    assert forall|i: int| 0 <= i < d.len() implies '0' <= #[trigger] d[i] <= '9' by {
        if n >= 10 && i < d.len() - 1 {
            assert(d[i] == spec_decimal(n / 10)[i]);
        }
    }
}

/// The digits of `n` read back as `n`.
proof fn lemma_digits_of_decimal(n: nat, max: nat)
    requires
        n <= max,
    ensures
        spec_digits(ascii_bytes(spec_decimal(n)), max) == Ok::<nat, IntErrorKind>(n),
    decreases n,
{
    let b = ascii_bytes(spec_decimal(n));
    if n < 10 {
        assert(b.drop_last() =~= Seq::<u8>::empty());
        assert(b.last() == 48 + n);
        assert(spec_digits(b.drop_last(), max) == Ok::<nat, IntErrorKind>(0));
    } else {
        lemma_digits_of_decimal(n / 10, max);
        assert(b.drop_last() =~= ascii_bytes(spec_decimal(n / 10)));
        assert(b.last() == 48 + n % 10);
        assert(spec_digits(b.drop_last(), max) == Ok::<nat, IntErrorKind>(n / 10));
        assert((n / 10) * 10 + n % 10 == n);
    }
}

/// The decimal text of a number no larger than `max` reads back as it.
pub proof fn lemma_parse_decimal_roundtrip(n: nat, max: nat)
    requires
        n <= max,
    ensures
        spec_parse_decimal(ascii_bytes(spec_decimal(n)), max) == Ok::<nat, IntErrorKind>(n),
{
    lemma_decimal_digits(n);
    lemma_digits_of_decimal(n, max);
    let b = ascii_bytes(spec_decimal(n));
    assert('0' <= spec_decimal(n)[0] <= '9');
    assert(b[0] != 43 && b[0] != 45);
}

/// The value of a text of decimal digits, read left to right.
pub open spec fn digits_value(s: Seq<char>) -> int
    decreases s.len(),
{
    if s.len() == 0 {
        0
    } else {
        digits_value(s.drop_last()) * 10 + (s.last() as int - 48)
    }
}

/// The decimal text of `n` is digits whose value is `n`, with no leading
/// zero unless `n` is zero.
pub proof fn lemma_decimal_value(n: nat)
    ensures
        all_digit_chars(spec_decimal(n)),
        spec_decimal(n).len() >= 1,
        digits_value(spec_decimal(n)) == n,
        spec_decimal(n)[0] == '0' ==> n == 0,
    decreases n,
{
    lemma_decimal_digits(n);
    let d = spec_decimal(n);
    let k = n % 10;
    assert(digit_char(k) as int == 48 + k);
    if n >= 10 {
        lemma_decimal_value(n / 10);
        assert(d.drop_last() =~= spec_decimal(n / 10));
        assert(d.last() == digit_char(k));
        assert(d[0] == spec_decimal(n / 10)[0]);
        assert(digits_value(d) == digits_value(spec_decimal(n / 10)) * 10 + (d.last() as int - 48));
    } else {
        assert(d.drop_last() =~= Seq::<char>::empty());
        assert(d.last() == digit_char(n));
        assert(digits_value(d) == digits_value(d.drop_last()) * 10 + (d.last() as int - 48));
    }
}

/// A digit text of value no larger than `max` reads as its value, with or
/// without a leading `+`; leading zeros are allowed.
pub proof fn lemma_parse_digits_value(s: Seq<char>, max: nat)
    requires
        all_digit_chars(s),
        s.len() >= 1,
        digits_value(s) <= max,
    ensures
        spec_parse_decimal(ascii_bytes(s), max) == Ok::<nat, IntErrorKind>(digits_value(s) as nat),
        spec_parse_decimal(seq![43u8] + ascii_bytes(s), max) == Ok::<nat, IntErrorKind>(digits_value(s) as nat),
{
    lemma_digits_value(s, max);
    assert('0' <= s[0] <= '9');
    assert(ascii_bytes(s)[0] == s[0] as u8);
    assert((seq![43u8] + ascii_bytes(s)).drop_first() =~= ascii_bytes(s));
}

/// Refusals when reading a number: empty text is `Empty`, a lone sign is an
/// invalid digit, and digits whose value exceeds the bound overflow.
pub proof fn lemma_parse_decimal_errors(s: Seq<char>, max: nat)
    ensures
        spec_parse_decimal(Seq::empty(), max) == Err::<nat, IntErrorKind>(IntErrorKind::Empty),
        spec_parse_decimal(seq![43u8], max) == Err::<nat, IntErrorKind>(IntErrorKind::InvalidDigit),
        spec_parse_decimal(seq![45u8], max) == Err::<nat, IntErrorKind>(IntErrorKind::InvalidDigit),
        all_digit_chars(s) && s.len() >= 1 && digits_value(s) > max ==> spec_parse_decimal(ascii_bytes(s), max)
            == Err::<nat, IntErrorKind>(IntErrorKind::PosOverflow),
{
    if all_digit_chars(s) && s.len() >= 1 && digits_value(s) > max {
        lemma_digits_overflow(s, max);
        assert('0' <= s[0] <= '9');
        assert(ascii_bytes(s)[0] == s[0] as u8);
    }
}

proof fn lemma_digits_overflow(s: Seq<char>, max: nat)
    requires
        all_digit_chars(s),
        digits_value(s) > max,
    ensures
        spec_digits(ascii_bytes(s), max) == Err::<nat, IntErrorKind>(IntErrorKind::PosOverflow),
    decreases s.len(),
{
    let init = s.drop_last();
    assert(s.len() > 0);
    assert(all_digit_chars(init)) by {
        assert forall|i: int| 0 <= i < init.len() implies '0' <= #[trigger] init[i] <= '9' by {
            assert(init[i] == s[i]);
        }
    }
    assert('0' <= s[s.len() - 1] <= '9');
    let b = ascii_bytes(s);
    assert(b.drop_last() =~= ascii_bytes(init));
    assert(b.last() == s.last() as u8);
    if digits_value(init) > max {
        lemma_digits_overflow(init, max);
    } else {
        lemma_digits_value(init, max);
    }
}

proof fn lemma_digits_value(s: Seq<char>, max: nat)
    requires
        all_digit_chars(s),
        digits_value(s) <= max,
    ensures
        digits_value(s) >= 0,
        spec_digits(ascii_bytes(s), max) == Ok::<nat, IntErrorKind>(digits_value(s) as nat),
    decreases s.len(),
{
    if s.len() > 0 {
        let init = s.drop_last();
        assert(all_digit_chars(init)) by {
            assert forall|i: int| 0 <= i < init.len() implies '0' <= #[trigger] init[i] <= '9' by {
                assert(init[i] == s[i]);
            }
        }
        assert('0' <= s[s.len() - 1] <= '9');
        lemma_digits_value_nonneg(init);
        assert(digits_value(init) <= digits_value(s));
        lemma_digits_value(init, max);
        let b = ascii_bytes(s);
        assert(b.drop_last() =~= ascii_bytes(init));
        assert(b.last() == s.last() as u8);
    } else {
        assert(ascii_bytes(s) =~= Seq::<u8>::empty());
    }
}

proof fn lemma_digits_value_nonneg(s: Seq<char>)
    requires
        all_digit_chars(s),
    ensures
        digits_value(s) >= 0,
    decreases s.len(),
{
    if s.len() > 0 {
        let init = s.drop_last();
        assert(all_digit_chars(init)) by {
            assert forall|i: int| 0 <= i < init.len() implies '0' <= #[trigger] init[i] <= '9' by {
                assert(init[i] == s[i]);
            }
        }
        assert('0' <= s[s.len() - 1] <= '9');
        lemma_digits_value_nonneg(init);
    }
}

/// Text with no dash is one piece.
pub proof fn lemma_split_no_dash(x: Seq<char>)
    requires
        !x.contains('-'),
    ensures
        spec_split_dash(x) == seq![x],
    decreases x.len(),
{
    if x.len() > 0 {
        assert(!x.drop_last().contains('-')) by {
            if x.drop_last().contains('-') {
                let i = choose|i: int| 0 <= i < x.drop_last().len() && x.drop_last()[i] == '-';
                assert(x[i] == '-');
            }
        }
        lemma_split_no_dash(x.drop_last());
        assert(x.last() != '-') by {
            assert(x[x.len() - 1] == x.last());
        }
        assert(x.drop_last().push(x.last()) =~= x);
    } else {
        assert(x =~= Seq::<char>::empty());
    }
}

/// Splitting at a dash splits the two sides separately.
pub proof fn lemma_split_concat(a: Seq<char>, b: Seq<char>)
    ensures
        spec_split_dash(a + seq!['-'] + b) == spec_split_dash(a) + spec_split_dash(b),
    decreases b.len(),
{
    let x = a + seq!['-'] + b;
    if b.len() == 0 {
        assert(x.drop_last() =~= a);
        assert(x.last() == '-');
        assert(spec_split_dash(a) + spec_split_dash(b) =~= spec_split_dash(a).push(Seq::empty()));
    } else {
        lemma_split_concat(a, b.drop_last());
        lemma_split_dash_nonempty(b.drop_last());
        assert(x.drop_last() =~= a + seq!['-'] + b.drop_last());
        assert(x.last() == b.last());
        let p = spec_split_dash(b.drop_last());
        let q = spec_split_dash(a);
        if b.last() == '-' {
            assert(spec_split_dash(x) =~= q + p.push(Seq::empty()));
        } else {
            assert(spec_split_dash(x) =~= q + p.update(p.len() - 1, p.last().push(b.last())));
        }
    }
}

} // verus!
