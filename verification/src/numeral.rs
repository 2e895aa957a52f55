//! Numerals in attribute values: reading them, and writing them back.

use crate::error::Error;
use crate::text::chars_of;
use vstd::prelude::*;

verus! {

/// The value of `c` as a digit, if it is one in the given radix. Digits are
/// `0-9`, then `a-z` or `A-Z` for ten and above.
pub open spec fn digit_value(c: char, radix: int) -> Option<int> {
    let v = if '0' <= c <= '9' {
        c as int - '0' as int
    } else if 'a' <= c <= 'z' {
        c as int - 'a' as int + 10
    } else if 'A' <= c <= 'Z' {
        c as int - 'A' as int + 10
    } else {
        36
    };
    if v < radix {
        Some(v)
    } else {
        None
    }
}

/// Every character of `s` is a digit in the given radix.
pub open spec fn all_digits(s: Seq<char>, radix: int) -> bool {
    forall|i: int| 0 <= i < s.len() ==> (#[trigger] digit_value(s[i], radix)) is Some
}

/// The number that the digit string `s` denotes, most significant digit first.
pub open spec fn digits_value(s: Seq<char>, radix: int) -> int
    decreases s.len(),
{
    if s.len() == 0 {
        0
    } else {
        digits_value(s.drop_last(), radix) * radix + digit_value(s.last(), radix).unwrap()
    }
}

/// `s` without one leading plus sign.
pub open spec fn without_plus(s: Seq<char>) -> Seq<char> {
    if s.len() > 0 && s[0] == '+' {
        s.skip(1)
    } else {
        s
    }
}

/// What a string denotes as an unsigned 32-bit numeral in the given radix:
/// an optional plus sign, then at least one digit and nothing else, the
/// value no more than `u32::MAX`.
pub open spec fn parse_radix(s: Seq<char>, radix: int) -> Option<u32> {
    let d = without_plus(s);
    if d.len() > 0 && all_digits(d, radix) && digits_value(d, radix) <= u32::MAX {
        Some(digits_value(d, radix) as u32)
    } else {
        None
    }
}

/// `s` begins with `0x`.
pub open spec fn has_hex_prefix(s: Seq<char>) -> bool {
    s.len() >= 2 && s[0] == '0' && s[1] == 'x'
}

/// What an address literal denotes: hexadecimal after a `0x` prefix, decimal
/// otherwise.
pub open spec fn address_literal(s: Seq<char>) -> Option<u32> {
    if has_hex_prefix(s) {
        parse_radix(s.skip(2), 16)
    } else {
        parse_radix(s, 10)
    }
}

/// `c` marks a bit that is unimplemented (`-`) or undefined (`x`, `u`).
pub open spec fn is_placeholder(c: char) -> bool {
    c == '-' || c == 'x' || c == 'u'
}

/// `s` with each unimplemented (`-`) or undefined (`x`, `u`) bit read as 0.
pub open spec fn zero_placeholders(s: Seq<char>) -> Seq<char> {
    s.map_values(|c: char| if is_placeholder(c) { '0' } else { c })
}

/// What a reset pattern denotes: its bits, placeholders read as 0, in base 2.
pub open spec fn reset_pattern(s: Seq<char>) -> Option<u32> {
    parse_radix(zero_placeholders(s), 2)
}

/// A digit string denotes no negative number.
pub proof fn lemma_digits_value_nonnegative(s: Seq<char>, radix: int)
    requires
        1 <= radix,
        all_digits(s, radix),
    ensures
        0 <= digits_value(s, radix),
    decreases s.len(),
{
    if s.len() > 0 {
        lemma_digits_value_nonnegative(s.drop_last(), radix);
        assert(digit_value(s[s.len() - 1], radix) is Some);
        assert(0 <= digits_value(s.drop_last(), radix) * radix) by (nonlinear_arith)
            requires
                0 <= digits_value(s.drop_last(), radix),
                1 <= radix,
        ;
    }
}

/// A prefix of a digit string denotes no more than the whole string.
pub proof fn lemma_digits_value_prefix(s: Seq<char>, radix: int, n: int)
    requires
        1 <= radix,
        all_digits(s, radix),
        0 <= n <= s.len(),
    ensures
        0 <= digits_value(s.take(n), radix) <= digits_value(s, radix),
    decreases s.len() - n,
{
    if n == s.len() {
        assert(s.take(n) =~= s);
        lemma_digits_value_nonnegative(s, radix);
    } else {
        lemma_digits_value_prefix(s, radix, n + 1);
        let longer = s.take(n + 1);
        assert(longer.drop_last() =~= s.take(n));
        assert(digit_value(s[n], radix) is Some);
        assert(longer.last() == s[n]);
        lemma_digits_value_nonnegative(s.take(n), radix);
        assert(digits_value(s.take(n), radix) <= digits_value(s.take(n), radix) * radix)
            by (nonlinear_arith)
            requires
                0 <= digits_value(s.take(n), radix),
                1 <= radix,
        ;
    }
}

fn digit_of(c: char, radix: u32) -> (r: Option<u32>)
    requires
        2 <= radix <= 36,
    ensures
        match digit_value(c, radix as int) {
            Some(v) => r == Some(v as u32) && v < radix,
            None => r is None,
        },
{
    let v: u32 = if c >= '0' && c <= '9' {
        c as u32 - '0' as u32
    } else if c >= 'a' && c <= 'z' {
        c as u32 - 'a' as u32 + 10
    } else if c >= 'A' && c <= 'Z' {
        c as u32 - 'A' as u32 + 10
    } else {
        36
    };
    if v < radix {
        Some(v)
    } else {
        None
    }
}

/// Reads `chars` from index `from` on as a numeral in the given radix.
fn parse_digits(chars: &Vec<char>, from: usize, radix: u32) -> (r: Option<u32>)
    requires
        2 <= radix <= 36,
        from <= chars@.len(),
    ensures
        r == parse_radix(chars@.skip(from as int), radix as int),
{
    let ghost s = chars@.skip(from as int);
    let n = chars.len();
    let mut i: usize = from;
    if i < n && chars[i] == '+' {
        i += 1;
    }
    let first: usize = i;
    let ghost d = without_plus(s);
    assert(d =~= chars@.skip(first as int));
    if first == n {
        return None;
    }
    let mut acc: u64 = 0;
    while i < n
        invariant
            2 <= radix <= 36,
            n == chars@.len(),
            first <= i <= n,
            d == chars@.skip(first as int),
            d == without_plus(chars@.skip(from as int)),
            all_digits(d.take(i - first), radix as int),
            acc == digits_value(d.take(i - first), radix as int),
            acc <= u32::MAX,
        decreases n - i,
    {
        let ghost prefix = d.take(i - first);
        let ghost longer = d.take(i - first + 1);
        assert(longer.drop_last() =~= prefix);
        assert(longer.last() == chars@[i as int]);
        match digit_of(chars[i], radix) {
            None => {
                assert(digit_value(d[i - first], radix as int) is None);
                return None;
            },
            Some(v) => {
                assert(acc * radix + v <= 0xffff_ffff * 36 + 36) by (nonlinear_arith)
                    requires
                        acc <= 0xffff_ffff,
                        radix <= 36,
                        v < 36,
                ;
                let next: u64 = acc * (radix as u64) + (v as u64);
                assert forall|k: int| 0 <= k < longer.len() implies (#[trigger] digit_value(
                    longer[k],
                    radix as int,
                )) is Some by {
                    if k < prefix.len() {
                        assert(longer[k] == prefix[k]);
                    }
                }
                assert(next == digits_value(longer, radix as int));
                if next > u32::MAX as u64 {
                    proof {
                        if all_digits(d, radix as int) {
                            lemma_digits_value_prefix(d, radix as int, i - first + 1);
                        }
                    }
                    return None;
                }
                acc = next;
                i += 1;
            },
        }
    }
    assert(d.take(i - first) =~= d);
    Some(acc as u32)
}

/// Reads an address literal: hexadecimal after a `0x` prefix, decimal
/// otherwise.
pub fn parse_u32(text: &str) -> (r: Result<u32, Error>)
    ensures
        match address_literal(text@) {
            Some(v) => r == Ok::<u32, Error>(v),
            None => r == Err::<u32, Error>(Error::MalformedNumber),
        },
{
    let chars = chars_of(text);
    let parsed = if chars.len() >= 2 && chars[0] == '0' && chars[1] == 'x' {
        parse_digits(&chars, 2, 16)
    } else {
        assert(chars@.skip(0) =~= chars@);
        parse_digits(&chars, 0, 10)
    };
    match parsed {
        Some(v) => Ok(v),
        None => Err(Error::MalformedNumber),
    }
}

/// Reads a reset pattern: a base-2 numeral in which `-`, `x` and `u` stand
/// for bits that read as 0.
pub fn decode_reset_pattern(text: &str) -> (r: Result<u32, Error>)
    ensures
        match reset_pattern(text@) {
            Some(v) => r == Ok::<u32, Error>(v),
            None => r == Err::<u32, Error>(Error::MalformedNumber),
        },
{
    let mut bits: Vec<char> = Vec::new();
    for c in it: text.chars()
        invariant
            bits@ == zero_placeholders(it.seq().take(it.index() as int)),
            it.seq() == text@,
    {
        let ghost before = it.seq().take(it.index() as int);
        let ghost after = it.seq().take(it.index() + 1);
        assert(zero_placeholders(after) =~= zero_placeholders(before).push(
            if is_placeholder(c) {
                '0'
            } else {
                c
            },
        ));
        if c == '-' || c == 'x' || c == 'u' {
            bits.push('0');
        } else {
            bits.push(c);
        }
    }
    assert(text@.take(text@.len() as int) =~= text@);
    assert(bits@.skip(0) =~= bits@);
    match parse_digits(&bits, 0, 2) {
        Some(v) => Ok(v),
        None => Err(Error::MalformedNumber),
    }
}

/// The character for the digit `d`, lower case above nine.
pub open spec fn digit_char(d: int) -> char {
    if d == 0 {
        '0'
    } else if d == 1 {
        '1'
    } else if d == 2 {
        '2'
    } else if d == 3 {
        '3'
    } else if d == 4 {
        '4'
    } else if d == 5 {
        '5'
    } else if d == 6 {
        '6'
    } else if d == 7 {
        '7'
    } else if d == 8 {
        '8'
    } else if d == 9 {
        '9'
    } else if d == 10 {
        'a'
    } else if d == 11 {
        'b'
    } else if d == 12 {
        'c'
    } else if d == 13 {
        'd'
    } else if d == 14 {
        'e'
    } else {
        'f'
    }
}

/// The digits of `n` in the given radix, most significant first, without
/// leading zeros; a single `0` for zero.
pub open spec fn digits_of(n: int, radix: int) -> Seq<char>
    decreases n,
    when 2 <= radix && 0 <= n
    via digits_of_terminates
{
    if n < radix {
        seq![digit_char(n)]
    } else {
        digits_of(n / radix, radix).push(digit_char(n % radix))
    }
}

#[via_fn]
proof fn digits_of_terminates(n: int, radix: int) {
    if n >= radix {
        assert(0 <= n / radix < n) by (nonlinear_arith)
            requires
                2 <= radix <= n,
        ;
    }
}

/// `0x` and the lower-case hexadecimal digits of `n`.
pub open spec fn hex_text(n: int) -> Seq<char> {
    seq!['0', 'x'] + digits_of(n, 16)
}

/// The decimal digits of `n`.
pub open spec fn decimal_text(n: int) -> Seq<char> {
    digits_of(n, 10)
}

/// `[msb:lsb]`, both in decimal.
pub open spec fn bit_range_text(msb: int, lsb: int) -> Seq<char> {
    seq!['['] + decimal_text(msb) + seq![':'] + decimal_text(lsb) + seq![']']
}

fn digit_str(d: u32) -> (t: &'static str)
    requires
        d < 16,
    ensures
        t@ == seq![digit_char(d as int)],
{
    proof {
        reveal_strlit("0");
        reveal_strlit("1");
        reveal_strlit("2");
        reveal_strlit("3");
        reveal_strlit("4");
        reveal_strlit("5");
        reveal_strlit("6");
        reveal_strlit("7");
        reveal_strlit("8");
        reveal_strlit("9");
        reveal_strlit("a");
        reveal_strlit("b");
        reveal_strlit("c");
        reveal_strlit("d");
        reveal_strlit("e");
        reveal_strlit("f");
    }
    let t = match d {
        0 => "0",
        1 => "1",
        2 => "2",
        3 => "3",
        4 => "4",
        5 => "5",
        6 => "6",
        7 => "7",
        8 => "8",
        9 => "9",
        10 => "a",
        11 => "b",
        12 => "c",
        13 => "d",
        14 => "e",
        _ => "f",
    };
    assert(t@ =~= seq![digit_char(d as int)]);
    t
}

fn append_digits(out: &mut String, n: u32, radix: u32)
    requires
        2 <= radix <= 16,
    ensures
        final(out)@ == old(out)@ + digits_of(n as int, radix as int),
    decreases n,
{
    if n >= radix {
        assert(n / radix < n && n % radix < radix) by (nonlinear_arith)
            requires
                2 <= radix <= n,
        ;
        append_digits(out, n / radix, radix);
        out.append(digit_str(n % radix));
        assert(out@ =~= old(out)@ + digits_of(n as int / radix as int, radix as int).push(
            digit_char(n as int % radix as int),
        ));
    } else {
        out.append(digit_str(n));
        assert(out@ =~= old(out)@ + seq![digit_char(n as int)]);
    }
}

/// Writes `n` as `0x` and lower-case hexadecimal digits.
pub fn hex_string(n: u32) -> (s: String)
    ensures
        s@ == hex_text(n as int),
{
    proof {
        reveal_strlit("0x");
    }
    let mut s = String::from_str("0x");
    append_digits(&mut s, n, 16);
    assert(s@ =~= hex_text(n as int));
    s
}

/// Writes `n` in decimal.
pub fn decimal_string(n: u32) -> (s: String)
    ensures
        s@ == decimal_text(n as int),
{
    let mut s = String::new();
    append_digits(&mut s, n, 10);
    assert(s@ =~= decimal_text(n as int));
    s
}

/// Writes the bit range `[msb:lsb]`.
pub fn bit_range_string(msb: u32, lsb: u32) -> (s: String)
    ensures
        s@ == bit_range_text(msb as int, lsb as int),
{
    proof {
        reveal_strlit("[");
        reveal_strlit(":");
        reveal_strlit("]");
    }
    let mut s = String::from_str("[");
    append_digits(&mut s, msb, 10);
    s.append(":");
    append_digits(&mut s, lsb, 10);
    s.append("]");
    assert(s@ =~= bit_range_text(msb as int, lsb as int));
    s
}

/// The digits written for `n` are digits of the radix, begin with no sign,
/// and denote `n`.
pub proof fn lemma_digits_of_denote(n: int, radix: int)
    requires
        0 <= n,
        2 <= radix <= 16,
    ensures
        digits_of(n, radix).len() > 0,
        all_digits(digits_of(n, radix), radix),
        digits_value(digits_of(n, radix), radix) == n,
        forall|i: int|
            0 <= i < digits_of(n, radix).len() ==> (#[trigger] digits_of(n, radix)[i]) != '+'
                && digits_of(n, radix)[i] != 'x',
    decreases n,
{
    let s = digits_of(n, radix);
    if n < radix {
        assert(s =~= seq![digit_char(n)]);
        assert(digit_value(digit_char(n), radix) == Some(n));
        assert(s.drop_last() =~= Seq::<char>::empty());
        assert(digits_value(s.drop_last(), radix) == 0);
        assert(s.last() == digit_char(n));
    } else {
        let q = n / radix;
        let r = n % radix;
        assert(0 <= q < n && 0 <= r < radix && q * radix + r == n) by (nonlinear_arith)
            requires
                2 <= radix <= n,
                q == n / radix,
                r == n % radix,
        ;
        lemma_digits_of_denote(q, radix);
        let front = digits_of(q, radix);
        assert(s =~= front.push(digit_char(r)));
        assert(s.drop_last() =~= front);
        assert(s.last() == digit_char(r));
        assert(digit_value(digit_char(r), radix) == Some(r));
        assert forall|i: int| 0 <= i < s.len() implies (#[trigger] digit_value(s[i], radix)) is Some by {
            if i < front.len() {
                assert(s[i] == front[i]);
            }
        }
        assert forall|i: int| 0 <= i < s.len() implies (#[trigger] s[i]) != '+' && s[i] != 'x' by {
            if i < front.len() {
                assert(s[i] == front[i]);
            }
        }
    }
}

/// Writing a number in hexadecimal or in decimal and reading the text back
/// as an address literal gives the number again.
pub proof fn lemma_address_literal_round_trip(v: u32)
    ensures
        address_literal(hex_text(v as int)) == Some(v),
        address_literal(decimal_text(v as int)) == Some(v),
{
    lemma_digits_of_denote(v as int, 16);
    lemma_digits_of_denote(v as int, 10);
    let h = hex_text(v as int);
    assert(has_hex_prefix(h));
    assert(h.skip(2) =~= digits_of(v as int, 16));
    let hd = digits_of(v as int, 16);
    assert(hd[0] != '+');
    assert(without_plus(hd) == hd);
    let d = decimal_text(v as int);
    assert(d[0] != '+');
    assert(without_plus(d) == d);
    if d.len() >= 2 {
        assert(d[1] != 'x');
    }
    assert(!has_hex_prefix(d));
}

} // verus!
