//! Numbers as text: decimal bytes in and out, hexadecimal words out.

use vstd::prelude::*;

verus! {

/// The digit, in lower case, that stands for `d` in any base up to sixteen.
pub open spec fn digit_char(d: int) -> char {
    if d == 0 {
        '0'
    } else if d == 1 {
        '1'
    } else if d == 2 {
        '2'
    } else if d == 3 {
        '3'
    } else if d == 4 {
        '4'
    } else if d == 5 {
        '5'
    } else if d == 6 {
        '6'
    } else if d == 7 {
        '7'
    } else if d == 8 {
        '8'
    } else if d == 9 {
        '9'
    } else if d == 10 {
        'a'
    } else if d == 11 {
        'b'
    } else if d == 12 {
        'c'
    } else if d == 13 {
        'd'
    } else if d == 14 {
        'e'
    } else {
        'f'
    }
}

/// Whether `c` is a decimal digit.
pub open spec fn is_digit(c: char) -> bool {
    '0' <= c <= '9'
}

/// What a decimal digit is worth; `None` for any other character.
pub open spec fn digit_value(c: char) -> Option<nat> {
    if is_digit(c) {
        Some((c as u32 - '0' as u32) as nat)
    } else {
        None
    }
}

/// What a run of decimal digits is worth, the empty run being worth nothing;
/// `None` where a character is no digit.
pub open spec fn digits_value(s: Seq<char>) -> Option<nat>
    decreases s.len(),
{
    if s.len() == 0 {
        Some(0)
    } else {
        match (digits_value(s.drop_last()), digit_value(s.last())) {
            (Some(high), Some(low)) => Some(10 * high + low),
            _ => None,
        }
    }
}

/// The byte that `s` denotes: an optional `+`, then at least one decimal
/// digit and nothing else, worth at most 255. Leading zeros are allowed.
pub open spec fn parse_byte(s: Seq<char>) -> Option<u8> {
    let digits = if s.len() > 0 && s.first() == '+' {
        s.drop_first()
    } else {
        s
    };
    if digits.len() == 0 {
        None
    } else {
        byte_of_digits(digits)
    }
}

/// The byte that a run of decimal digits is worth, if it is worth at most 255.
pub open spec fn byte_of_digits(digits: Seq<char>) -> Option<u8> {
    match digits_value(digits) {
        Some(n) if n <= 255 => Some(n as u8),
        _ => None,
    }
}

/// A longer run of digits is worth at least as much as its beginning.
pub proof fn lemma_digits_value_grows(s: Seq<char>, k: int)
    requires
        0 <= k <= s.len(),
        digits_value(s) is Some,
    ensures
        digits_value(s.take(k)) is Some,
        digits_value(s.take(k))->0 <= digits_value(s)->0,
    decreases s.len() - k,
{
    if k == s.len() {
        assert(s.take(k) == s);
    } else {
        lemma_digits_value_grows(s.drop_last(), k);
        assert(s.drop_last().take(k) == s.take(k));
    }
}

/// A run with a character that is no digit is worth nothing.
pub proof fn lemma_digits_value_none(s: Seq<char>, k: int)
    requires
        0 <= k < s.len(),
        digit_value(s[k]) is None,
    ensures
        digits_value(s) is None,
    decreases s.len(),
{
    if k < s.len() - 1 {
        lemma_digits_value_none(s.drop_last(), k);
    }
}

/// Reads the part `[from, to)` of `v` as a byte.
pub fn parse_byte_range(v: &Vec<char>, from: usize, to: usize) -> (r: Option<u8>)
    requires
        from <= to <= v@.len(),
    ensures
        r == parse_byte(v@.subrange(from as int, to as int)),
{
    let ghost whole = v@.subrange(from as int, to as int);
    let mut i: usize = from;
    if i < to && v[i] == '+' {
        i = i + 1;
    }
    let first: usize = i;
    let ghost digits = v@.subrange(first as int, to as int);
    assert(digits == if whole.len() > 0 && whole.first() == '+' {
        whole.drop_first()
    } else {
        whole
    });
    if first == to {
        return None;
    }
    let mut value: u32 = 0;
    while i < to
        invariant
            first <= i <= to <= v@.len(),
            from <= first < to,
            digits == v@.subrange(first as int, to as int),
            parse_byte(v@.subrange(from as int, to as int)) == byte_of_digits(digits),
            digits_value(digits.take(i - first)) == Some(value as nat),
            value <= 255,
        decreases to - i,
    {
        let c: char = v[i];
        proof {
            assert(digits.take(i + 1 - first).drop_last() == digits.take(i - first));
            assert(digits.take(i + 1 - first).last() == c);
        }
        if !('0' <= c && c <= '9') {
            proof {
                lemma_digits_value_none(digits, i - first);
            }
            return None;
        }
        let d: u32 = c as u32 - '0' as u32;
        value = 10 * value + d;
        if value > 255 {
            proof {
                if digits_value(digits) is Some {
                    lemma_digits_value_grows(digits, i + 1 - first);
                }
            }
            return None;
        }
        i = i + 1;
    }
    assert(digits.take(to - first) == digits);
    Some(value as u8)
}

/// `n` in decimal, without padding: the form that [`parse_byte`] reads back.
pub open spec fn decimal(n: nat) -> Seq<char>
    decreases n,
{
    if n < 10 {
        seq![digit_char(n as int)]
    } else {
        decimal(n / 10).push(digit_char((n % 10) as int))
    }
}

/// The decimal form of a number is made of decimal digits, at least one.
pub proof fn lemma_decimal_digits(n: nat)
    ensures
        decimal(n).len() >= 1,
        forall|i: int| 0 <= i < decimal(n).len() ==> is_digit(#[trigger] decimal(n)[i]),
    decreases n,
{
    if n >= 10 {
        lemma_decimal_digits(n / 10);
    }
}

/// The decimal form of a number is worth that number.
pub proof fn lemma_decimal_value(n: nat)
    ensures
        digits_value(decimal(n)) == Some(n),
    decreases n,
{
    if n < 10 {
        assert(decimal(n).drop_last() == Seq::<char>::empty());
        assert(digits_value(decimal(n).drop_last()) == Some(0nat));
    } else {
        lemma_decimal_value(n / 10);
        assert(decimal(n).drop_last() == decimal(n / 10));
    }
}

/// A byte written in decimal is read back as itself.
pub proof fn lemma_parse_decimal(b: u8)
    ensures
        parse_byte(decimal(b as nat)) == Some(b),
{
    lemma_decimal_digits(b as nat);
    lemma_decimal_value(b as nat);
    assert(is_digit(decimal(b as nat)[0]));
}

/// `n` in lower-case hexadecimal, without padding.
pub open spec fn hex(n: nat) -> Seq<char>
    decreases n,
{
    if n < 16 {
        seq![digit_char(n as int)]
    } else {
        hex(n / 16).push(digit_char((n % 16) as int))
    }
}

/// The lowest `width` hexadecimal digits of `n`, in lower case, zeros
/// included.
pub open spec fn hex_fixed(n: nat, width: nat) -> Seq<char>
    decreases width,
{
    if width == 0 {
        Seq::empty()
    } else {
        hex_fixed(n / 16, (width - 1) as nat).push(digit_char((n % 16) as int))
    }
}

/// The digits of a number end with the two digits of its lowest byte; what
/// stands before them are the digits of the rest.
pub proof fn lemma_hex_fixed_low_byte(high: nat, low: nat, width: nat)
    requires
        low < 0x100,
    ensures
        hex_fixed(0x100 * high + low, width + 2) == hex_fixed(high, width) + hex_fixed(low, 2),
{
    let n = 0x100 * high + low;
    assert(n / 16 / 16 == high && (n / 16) % 16 == low / 16 && n % 16 == low % 16) by {
        assert(n / 16 == 16 * high + low / 16);
    }
    assert((low / 16) % 16 == low / 16);
    reveal_with_fuel(hex_fixed, 3);
    assert(hex_fixed(low, 2) =~= seq![
        digit_char((low / 16) as int),
        digit_char((low % 16) as int),
    ]);
    assert(hex_fixed(n, width + 2) =~= hex_fixed(high, width) + hex_fixed(low, 2));
}

/// The digit for `d` as a text of one character.
pub fn digit_str(d: u8) -> (r: &'static str)
    requires
        d < 16,
    ensures
        r@ == seq![digit_char(d as int)],
{
    proof {
        reveal_strlit("0");
        reveal_strlit("1");
        reveal_strlit("2");
        reveal_strlit("3");
        reveal_strlit("4");
        reveal_strlit("5");
        reveal_strlit("6");
        reveal_strlit("7");
        reveal_strlit("8");
        reveal_strlit("9");
        reveal_strlit("a");
        reveal_strlit("b");
        reveal_strlit("c");
        reveal_strlit("d");
        reveal_strlit("e");
        reveal_strlit("f");
    }
    let r = if d == 0 {
        "0"
    } else if d == 1 {
        "1"
    } else if d == 2 {
        "2"
    } else if d == 3 {
        "3"
    } else if d == 4 {
        "4"
    } else if d == 5 {
        "5"
    } else if d == 6 {
        "6"
    } else if d == 7 {
        "7"
    } else if d == 8 {
        "8"
    } else if d == 9 {
        "9"
    } else if d == 10 {
        "a"
    } else if d == 11 {
        "b"
    } else if d == 12 {
        "c"
    } else if d == 13 {
        "d"
    } else if d == 14 {
        "e"
    } else {
        "f"
    };
    assert(r@ =~= seq![digit_char(d as int)]);
    r
}

/// Appends `n` in decimal to `out`.
pub fn push_decimal(out: &mut String, n: u8)
    ensures
        final(out)@ == old(out)@ + decimal(n as nat),
{
    reveal_with_fuel(decimal, 3);
    if n >= 100 {
        out.append(digit_str(n / 100));
    }
    if n >= 10 {
        out.append(digit_str((n / 10) % 10));
    }
    out.append(digit_str(n % 10));
    assert(out@ =~= old(out)@ + decimal(n as nat));
}

/// Appends `n` in hexadecimal to `out`, without padding.
pub fn push_hex(out: &mut String, n: u32)
    ensures
        final(out)@ == old(out)@ + hex(n as nat),
    decreases n,
{
    if n >= 16 {
        push_hex(out, n / 16);
    }
    out.append(digit_str((n % 16) as u8));
    assert(out@ =~= old(out)@ + hex(n as nat));
}

/// Appends the lowest `width` hexadecimal digits of `n` to `out`.
pub fn push_hex_fixed(out: &mut String, n: u32, width: u8)
    ensures
        final(out)@ == old(out)@ + hex_fixed(n as nat, width as nat),
    decreases width,
{
    if width > 0 {
        push_hex_fixed(out, n / 16, width - 1);
        out.append(digit_str((n % 16) as u8));
    }
    assert(out@ =~= old(out)@ + hex_fixed(n as nat, width as nat));
}

} // verus!
