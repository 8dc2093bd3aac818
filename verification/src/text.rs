//! Numbers and bytes as text: decimal numbers as they appear in key names and
//! file names, and bytes in lowercase hexadecimal.

use vstd::prelude::*;
use vstd::string::*;

verus! {

/// The character of one decimal digit.
pub open spec fn digit_char(digit: nat) -> char
    recommends
        digit < 10,
{
    if digit == 0 {
        '0'
    } else if digit == 1 {
        '1'
    } else if digit == 2 {
        '2'
    } else if digit == 3 {
        '3'
    } else if digit == 4 {
        '4'
    } else if digit == 5 {
        '5'
    } else if digit == 6 {
        '6'
    } else if digit == 7 {
        '7'
    } else if digit == 8 {
        '8'
    } else {
        '9'
    }
}

/// `n` written in base ten, without sign or leading zeros.
pub open spec fn decimal_digits(n: nat) -> Seq<char>
    decreases n,
{
    if n < 10 {
        seq![digit_char(n)]
    } else {
        decimal_digits(n / 10).push(digit_char(n % 10))
    }
}

fn digit_str(digit: u32) -> (text: &'static str)
    requires
        digit < 10,
    ensures
        text@ == seq![digit_char(digit as nat)],
{
    proof {
        reveal_strlit("0");
        reveal_strlit("1");
        reveal_strlit("2");
        reveal_strlit("3");
        reveal_strlit("4");
        reveal_strlit("5");
        reveal_strlit("6");
        reveal_strlit("7");
        reveal_strlit("8");
        reveal_strlit("9");
    }
    let text = if digit == 0 {
        "0"
    } else if digit == 1 {
        "1"
    } else if digit == 2 {
        "2"
    } else if digit == 3 {
        "3"
    } else if digit == 4 {
        "4"
    } else if digit == 5 {
        "5"
    } else if digit == 6 {
        "6"
    } else if digit == 7 {
        "7"
    } else if digit == 8 {
        "8"
    } else {
        "9"
    };
    assert(text@ =~= seq![digit_char(digit as nat)]);
    text
}

/// `n` in base ten.
pub fn decimal_string(n: u32) -> (text: String)
    ensures
        text@ == decimal_digits(n as nat),
    decreases n,
{
    if n < 10 {
        String::from_str(digit_str(n))
    } else {
        let mut text = decimal_string(n / 10);
        text.append(digit_str(n % 10));
        assert(text@ =~= decimal_digits(n as nat));
        text
    }
}

/// The character of one hexadecimal digit, in lower case.
pub open spec fn hex_digit(nibble: nat) -> char
    recommends
        nibble < 16,
{
    if nibble < 10 {
        digit_char(nibble)
    } else if nibble == 10 {
        'a'
    } else if nibble == 11 {
        'b'
    } else if nibble == 12 {
        'c'
    } else if nibble == 13 {
        'd'
    } else if nibble == 14 {
        'e'
    } else {
        'f'
    }
}

/// `bytes` in hexadecimal: two lower-case digits for each byte, the high
/// half first.
pub open spec fn hex_chars(bytes: Seq<u8>) -> Seq<char> {
    Seq::new(
        2 * bytes.len(),
        |i: int|
            if i % 2 == 0 {
                hex_digit((bytes[i / 2] / 16) as nat)
            } else {
                hex_digit((bytes[i / 2] % 16) as nat)
            },
    )
}

/// Trusted: `hex::encode`, which writes each byte of its input as two
/// lower-case hexadecimal digits, in order.
#[verifier::external_body]
pub(crate) fn hex_encode(bytes: &[u8]) -> (text: String)
    ensures
        text@ == hex_chars(bytes@),
{
    hex::encode(bytes)
}

/// Two hexadecimal digits are the same character only if they are the same
/// digit.
pub proof fn lemma_hex_digit_injective(a: nat, b: nat)
    requires
        a < 16,
        b < 16,
        hex_digit(a) == hex_digit(b),
    ensures
        a == b,
{
}

/// Hexadecimal text determines the bytes it was made from: two byte strings
/// with the same text are the same.
pub proof fn lemma_hex_chars_injective(a: Seq<u8>, b: Seq<u8>)
    requires
        hex_chars(a) == hex_chars(b),
    ensures
        a == b,
{
    assert(hex_chars(a).len() == 2 * a.len());
    assert(hex_chars(b).len() == 2 * b.len());
    assert(a.len() == b.len());
    assert forall|i: int| 0 <= i < a.len() implies a[i] == b[i] by {
        let high_a = hex_chars(a)[2 * i];
        let high_b = hex_chars(b)[2 * i];
        let low_a = hex_chars(a)[2 * i + 1];
        let low_b = hex_chars(b)[2 * i + 1];
        assert((2 * i) / 2 == i && (2 * i) % 2 == 0);
        assert((2 * i + 1) / 2 == i && (2 * i + 1) % 2 == 1);
        assert(high_a == hex_digit((a[i] / 16) as nat));
        assert(high_b == hex_digit((b[i] / 16) as nat));
        assert(low_a == hex_digit((a[i] % 16) as nat));
        assert(low_b == hex_digit((b[i] % 16) as nat));
        lemma_hex_digit_injective((a[i] / 16) as nat, (b[i] / 16) as nat);
        lemma_hex_digit_injective((a[i] % 16) as nat, (b[i] % 16) as nat);
    }
    assert(a =~= b);
}

/// Whether `c` is one of the ten decimal digits.
pub open spec fn is_digit(c: char) -> bool {
    c == '0' || c == '1' || c == '2' || c == '3' || c == '4' || c == '5' || c == '6' || c == '7'
        || c == '8' || c == '9'
}

/// A number in base ten has at least one character, and all of them are
/// digits.
pub proof fn lemma_decimal_digits_are_digits(n: nat)
    ensures
        decimal_digits(n).len() >= 1,
        forall|i: int|
            0 <= i < decimal_digits(n).len() ==> is_digit(#[trigger] decimal_digits(n)[i]),
    decreases n,
{
    if n >= 10 {
        lemma_decimal_digits_are_digits(n / 10);
    }
}

/// Two digits are the same character only if they are the same digit.
pub proof fn lemma_digit_char_injective(a: nat, b: nat)
    requires
        a < 10,
        b < 10,
        digit_char(a) == digit_char(b),
    ensures
        a == b,
{
}

/// Base ten tells numbers apart: two numbers with the same digits are the
/// same.
pub proof fn lemma_decimal_digits_injective(n: nat, m: nat)
    requires
        decimal_digits(n) == decimal_digits(m),
    ensures
        n == m,
    decreases n,
{
    lemma_decimal_digits_are_digits(n / 10);
    lemma_decimal_digits_are_digits(m / 10);
    if n < 10 {
        assert(decimal_digits(n) =~= seq![digit_char(n)]);
        if m >= 10 {
            assert(decimal_digits(m) =~= decimal_digits(m / 10).push(digit_char(m % 10)));
            assert(decimal_digits(m).len() >= 2);
        } else {
            assert(decimal_digits(m) =~= seq![digit_char(m)]);
            assert(seq![digit_char(n)][0] == digit_char(n));
            assert(seq![digit_char(m)][0] == digit_char(m));
            lemma_digit_char_injective(n, m);
        }
    } else {
        let head_n = decimal_digits(n / 10);
        let head_m = decimal_digits(m / 10);
        assert(decimal_digits(n) =~= head_n.push(digit_char(n % 10)));
        if m < 10 {
            assert(decimal_digits(m) =~= seq![digit_char(m)]);
            assert(decimal_digits(n).len() >= 2);
        } else {
            assert(decimal_digits(m) =~= head_m.push(digit_char(m % 10)));
            assert(decimal_digits(n).last() == digit_char(n % 10));
            assert(decimal_digits(m).last() == digit_char(m % 10));
            lemma_digit_char_injective(n % 10, m % 10);
            assert(decimal_digits(n).drop_last() =~= head_n);
            assert(decimal_digits(m).drop_last() =~= head_m);
            lemma_decimal_digits_injective(n / 10, m / 10);
        }
    }
}

/// Two numbers written one after the other with a colon in between can be
/// told apart again: two such texts are the same only if both numbers are.
pub proof fn lemma_decimal_pair_injective(a: nat, b: nat, c: nat, d: nat)
    requires
        decimal_digits(a) + seq![':'] + decimal_digits(b) == decimal_digits(c) + seq![':']
            + decimal_digits(d),
    ensures
        a == c,
        b == d,
{
    let left = decimal_digits(a) + seq![':'] + decimal_digits(b);
    let right = decimal_digits(c) + seq![':'] + decimal_digits(d);
    let la = decimal_digits(a).len() as int;
    let lc = decimal_digits(c).len() as int;
    lemma_decimal_digits_are_digits(a);
    lemma_decimal_digits_are_digits(b);
    lemma_decimal_digits_are_digits(c);
    lemma_decimal_digits_are_digits(d);
    assert(left[la] == ':');
    assert(right[lc] == ':');
    if la < lc {
        assert(right[la] == decimal_digits(c)[la]);
        assert(is_digit(decimal_digits(c)[la]));
    }
    if lc < la {
        assert(left[lc] == decimal_digits(a)[lc]);
        assert(is_digit(decimal_digits(a)[lc]));
    }
    assert(la == lc);
    assert(decimal_digits(a) =~= left.subrange(0, la));
    assert(decimal_digits(c) =~= right.subrange(0, la));
    assert(decimal_digits(b) =~= left.subrange(la + 1, left.len() as int));
    assert(decimal_digits(d) =~= right.subrange(la + 1, right.len() as int));
    lemma_decimal_digits_injective(a, c);
    lemma_decimal_digits_injective(b, d);
}

} // verus!
