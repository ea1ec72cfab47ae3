//! Numbers and bytes as text.

use vstd::prelude::*;

verus! {

/// The character of the digit `d` in base sixteen, in lower case.
pub open spec fn digit_char(d: nat) -> char {
    if d < 10 {
        (48 + d) as char
    } else {
        (87 + d) as char
    }
}

/// `n` in base ten, without leading zeros.
pub open spec fn decimal(n: nat) -> Seq<char>
    decreases n,
{
    if n < 10 {
        seq![digit_char(n)]
    } else {
        decimal(n / 10).push(digit_char(n % 10))
    }
}

/// `bytes` in base sixteen, two digits for each byte, the high one first.
pub open spec fn hex_lower(bytes: Seq<u8>) -> Seq<char> {
    Seq::new(
        2 * bytes.len(),
        |i: int|
            digit_char(
                if i % 2 == 0 {
                    bytes[i / 2] as nat / 16
                } else {
                    bytes[i / 2] as nat % 16
                },
            ),
    )
}

/// The value of a character as a digit in base sixteen, in either case.
pub open spec fn hex_digit(c: char) -> Option<nat> {
    if '0' <= c && c <= '9' {
        Some((c as int - '0' as int) as nat)
    } else if 'a' <= c && c <= 'f' {
        Some((c as int - 'a' as int + 10) as nat)
    } else if 'A' <= c && c <= 'F' {
        Some((c as int - 'A' as int + 10) as nat)
    } else {
        None
    }
}

/// Whether each character is a digit in base sixteen.
pub open spec fn all_hex_digits(text: Seq<char>) -> bool {
    forall|i: int| 0 <= i < text.len() ==> hex_digit(#[trigger] text[i]) is Some
}

/// The number that `digits` write in base sixteen, where each is a digit.
pub open spec fn hex_digits_value(digits: Seq<char>) -> nat
    decreases digits.len(),
{
    if digits.len() == 0 {
        0
    } else {
        hex_digits_value(digits.drop_last()) * 16 + hex_digit(digits.last()).unwrap_or(0)
    }
}

/// The number up to `max` that `text` writes in base sixteen: at least one digit, after a `+` if
/// there is one.
pub open spec fn hex_number(text: Seq<char>, max: nat) -> Option<nat> {
    let digits = if text.len() > 0 && text[0] == '+' {
        text.skip(1)
    } else {
        text
    };
    if digits.len() > 0 && all_hex_digits(digits) && hex_digits_value(digits) <= max {
        Some(hex_digits_value(digits))
    } else {
        None
    }
}

/// Reads a 16-bit number in base sixteen with `u16::from_str_radix`.
///
/// Assumed of std: it accepts an optional `+` followed by at least one digit of the radix, in
/// either case, and nothing else, and it fails where the number does not fit.
#[verifier::external_body]
pub(crate) fn parse_hex_u16(text: &str) -> (number: Option<u16>)
    ensures
        number is Some <==> hex_number(text@, u16::MAX as nat) is Some,
        number matches Some(n) ==> hex_number(text@, u16::MAX as nat) == Some(n as nat),
{
    u16::from_str_radix(text, 16).ok()
}

/// Reads an 8-bit number in base sixteen with `u8::from_str_radix`.
///
/// Assumed of std: it accepts an optional `+` followed by at least one digit of the radix, in
/// either case, and nothing else, and it fails where the number does not fit.
#[verifier::external_body]
pub(crate) fn parse_hex_u8(text: &str) -> (number: Option<u8>)
    ensures
        number is Some <==> hex_number(text@, u8::MAX as nat) is Some,
        number matches Some(n) ==> hex_number(text@, u8::MAX as nat) == Some(n as nat),
{
    u8::from_str_radix(text, 16).ok()
}

/// Writes bytes in base sixteen with `hex::encode`.
///
/// Assumed of `hex`: the text holds two lower-case digits for each byte, the high one first.
#[verifier::external_body]
pub(crate) fn encode_hex(bytes: &[u8]) -> (text: String)
    ensures
        text@ == hex_lower(bytes@),
{
    hex::encode(bytes)
}

/// The text of the digit `d`.
fn digit_text(d: u16) -> (text: &'static str)
    requires
        d < 10,
    ensures
        text@ == seq![digit_char(d as nat)],
{
    proof {
        reveal_strlit("0");
        reveal_strlit("1");
        reveal_strlit("2");
        reveal_strlit("3");
        reveal_strlit("4");
        reveal_strlit("5");
        reveal_strlit("6");
        reveal_strlit("7");
        reveal_strlit("8");
        reveal_strlit("9");
    }
    let text = match d {
        0 => "0",
        1 => "1",
        2 => "2",
        3 => "3",
        4 => "4",
        5 => "5",
        6 => "6",
        7 => "7",
        8 => "8",
        _ => "9",
    };
    assert(text@ =~= seq![digit_char(d as nat)]);
    text
}

/// Appends `n` in base ten.
pub fn push_decimal(text: &mut String, n: u16)
    ensures
        final(text)@ == old(text)@ + decimal(n as nat),
    decreases n,
{
    if n >= 10 {
        push_decimal(text, n / 10);
    }
    text.append(digit_text(n % 10));
    assert(text@ =~= old(text)@ + decimal(n as nat));
}

/// A digit's character tells the digit, and is a decimal or a lower-case letter.
pub proof fn lemma_digit_char(d: nat, e: nat)
    requires
        d < 16,
        e < 16,
    ensures
        digit_char(d) == digit_char(e) ==> d == e,
        ('0' <= digit_char(d) && digit_char(d) <= '9') || ('a' <= digit_char(d) && digit_char(d)
            <= 'f'),
        d < 10 ==> '0' <= digit_char(d) && digit_char(d) <= '9',
{
}

/// A number in base ten is made of at least one decimal digit and nothing else.
pub proof fn lemma_decimal_digits(n: nat)
    ensures
        decimal(n).len() > 0,
        forall|i: int|
            0 <= i < decimal(n).len() ==> '0' <= #[trigger] decimal(n)[i] && decimal(n)[i] <= '9',
    decreases n,
{
    if n >= 10 {
        lemma_decimal_digits(n / 10);
        lemma_digit_char(n % 10, 0);
    } else {
        lemma_digit_char(n, 0);
    }
}

/// Two numbers that read the same in base ten are equal.
pub proof fn lemma_decimal_injective(m: nat, n: nat)
    requires
        decimal(m) == decimal(n),
    ensures
        m == n,
    decreases m,
{
    lemma_decimal_digits(m / 10);
    lemma_decimal_digits(n / 10);
    if m < 10 && n < 10 {
        assert(decimal(m)[0] == digit_char(m));
        assert(decimal(n)[0] == digit_char(n));
        lemma_digit_char(m, n);
    } else if m >= 10 && n >= 10 {
        assert(decimal(m).drop_last() =~= decimal(m / 10));
        assert(decimal(n).drop_last() =~= decimal(n / 10));
        assert(decimal(m).last() == digit_char(m % 10));
        assert(decimal(n).last() == digit_char(n % 10));
        lemma_digit_char(m % 10, n % 10);
        lemma_decimal_injective(m / 10, n / 10);
    } else if m < 10 {
        assert(decimal(m).len() == 1);
        assert(decimal(n).len() == decimal(n / 10).len() + 1);
    } else {
        assert(decimal(n).len() == 1);
        assert(decimal(m).len() == decimal(m / 10).len() + 1);
    }
}

/// Bytes in base sixteen are decimals and lower-case letters.
pub proof fn lemma_hex_digits(bytes: Seq<u8>)
    ensures
        forall|i: int|
            0 <= i < hex_lower(bytes).len() ==> {
                let c = #[trigger] hex_lower(bytes)[i];
                ('0' <= c && c <= '9') || ('a' <= c && c <= 'f')
            },
{
    assert forall|i: int| 0 <= i < hex_lower(bytes).len() implies {
        let c = #[trigger] hex_lower(bytes)[i];
        ('0' <= c && c <= '9') || ('a' <= c && c <= 'f')
    } by {
        let b = bytes[i / 2];
        lemma_digit_char(b as nat / 16, b as nat % 16);
        lemma_digit_char(b as nat % 16, b as nat / 16);
    }
}

/// Two byte strings that read the same in base sixteen are equal.
pub proof fn lemma_hex_injective(a: Seq<u8>, b: Seq<u8>)
    requires
        hex_lower(a) == hex_lower(b),
    ensures
        a == b,
{
    assert(hex_lower(a).len() == 2 * a.len());
    assert(hex_lower(b).len() == 2 * b.len());
    assert forall|i: int| 0 <= i < a.len() implies a[i] == b[i] by {
        let high = 2 * i;
        let low = 2 * i + 1;
        assert(high / 2 == i && low / 2 == i && high % 2 == 0 && low % 2 == 1);
        assert(hex_lower(a)[high] == hex_lower(b)[high]);
        assert(hex_lower(a)[low] == hex_lower(b)[low]);
        assert(hex_lower(a)[high] == digit_char(a[i] as nat / 16));
        assert(hex_lower(b)[high] == digit_char(b[i] as nat / 16));
        assert(hex_lower(a)[low] == digit_char(a[i] as nat % 16));
        assert(hex_lower(b)[low] == digit_char(b[i] as nat % 16));
        lemma_digit_char(a[i] as nat / 16, b[i] as nat / 16);
        lemma_digit_char(a[i] as nat % 16, b[i] as nat % 16);
    }
    assert(a =~= b);
}

/// The number that `text` writes in base ten, where each character is a decimal.
pub open spec fn decimal_value(text: Seq<char>) -> int
    decreases text.len(),
{
    if text.len() == 0 {
        0
    } else {
        decimal_value(text.drop_last()) * 10 + (text.last() as int - '0' as int)
    }
}

/// A number in base ten reads back as the number. It is made of decimals, of which the first is a
/// zero only where it is the only one.
pub proof fn lemma_decimal_reads_back(n: nat)
    ensures
        decimal_value(decimal(n)) == n,
        decimal(n).len() > 0,
        decimal(n).len() > 1 ==> decimal(n)[0] != '0',
        forall|i: int|
            0 <= i < decimal(n).len() ==> '0' <= #[trigger] decimal(n)[i] && decimal(n)[i] <= '9',
    decreases n,
{
    lemma_decimal_digits(n);
    if n < 10 {
        assert(decimal(n).drop_last() =~= Seq::empty());
        assert(decimal(n).last() == digit_char(n));
        assert(decimal_value(Seq::empty()) == 0);
    } else {
        lemma_decimal_reads_back(n / 10);
        assert(decimal(n).drop_last() =~= decimal(n / 10));
        assert(decimal(n).last() == digit_char(n % 10));
        assert(decimal(n)[0] == decimal(n / 10)[0]);
        if n / 10 < 10 {
            assert(decimal(n / 10)[0] == digit_char(n / 10));
        } else {
            lemma_decimal_digits(n / 10 / 10);
            assert(decimal(n / 10).len() > 1);
        }
    }
}

/// Bytes in base sixteen read back as the bytes: two digits for each, the high one first, and none
/// in upper case.
pub proof fn lemma_hex_reads_back(bytes: Seq<u8>, i: int)
    requires
        0 <= i < bytes.len(),
    ensures
        hex_lower(bytes).len() == 2 * bytes.len(),
        hex_digit(hex_lower(bytes)[2 * i]) is Some,
        hex_digit(hex_lower(bytes)[2 * i + 1]) is Some,
        hex_digit(hex_lower(bytes)[2 * i])->0 * 16 + hex_digit(hex_lower(bytes)[2 * i + 1])->0
            == bytes[i],
        !('A' <= hex_lower(bytes)[2 * i] && hex_lower(bytes)[2 * i] <= 'F'),
        !('A' <= hex_lower(bytes)[2 * i + 1] && hex_lower(bytes)[2 * i + 1] <= 'F'),
{
    let high = 2 * i;
    let low = 2 * i + 1;
    assert(high / 2 == i && low / 2 == i && high % 2 == 0 && low % 2 == 1);
    assert(hex_lower(bytes)[high] == digit_char(bytes[i] as nat / 16));
    assert(hex_lower(bytes)[low] == digit_char(bytes[i] as nat % 16));
}

/// A text of four digits in base sixteen is the number that its two bytes make up, the high one
/// first.
pub proof fn lemma_hex_number_of_bytes(high: u8, low: u8)
    ensures
        hex_number(hex_lower(seq![high, low]), u16::MAX as nat) == Some((high * 256 + low) as nat),
        hex_number(hex_lower(seq![low]), u8::MAX as nat) == Some(low as nat),
{
    let both = seq![high, low];
    let text = hex_lower(both);
    lemma_hex_reads_back(both, 0);
    lemma_hex_reads_back(both, 1);
    lemma_hex_digits(both);
    reveal_with_fuel(hex_digits_value, 5);
    assert(text[0] != '+');
    assert forall|i: int| 0 <= i < text.len() implies hex_digit(#[trigger] text[i]) is Some by {
        assert(i == 0 || i == 1 || i == 2 || i == 3);
    }
    assert(text.drop_last().last() == text[2]);
    assert(text.drop_last().drop_last().last() == text[1]);
    assert(text.drop_last().drop_last().drop_last().last() == text[0]);
    assert(hex_digits_value(text) == high * 256 + low);
    let one = seq![low];
    let short = hex_lower(one);
    lemma_hex_reads_back(one, 0);
    lemma_hex_digits(one);
    assert(short[0] != '+');
    assert forall|i: int| 0 <= i < short.len() implies hex_digit(#[trigger] short[i]) is Some by {
        assert(i == 0 || i == 1);
    }
    assert(short.drop_last().last() == short[0]);
    assert(hex_digits_value(short) == low);
}

/// The digits in base sixteen, in either case, and nothing else.
pub proof fn lemma_hex_digit_decided(c: char)
    ensures
        hex_digit(c) is Some <==> ('0' <= c && c <= '9') || ('a' <= c && c <= 'f') || ('A' <= c
            && c <= 'F'),
        '0' <= c && c <= '9' ==> hex_digit(c) == Some((c as int - 48) as nat),
        'a' <= c && c <= 'f' ==> hex_digit(c) == Some((c as int - 87) as nat),
        'A' <= c && c <= 'F' ==> hex_digit(c) == Some((c as int - 55) as nat),
{
}

/// A number in base sixteen has at least one digit, to which a `+` at the front adds nothing; and
/// each further digit makes it sixteen times as much and the digit, as long as that is not too
/// much.
pub proof fn lemma_hex_number_decided(text: Seq<char>, c: char, max: nat)
    ensures
        hex_number(Seq::empty(), max) is None,
        hex_number(seq!['+'], max) is None,
        hex_number(seq![c], max) == (if hex_digit(c) is Some && hex_digit(c)->0 <= max {
            hex_digit(c)
        } else {
            None
        }),
        hex_number(seq!['+', c], max) == hex_number(seq![c], max),
        text.len() > 0 && text != seq!['+'] ==> hex_number(text.push(c), max) == (if hex_number(
            text,
            max,
        ) is Some && hex_digit(c) is Some && hex_number(text, max)->0 * 16 + hex_digit(c)->0
            <= max {
            Some((hex_number(text, max)->0 * 16 + hex_digit(c)->0) as nat)
        } else {
            None
        }),
{
    reveal_with_fuel(hex_digits_value, 2);
    let one = seq![c];
    assert(one.drop_last() =~= Seq::empty());
    assert(one.last() == c && one[0] == c);
    assert(seq!['+'].skip(1) =~= Seq::empty());
    assert(seq!['+', c].skip(1) =~= one);
    assert(all_hex_digits(one) <==> hex_digit(c) is Some);
    assert(hex_digits_value(Seq::empty()) == 0);
    if c == '+' {
        assert(one.skip(1) =~= Seq::empty());
    }
    if text.len() > 0 && text != seq!['+'] {
        let more = text.push(c);
        let plus = text[0] == '+';
        let digits = if plus {
            text.skip(1)
        } else {
            text
        };
        if plus && text.len() == 1 {
            assert(text =~= seq!['+']);
        }
        assert(digits.len() > 0);
        assert(more[0] == text[0]);
        if plus {
            assert(more.skip(1) =~= digits.push(c));
        }
        let longer = digits.push(c);
        assert(longer.drop_last() =~= digits);
        assert(longer.last() == c);
        assert forall|i: int| 0 <= i < digits.len() implies #[trigger] longer[i] == digits[i] by {}
        assert(longer[digits.len() as int] == c);
        assert(all_hex_digits(longer) <==> all_hex_digits(digits) && hex_digit(c) is Some) by {
            if all_hex_digits(longer) {
                assert forall|i: int| 0 <= i < digits.len() implies hex_digit(
                    #[trigger] digits[i],
                ) is Some by {
                    assert(longer[i] == digits[i]);
                }
                assert(hex_digit(longer[digits.len() as int]) is Some);
            }
        }
    }
}

} // verus!
