//! Lower-case hexadecimal text, the outer layer of a cursor.

use vstd::prelude::*;
use vstd::string::*;

verus! {

/// The digit that writes a number below sixteen.
pub open spec fn hex_digit(n: u8) -> char {
    if n < 10 {
        (48 + n) as char
    } else {
        (87 + n) as char
    }
}

/// The number that the digit with the given code writes.
pub open spec fn code_value(code: u32) -> Option<u8> {
    if 48 <= code <= 57 {
        Some((code - 48) as u8)
    } else if 97 <= code <= 102 {
        Some((code - 87) as u8)
    } else {
        None
    }
}

/// The number that a digit writes. Only `0` to `9` and `a` to `f` are digits.
pub open spec fn digit_value(c: char) -> Option<u8> {
    code_value(c as u32)
}

/// A character and its code determine each other.
pub proof fn lemma_char_code(c: char)
    ensures
        (c as u32) <= 0x10FFFF,
        (c as u32) as char == c,
{
}

/// The text that writes the bytes, two digits for each, the upper half first.
pub open spec fn hex_text(bytes: Seq<u8>) -> Seq<char> {
    Seq::new(
        2 * bytes.len(),
        |i: int|
            if i % 2 == 0 {
                hex_digit(bytes[i / 2] / 16)
            } else {
                hex_digit(bytes[i / 2] % 16)
            },
    )
}

/// Whether the text is made of digits only, and of an even number of them.
pub open spec fn is_hex(text: Seq<char>) -> bool {
    &&& text.len() % 2 == 0
    &&& forall|i: int| 0 <= i < text.len() ==> digit_value(#[trigger] text[i]) is Some
}

/// The bytes that the text writes, if it is hexadecimal.
pub open spec fn hex_bytes(text: Seq<char>) -> Option<Seq<u8>> {
    if is_hex(text) {
        Some(
            Seq::new(
                text.len() / 2,
                |i: int|
                    (digit_value(text[2 * i])->0 * 16 + digit_value(text[2 * i + 1])->0) as u8,
            ),
        )
    } else {
        None
    }
}

/// Reading what was written gives the bytes back.
pub proof fn lemma_hex_round_trip(bytes: Seq<u8>)
    ensures
        is_hex(hex_text(bytes)),
        hex_bytes(hex_text(bytes)) == Some(bytes),
        hex_text(bytes).len() == 2 * bytes.len(),
{
    let text = hex_text(bytes);
    assert forall|i: int| 0 <= i < text.len() implies digit_value(#[trigger] text[i]) is Some by {
        let b = bytes[i / 2];
        assert(b / 16 < 16 && b % 16 < 16);
    }
    let back = hex_bytes(text)->0;
    assert forall|i: int| 0 <= i < bytes.len() implies back[i] == bytes[i] by {
        let b = bytes[i];
        assert((2 * i) / 2 == i && (2 * i + 1) / 2 == i);
        assert((2 * i) % 2 == 0 && (2 * i + 1) % 2 == 1);
        assert(digit_value(hex_digit(b / 16)) == Some((b / 16) as u8));
        assert(digit_value(hex_digit(b % 16)) == Some((b % 16) as u8));
        assert((b / 16) * 16 + b % 16 == b);
    }
    assert(back =~= bytes);
}

/// Hexadecimal text is written in one way only: writing what was read gives
/// the text back.
pub proof fn lemma_hex_canonical(text: Seq<char>)
    requires
        is_hex(text),
    ensures
        hex_text(hex_bytes(text)->0) == text,
{
    let bytes = hex_bytes(text)->0;
    let again = hex_text(bytes);
    assert forall|i: int| 0 <= i < text.len() implies again[i] == text[i] by {
        lemma_char_code(text[2 * (i / 2)]);
        lemma_char_code(text[2 * (i / 2) + 1]);
        let hi = digit_value(text[2 * (i / 2)])->0;
        let lo = digit_value(text[2 * (i / 2) + 1])->0;
        assert(hi < 16 && lo < 16);
        let b = bytes[i / 2];
        assert(b == hi * 16 + lo);
        assert(b / 16 == hi && b % 16 == lo);
        if i % 2 == 0 {
            assert(2 * (i / 2) == i);
            assert(hex_digit(hi) == text[i]);
        } else {
            assert(2 * (i / 2) + 1 == i);
            assert(hex_digit(lo) == text[i]);
        }
    }
    assert(again =~= text);
}

/// The digit that writes a number below sixteen, as a string of one digit.
pub fn digit_str(n: u8) -> (s: &'static str)
    requires
        n < 16,
    ensures
        s@ == seq![hex_digit(n)],
{
    let digits = "0123456789abcdef";
    proof {
        reveal_strlit("0123456789abcdef");
    }
    let s = digits.substring_char(n as usize, n as usize + 1);
    assert(s@ =~= seq![hex_digit(n)]);
    s
}

/// Writes bytes as hexadecimal text.
pub fn to_hex(bytes: &Vec<u8>) -> (text: String)
    ensures
        text@ == hex_text(bytes@),
{
    let mut text = String::new();
    let mut i: usize = 0;
    while i < bytes.len()
        invariant
            i <= bytes.len(),
            text@ == hex_text(bytes@).take(2 * i),
        decreases bytes.len() - i,
    {
        let b = bytes[i];
        let ghost before = text@;
        text.append(digit_str(b / 16));
        text.append(digit_str(b % 16));
        proof {
            let whole = hex_text(bytes@);
            assert((2 * i) / 2 == i && (2 * i + 1) / 2 == i);
            assert((2 * i) % 2 == 0 && (2 * i + 1) % 2 == 1);
            assert(whole[2 * i] == hex_digit(b / 16));
            assert(whole[2 * i + 1] == hex_digit(b % 16));
            assert(text@ =~= whole.take(2 * (i + 1)));
        }
        i += 1;
    }
    assert(text@ =~= hex_text(bytes@));
    text
}

/// The number that a digit writes, read from the digit's byte.
pub fn digit_of(b: u8) -> (r: Option<u8>)
    ensures
        r == code_value(b as u32),
{
    if 48 <= b && b <= 57 {
        Some(b - 48)
    } else if 97 <= b && b <= 102 {
        Some(b - 87)
    } else {
        None
    }
}

/// Reads hexadecimal text.
pub fn from_hex(text: &str) -> (r: Option<Vec<u8>>)
    ensures
        match r {
            Some(bytes) => hex_bytes(text@) == Some(bytes@),
            None => hex_bytes(text@) is None,
        },
{
    if !text.is_ascii() {
        proof {
            let i = choose|i: int|
                0 <= i < text@.len() && !('\0' <= #[trigger] text@[i] <= '\u{7f}');
            lemma_char_code(text@[i]);
            assert(text@[i] as u32 > 127);
            assert(digit_value(text@[i]) is None);
        }
        return None;
    }
    let raw = text.as_bytes();
    proof {
        is_ascii_spec_bytes(text);
        assert forall|j: int| 0 <= j < text@.len() implies ((#[trigger] text@[j]) as u32) < 128 by {
            lemma_char_code(text@[j]);
            assert('\0' <= text@[j] <= '\u{7f}');
        }
    }
    let n = raw.len();
    assert(n == text@.len());
    assert forall|j: int| 0 <= j < n implies raw@[j] as u32 == (#[trigger] text@[j]) as u32 by {
        lemma_char_code(text@[j]);
        assert(raw@[j] == text@[j] as u8);
    }
    if n % 2 != 0 {
        return None;
    }
    let mut bytes: Vec<u8> = Vec::new();
    let mut i: usize = 0;
    while i < n / 2
        invariant
            i <= n / 2,
            n % 2 == 0,
            n == text@.len(),
            n == raw@.len(),
            forall|j: int| 0 <= j < n ==> raw@[j] as u32 == (#[trigger] text@[j]) as u32,
            bytes@.len() == i,
            forall|j: int| 0 <= j < 2 * i ==> digit_value(#[trigger] text@[j]) is Some,
            forall|j: int|
                0 <= j < i ==> #[trigger] bytes@[j] == (digit_value(text@[2 * j])->0 * 16
                    + digit_value(text@[2 * j + 1])->0) as u8,
        decreases n / 2 - i,
    {
        let hi_byte = raw[2 * i];
        let lo_byte = raw[2 * i + 1];
        assert(hi_byte as u32 == text@[2 * i as int] as u32);
        assert(lo_byte as u32 == text@[2 * i + 1] as u32);
        let hi = match digit_of(hi_byte) {
            Some(d) => d,
            None => {
                return None;
            },
        };
        let lo = match digit_of(lo_byte) {
            Some(d) => d,
            None => {
                return None;
            },
        };
        assert(hi < 16 && lo < 16);
        bytes.push(hi * 16 + lo);
        i += 1;
    }
    assert(is_hex(text@));
    assert(bytes@ =~= hex_bytes(text@)->0);
    Some(bytes)
}

} // verus!
