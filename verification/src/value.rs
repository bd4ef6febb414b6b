//! Scalar kinds and the typed values that rows, filters and cursors carry.

use vstd::prelude::*;
use vstd::string::*;
use crate::hex::{digit_of, digit_str, digit_value, hex_digit, lemma_char_code};

verus! {

/// The category of a field. It decides which operators a filter may apply to the
/// field and whether rows can be ordered by it.
#[derive(Clone, Copy, Debug, PartialEq, Eq, Structural)]
pub enum ScalarKind {
    Int,
    Felt,
    Text,
    Bytes,
    Bool,
}

/// Two to the power of 128, the weight of the upper half of a [`Felt`].
pub open spec fn half_span() -> int {
    0x1_0000_0000_0000_0000_0000_0000_0000_0000int
}

/// An unsigned field element of up to 256 bits, held as two 128-bit halves.
#[derive(Clone, Copy, Debug, PartialEq, Eq, Structural)]
pub struct Felt {
    pub hi: u128,
    pub lo: u128,
}

impl Felt {
    /// The number this element stands for.
    pub open spec fn value(self) -> int {
        self.hi as int * half_span() + self.lo as int
    }

    /// The element that stands for a number of at most 128 bits.
    pub fn from_u128(n: u128) -> (f: Felt)
        ensures
            f.value() == n,
            f == (Felt { hi: 0, lo: n }),
    {
        Felt { hi: 0, lo: n }
    }

    /// Numeric `<`.
    pub fn less_than(&self, other: &Felt) -> (r: bool)
        ensures
            r == (self.value() < other.value()),
    {
        self.hi < other.hi || (self.hi == other.hi && self.lo < other.lo)
    }

    /// Two elements stand for the same number only if their halves agree, and
    /// no element stands for a negative number.
    pub proof fn lemma_value_injective(a: Felt, b: Felt)
        ensures
            a.value() == b.value() <==> a == b,
            0 <= a.value(),
    {
    }
}

/// Two to the power of 256: one more than the largest [`Felt`].
pub open spec fn felt_span() -> int {
    0x1_0000_0000_0000_0000_0000_0000_0000_0000_0000_0000_0000_0000_0000_0000_0000_0000int
}

/// The number that a row of hexadecimal digits writes, the most significant
/// digit first.
pub open spec fn digits_value(digits: Seq<char>) -> int
    decreases digits.len(),
{
    if digits.len() == 0 {
        0
    } else {
        digits_value(digits.drop_last()) * 16 + match digit_value(digits.last()) {
            Some(d) => d as int,
            None => 0,
        }
    }
}

/// Whether every character is a hexadecimal digit.
pub open spec fn all_digits(digits: Seq<char>) -> bool {
    forall|i: int| 0 <= i < digits.len() ==> digit_value(#[trigger] digits[i]) is Some
}

/// The element that stands for a number below two to the power of 256.
pub open spec fn felt_of(n: int) -> Felt {
    Felt { hi: (n / half_span()) as u128, lo: (n % half_span()) as u128 }
}

/// What a text reads as: `0x`, then at least one hexadecimal digit in lower
/// case, writing a number that fits.
pub open spec fn felt_written(text: Seq<char>) -> Option<Felt> {
    if text.len() >= 3 && text[0] == '0' && text[1] == 'x' && all_digits(text.skip(2))
        && digits_value(text.skip(2)) < felt_span() {
        Some(felt_of(digits_value(text.skip(2))))
    } else {
        None
    }
}

/// The value of a row of digits is at least that of any of its beginnings.
pub proof fn lemma_digits_grow(digits: Seq<char>, k: int)
    requires
        0 <= k <= digits.len(),
    ensures
        0 <= digits_value(digits.take(k)) <= digits_value(digits),
    decreases digits.len(),
{
    if k == digits.len() {
        assert(digits.take(k) =~= digits);
        if digits.len() > 0 {
            lemma_digits_grow(digits.drop_last(), k - 1);
        }
    } else {
        lemma_digits_grow(digits.drop_last(), k);
        assert(digits.drop_last().take(k) =~= digits.take(k));
    }
}

/// Sixteen to the power of `k`.
pub open spec fn sixteen_to(k: nat) -> int
    decreases k,
{
    if k == 0 {
        1
    } else {
        16 * sixteen_to((k - 1) as nat)
    }
}

/// Sixteen to the power of 64 is two to the power of 256.
proof fn lemma_sixteen_to_64()
    ensures
        sixteen_to(64) == felt_span(),
{
    assert(sixteen_to(8) == 0x1_0000_0000) by {
        reveal_with_fuel(sixteen_to, 9);
    }
    assert(sixteen_to(16) == 0x1_0000_0000_0000_0000) by {
        lemma_sixteen_to_sum(8, 8);
    }
    assert(sixteen_to(32) == 0x1_0000_0000_0000_0000_0000_0000_0000_0000) by {
        lemma_sixteen_to_sum(16, 16);
    }
    lemma_sixteen_to_sum(32, 32);
}

/// Powers of sixteen multiply as their exponents add.
proof fn lemma_sixteen_to_sum(a: nat, b: nat)
    ensures
        sixteen_to(a + b) == sixteen_to(a) * sixteen_to(b),
    decreases b,
{
    if b > 0 {
        lemma_sixteen_to_sum(a, (b - 1) as nat);
        assert(sixteen_to(a + b) == 16 * sixteen_to((a + b - 1) as nat));
        assert(16 * (sixteen_to(a) * sixteen_to((b - 1) as nat)) == sixteen_to(a) * (16
            * sixteen_to((b - 1) as nat))) by (nonlinear_arith);
    } else {
        assert(sixteen_to(a) * 1 == sixteen_to(a));
    }
}

/// One step of writing a number digit by digit: if the digits so far are
/// worth `a` and `r` is what is left in the register, then after the
/// register's top digit `d` has moved over, the same holds one place on.
proof fn lemma_digit_moves(v: int, p: int, a: int, r: int, d: int, rest: int)
    requires
        v * p == a * felt_span() + r,
        r == d * (felt_span() / 16) + rest,
    ensures
        v * (16 * p) == (16 * a + d) * felt_span() + 16 * rest,
{
    let span = felt_span();
    let step = span / 16;
    assert(span == 16 * step);
    assert(v * (16 * p) == 16 * (v * p)) by (nonlinear_arith);
    assert((16 * a + d) * span == 16 * (a * span) + d * span) by (nonlinear_arith);
    assert(d * span == 16 * (d * step)) by (nonlinear_arith)
        requires
            span == 16 * step,
    ;
}

/// When all sixty-four digits have moved over, they are worth the number.
proof fn lemma_all_digits_moved(v: int, a: int, r: int)
    requires
        v * felt_span() == a * felt_span() + r,
        0 <= r < felt_span(),
    ensures
        v == a,
        r == 0,
{
    assert((v - a) * felt_span() == r) by (nonlinear_arith)
        requires
            v * felt_span() == a * felt_span() + r,
    ;
    assert(v == a) by (nonlinear_arith)
        requires
            (v - a) * felt_span() == r,
            0 <= r < felt_span(),
            felt_span() > 0,
    ;
}

impl Felt {
    /// Writes the element in hexadecimal: `0x`, then its digits in lower case,
    /// without leading zeros. [`Felt::parse_hex`] reads the text back.
    pub fn to_hex(&self) -> (text: String)
        ensures
            felt_written(text@) == Some(*self),
            text@.len() >= 3,
            text@.len() > 3 ==> text@[2] != '0',
    {
        let mut text = String::from_str("0x");
        proof {
            reveal_strlit("0x");
        }
        let ghost v = self.value();
        let ghost mut digits: Seq<char> = Seq::empty();
        let ghost mut worth: int = 0;
        let mut hi = self.hi;
        let mut lo = self.lo;
        let mut started = false;
        let mut k: usize = 0;
        assert(v * 1 == 0 * felt_span() + v);
        while k < 64
            invariant
                k <= 64,
                v == self.value(),
                text@ == "0x"@ + digits,
                "0x"@.len() == 2,
                "0x"@[0] == '0',
                "0x"@[1] == 'x',
                all_digits(digits),
                digits_value(digits) == worth,
                0 <= worth,
                started <==> digits.len() > 0,
                digits.len() > 0 ==> digits[0] != '0',
                !started ==> worth == 0,
                digits.len() <= k,
                v * sixteen_to(k as nat) == worth * felt_span() + (Felt { hi, lo }).value(),
            decreases 64 - k,
        {
            let d = (hi / 0x1000_0000_0000_0000_0000_0000_0000_0000u128) as u8;
            let carry = lo / 0x1000_0000_0000_0000_0000_0000_0000_0000u128;
            let ghost register = (Felt { hi, lo }).value();
            let ghost rest = register - d as int * (felt_span() / 16);
            proof {
                lemma_digit_moves(v, sixteen_to(k as nat), worth, register, d as int, rest);
            }
            hi = (hi % 0x1000_0000_0000_0000_0000_0000_0000_0000u128) * 16 + carry;
            lo = (lo % 0x1000_0000_0000_0000_0000_0000_0000_0000u128) * 16;
            proof {
                let unit = 0x1000_0000_0000_0000_0000_0000_0000_0000int;
                assert(half_span() == 16 * unit);
                assert(felt_span() / 16 == unit * half_span());
                assert(d as int * (unit * half_span()) == (d as int * unit) * half_span())
                    by (nonlinear_arith);
                assert((Felt { hi, lo }).value() == 16 * rest);
            }
            if started || d != 0 {
                text.append(digit_str(d));
                proof {
                    let c = hex_digit(d);
                    assert(digit_value(c) == Some(d));
                    let longer = digits.push(c);
                    assert(longer.drop_last() =~= digits);
                    assert(text@ =~= "0x"@ + longer);
                    digits = longer;
                    worth = 16 * worth + d as int;
                }
                started = true;
            } else {
                proof {
                    worth = 16 * worth + d as int;
                }
            }
            k += 1;
        }
        proof {
            lemma_sixteen_to_64();
            lemma_all_digits_moved(v, worth, (Felt { hi, lo }).value());
        }
        if !started {
            text.append(digit_str(0));
            proof {
                let c = hex_digit(0);
                assert(digit_value(c) == Some(0u8));
                let longer = digits.push(c);
                assert(longer.drop_last() =~= digits);
                assert(text@ =~= "0x"@ + longer);
                digits = longer;
            }
        }
        proof {
            assert(text@.skip(2) =~= digits);
            assert(felt_of(v) == *self);
        }
        text
    }

    /// Reads an element from its hexadecimal form, such as `0x2`.
    pub fn parse_hex(text: &str) -> (r: Option<Felt>)
        ensures
            r == felt_written(text@),
            r matches Some(f) ==> f.value() == digits_value(text@.skip(2)),
    {
        if !text.is_ascii() {
            proof {
                let i = choose|i: int|
                    0 <= i < text@.len() && !('\0' <= #[trigger] text@[i] <= '\u{7f}');
                lemma_char_code(text@[i]);
                if i >= 2 {
                    assert(text@.skip(2)[i - 2] == text@[i]);
                }
            }
            return None;
        }
        let raw = text.as_bytes();
        proof {
            is_ascii_spec_bytes(text);
        }
        let n = raw.len();
        assert(n == text@.len());
        assert forall|j: int| 0 <= j < n implies raw@[j] as u32 == (#[trigger] text@[j]) as u32 by {
            lemma_char_code(text@[j]);
            assert(raw@[j] == text@[j] as u8);
        }
        if n < 3 || raw[0] != 48 || raw[1] != 120 {
            proof {
                if n >= 3 {
                    lemma_char_code(text@[0]);
                    lemma_char_code(text@[1]);
                }
            }
            return None;
        }
        let ghost digits = text@.skip(2);
        let mut hi: u128 = 0;
        let mut lo: u128 = 0;
        let mut i: usize = 2;
        assert(digits.take(0) =~= Seq::<char>::empty());
        while i < n
            invariant
                2 <= i <= n,
                n == text@.len(),
                n == raw@.len(),
                digits == text@.skip(2),
                forall|j: int| 0 <= j < n ==> raw@[j] as u32 == (#[trigger] text@[j]) as u32,
                forall|j: int| 0 <= j < i - 2 ==> digit_value(#[trigger] digits[j]) is Some,
                (Felt { hi, lo }).value() == digits_value(digits.take(i - 2)),
            decreases n - i,
        {
            assert(digits[i - 2] == text@[i as int]);
            assert(digits.take(i - 1).drop_last() =~= digits.take(i - 2));
            let d = match digit_of(raw[i]) {
                Some(d) => d,
                None => {
                    return None;
                },
            };
            if hi >= 0x1000_0000_0000_0000_0000_0000_0000_0000u128 {
                proof {
                    lemma_digits_grow(digits, i - 1);
                }
                return None;
            }
            let carry = lo / 0x1000_0000_0000_0000_0000_0000_0000_0000u128;
            let rest = lo % 0x1000_0000_0000_0000_0000_0000_0000_0000u128;
            hi = hi * 16 + carry;
            lo = rest * 16 + d as u128;
            i += 1;
        }
        proof {
            assert(digits.take(n - 2) =~= digits);
            let f = Felt { hi, lo };
            assert(felt_of(f.value()) == f);
        }
        Some(Felt { hi, lo })
    }
}

/// A typed value of a field, or the absence of one.
#[derive(Clone, Debug, PartialEq, Eq)]
pub enum Value {
    Null,
    Bool(bool),
    Int(u64),
    Felt(Felt),
    Text(String),
    Bytes(Vec<u8>),
}

/// The mathematical content of a [`Value`].
pub enum ValueView {
    Null,
    Bool(bool),
    Int(u64),
    Felt(Felt),
    Text(Seq<char>),
    Bytes(Seq<u8>),
}

impl ValueView {
    /// The kind of the value; `None` for the absent value, which fits any
    /// nullable field.
    pub open spec fn kind(self) -> Option<ScalarKind> {
        match self {
            ValueView::Null => None,
            ValueView::Bool(_) => Some(ScalarKind::Bool),
            ValueView::Int(_) => Some(ScalarKind::Int),
            ValueView::Felt(_) => Some(ScalarKind::Felt),
            ValueView::Text(_) => Some(ScalarKind::Text),
            ValueView::Bytes(_) => Some(ScalarKind::Bytes),
        }
    }
}

impl View for Value {
    type V = ValueView;

    open spec fn view(&self) -> ValueView {
        match self {
            Value::Null => ValueView::Null,
            Value::Bool(b) => ValueView::Bool(*b),
            Value::Int(n) => ValueView::Int(*n),
            Value::Felt(f) => ValueView::Felt(*f),
            Value::Text(s) => ValueView::Text(s@),
            Value::Bytes(b) => ValueView::Bytes(b@),
        }
    }
}

/// The contents of a list of values.
pub open spec fn views_of(values: Seq<Value>) -> Seq<ValueView> {
    Seq::new(values.len(), |i: int| values[i]@)
}

/// Whether two byte strings hold the same bytes.
pub fn bytes_equal(a: &Vec<u8>, b: &Vec<u8>) -> (r: bool)
    ensures
        r == (a@ == b@),
{
    if a.len() != b.len() {
        return false;
    }
    let mut i: usize = 0;
    while i < a.len()
        invariant
            i <= a.len(),
            a.len() == b.len(),
            forall|j: int| 0 <= j < i ==> a@[j] == b@[j],
        decreases a.len() - i,
    {
        if a[i] != b[i] {
            return false;
        }
        i += 1;
    }
    assert(a@ =~= b@);
    true
}

impl Value {
    /// The kind of the value; `None` for the absent value.
    pub fn kind(&self) -> (k: Option<ScalarKind>)
        ensures
            k == self@.kind(),
    {
        match self {
            Value::Null => None,
            Value::Bool(_) => Some(ScalarKind::Bool),
            Value::Int(_) => Some(ScalarKind::Int),
            Value::Felt(_) => Some(ScalarKind::Felt),
            Value::Text(_) => Some(ScalarKind::Text),
            Value::Bytes(_) => Some(ScalarKind::Bytes),
        }
    }

    /// Whether two values have the same content.
    pub fn same(&self, other: &Value) -> (r: bool)
        ensures
            r == (self@ == other@),
    {
        match (self, other) {
            (Value::Null, Value::Null) => true,
            (Value::Bool(a), Value::Bool(b)) => *a == *b,
            (Value::Int(a), Value::Int(b)) => *a == *b,
            (Value::Felt(a), Value::Felt(b)) => a.hi == b.hi && a.lo == b.lo,
            (Value::Text(a), Value::Text(b)) => *a == *b,
            (Value::Bytes(a), Value::Bytes(b)) => bytes_equal(a, b),
            _ => false,
        }
    }

    /// A copy with the same content.
    pub fn duplicate(&self) -> (r: Value)
        ensures
            r@ == self@,
    {
        match self {
            Value::Null => Value::Null,
            Value::Bool(b) => Value::Bool(*b),
            Value::Int(n) => Value::Int(*n),
            Value::Felt(f) => Value::Felt(*f),
            Value::Text(s) => Value::Text(s.clone()),
            Value::Bytes(b) => Value::Bytes(b.clone()),
        }
    }
}

/// A copy of a list of values with the same contents.
pub fn duplicate_values(values: &Vec<Value>) -> (r: Vec<Value>)
    ensures
        views_of(r@) == views_of(values@),
{
    let mut out: Vec<Value> = Vec::new();
    let mut i: usize = 0;
    while i < values.len()
        invariant
            i <= values.len(),
            out.len() == i,
            forall|j: int| 0 <= j < i ==> out@[j]@ == values@[j]@,
        decreases values.len() - i,
    {
        out.push(values[i].duplicate());
        i += 1;
    }
    assert(views_of(out@) =~= views_of(values@));
    out
}

} // verus!
