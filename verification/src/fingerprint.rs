//! Fingerprints: what binds a cursor to the filter and the order under which
//! it was issued.
//!
//! The order enters a fingerprint as it is, so two different orders never
//! share one. The model's name and the filter enter through a digest.

use vstd::prelude::*;
use vstd::string::*;
use vstd::utf8::encode_utf8;
use crate::filter::{Predicate, PredicateView, predicate_views};
use crate::order::CompiledOrder;
use crate::shape::{Direction, Operator};
use crate::value::{Felt, Value, ValueView};

verus! {

/// The mark of one filter and order.
#[derive(Clone, Copy, Debug, PartialEq, Eq, Structural)]
pub struct Fingerprint {
    /// The digest of the model's name and the filter.
    pub scope: u64,
    /// The position of the ordering field, or zero where there is none.
    pub column: u64,
    /// Whether there is an ordering field, and the direction.
    pub mode: u8,
}

/// Where every digest starts.
pub open spec fn seed() -> u64 {
    0xcbf29ce484222325
}

/// One step of the digest: the state so far takes in one more word.
pub open spec fn mix(h: u64, x: u64) -> u64 {
    ((h as int * 1099511628211 + x as int + 1) % 0x1_0000_0000_0000_0000) as u64
}

/// The digest after taking in the bytes one by one.
pub open spec fn mix_bytes(h: u64, bytes: Seq<u8>) -> u64
    decreases bytes.len(),
{
    if bytes.len() == 0 {
        h
    } else {
        mix(mix_bytes(h, bytes.drop_last()), bytes.last() as u64)
    }
}

/// The digest after taking in a byte string: its length, then its bytes.
pub open spec fn mix_string(h: u64, bytes: Seq<u8>) -> u64 {
    mix_bytes(mix(h, bytes.len() as u64), bytes)
}

/// The number that stands for an operator in a digest.
pub open spec fn operator_code(op: Operator) -> u64 {
    match op {
        Operator::Eq => 0,
        Operator::Neq => 1,
        Operator::Gt => 2,
        Operator::Gte => 3,
        Operator::Lt => 4,
        Operator::Lte => 5,
    }
}

/// The upper half of a 128-bit number.
pub open spec fn upper_word(x: u128) -> u64 {
    (x / 0x1_0000_0000_0000_0000) as u64
}

/// The lower half of a 128-bit number.
pub open spec fn lower_word(x: u128) -> u64 {
    (x % 0x1_0000_0000_0000_0000) as u64
}

/// The digest after taking in a value: a tag for its kind, then its content.
pub open spec fn mix_value(h: u64, v: ValueView) -> u64 {
    match v {
        ValueView::Null => mix(h, 0),
        ValueView::Bool(b) => mix(mix(h, 1), if b { 1 } else { 0 }),
        ValueView::Int(n) => mix(mix(h, 2), n),
        ValueView::Felt(f) => mix(
            mix(mix(mix(mix(h, 3), upper_word(f.hi)), lower_word(f.hi)), upper_word(f.lo)),
            lower_word(f.lo),
        ),
        ValueView::Text(s) => mix_string(mix(h, 4), encode_utf8(s)),
        ValueView::Bytes(b) => mix_string(mix(h, 5), b),
    }
}

/// The digest after taking in a predicate: column, operator, value.
pub open spec fn mix_predicate(h: u64, p: PredicateView) -> u64 {
    mix_value(mix(mix(h, p.column as u64), operator_code(p.operator)), p.value)
}

/// The digest after taking in the predicates one by one.
pub open spec fn mix_filter(h: u64, filter: Seq<PredicateView>) -> u64
    decreases filter.len(),
{
    if filter.len() == 0 {
        h
    } else {
        mix_predicate(mix_filter(h, filter.drop_last()), filter.last())
    }
}

/// The digest of a model's name and a filter.
pub open spec fn scope_of(model: Seq<char>, filter: Seq<PredicateView>) -> u64 {
    mix_filter(mix(mix_string(seed(), encode_utf8(model)), filter.len() as u64), filter)
}

/// How an order enters a fingerprint.
pub open spec fn mode_of(order: CompiledOrder) -> u8 {
    match (order.column, order.direction) {
        (None, Direction::Asc) => 0,
        (None, Direction::Desc) => 1,
        (Some(_), Direction::Asc) => 2,
        (Some(_), Direction::Desc) => 3,
    }
}

/// The position of the ordering field as it enters a fingerprint.
pub open spec fn column_of(order: CompiledOrder) -> u64 {
    match order.column {
        Some(c) => c as u64,
        None => 0,
    }
}

/// The fingerprint of a query on the named model with a filter and an order.
pub open spec fn fingerprint_of(
    model: Seq<char>,
    filter: Seq<PredicateView>,
    order: CompiledOrder,
) -> Fingerprint {
    Fingerprint {
        scope: scope_of(model, filter),
        column: column_of(order),
        mode: mode_of(order),
    }
}

/// Two different orders never have the same fingerprint, whatever the model
/// and the filters.
pub proof fn lemma_orders_told_apart(
    model_a: Seq<char>,
    filter_a: Seq<PredicateView>,
    a: CompiledOrder,
    model_b: Seq<char>,
    filter_b: Seq<PredicateView>,
    b: CompiledOrder,
)
    requires
        a != b,
    ensures
        fingerprint_of(model_a, filter_a, a) != fingerprint_of(model_b, filter_b, b),
{
    if mode_of(a) == mode_of(b) {
        assert(a.direction == b.direction);
        assert(a.column is Some && b.column is Some);
        assert(a.column->0 != b.column->0);
    }
}

/// One step of the digest.
pub fn absorb(h: u64, x: u64) -> (r: u64)
    ensures
        r == mix(h, x),
{
    let wide: u128 = (h as u128) * 1099511628211u128 + (x as u128) + 1u128;
    (wide % 0x1_0000_0000_0000_0000u128) as u64
}

/// Takes in a byte string: its length, then its bytes.
pub fn absorb_string(h: u64, bytes: &[u8]) -> (r: u64)
    ensures
        r == mix_string(h, bytes@),
{
    let mut acc = absorb(h, bytes.len() as u64);
    let ghost start = acc;
    let mut i: usize = 0;
    while i < bytes.len()
        invariant
            i <= bytes.len(),
            acc == mix_bytes(start, bytes@.take(i as int)),
        decreases bytes.len() - i,
    {
        assert(bytes@.take(i + 1).drop_last() =~= bytes@.take(i as int));
        acc = absorb(acc, bytes[i] as u64);
        i += 1;
    }
    assert(bytes@.take(bytes.len() as int) =~= bytes@);
    acc
}

/// The number that stands for an operator in a digest.
fn code_of(op: Operator) -> (r: u64)
    ensures
        r == operator_code(op),
{
    match op {
        Operator::Eq => 0,
        Operator::Neq => 1,
        Operator::Gt => 2,
        Operator::Gte => 3,
        Operator::Lt => 4,
        Operator::Lte => 5,
    }
}

/// Takes in the two halves of a 128-bit number, the upper one first.
fn absorb_wide(h: u64, x: u128) -> (r: u64)
    ensures
        r == mix(mix(h, upper_word(x)), lower_word(x)),
{
    let upper = (x / 0x1_0000_0000_0000_0000u128) as u64;
    let lower = (x % 0x1_0000_0000_0000_0000u128) as u64;
    absorb(absorb(h, upper), lower)
}

/// Takes in a value.
pub fn absorb_value(h: u64, v: &Value) -> (r: u64)
    ensures
        r == mix_value(h, v@),
{
    match v {
        Value::Null => absorb(h, 0),
        Value::Bool(b) => absorb(absorb(h, 1), if *b { 1 } else { 0 }),
        Value::Int(n) => absorb(absorb(h, 2), *n),
        Value::Felt(f) => absorb_wide(absorb_wide(absorb(h, 3), f.hi), f.lo),
        Value::Text(s) => absorb_string(absorb(h, 4), s.as_str().as_bytes()),
        Value::Bytes(b) => absorb_string(absorb(h, 5), b.as_slice()),
    }
}

/// The fingerprint of a query on the named model with a filter and an order.
pub fn fingerprint(model: &str, filter: &Vec<Predicate>, order: &CompiledOrder) -> (f:
    Fingerprint)
    ensures
        f == fingerprint_of(model@, predicate_views(filter@), *order),
{
    let named = absorb_string(0xcbf29ce484222325, model.as_bytes());
    let mut acc = absorb(named, filter.len() as u64);
    let ghost start = acc;
    let ghost views = predicate_views(filter@);
    let mut k: usize = 0;
    while k < filter.len()
        invariant
            k <= filter.len(),
            views == predicate_views(filter@),
            acc == mix_filter(start, views.take(k as int)),
        decreases filter.len() - k,
    {
        assert(views.take(k + 1).drop_last() =~= views.take(k as int));
        assert(views.take(k + 1).last() == filter@[k as int]@);
        let p = &filter[k];
        acc = absorb_value(absorb(absorb(acc, p.column as u64), code_of(p.operator)), &p.value);
        k += 1;
    }
    assert(views.take(filter.len() as int) =~= views);
    let (column, mode): (u64, u8) = match (order.column, order.direction) {
        (None, Direction::Asc) => (0, 0),
        (None, Direction::Desc) => (0, 1),
        (Some(c), Direction::Asc) => (c as u64, 2),
        (Some(c), Direction::Desc) => (c as u64, 3),
    };
    Fingerprint { scope: acc, column, mode }
}

} // verus!
