//! The cursor codec. A cursor is opaque text that carries the position of a
//! row under an order together with the fingerprint of the filter and order
//! it was issued under.
//!
//! The text is the hexadecimal form of a fixed layout: a version byte, the
//! fingerprint, the position, and a check word over all that precedes it.
//! Every position and fingerprint has exactly one cursor, and only that text
//! decodes to them.

use vstd::prelude::*;
use vstd::bytes::*;
use vstd::slice::slice_subrange;
use vstd::string::*;
use crate::error::{CursorIssue, ErrorView, QueryError};
use crate::fingerprint::{Fingerprint, absorb, fingerprint_of, mix_bytes, seed};
use crate::filter::PredicateView;
use crate::hex::{from_hex, hex_bytes, hex_text, lemma_hex_canonical, lemma_hex_round_trip, to_hex};
use crate::order::{CompiledOrder, OrderKey, Weight};
use crate::value::{Felt, bytes_equal};

verus! {

/// The layout version that this codec writes and reads.
pub open spec fn version() -> u8 {
    1
}

/// The number of bytes of a cursor before it is written as text.
pub open spec fn payload_len() -> nat {
    67
}

/// The tag and the two halves that stand for a weight.
pub open spec fn weight_fields(w: Weight) -> (u8, u128, u128) {
    match w {
        Weight::Absent => (0, 0, 0),
        Weight::Number(f) => (1, f.hi, f.lo),
    }
}

/// Everything a cursor holds but the check word.
pub open spec fn body(key: OrderKey, mark: Fingerprint) -> Seq<u8> {
    seq![version()] + spec_u64_to_le_bytes(mark.scope) + spec_u64_to_le_bytes(mark.column)
        + seq![mark.mode] + seq![weight_fields(key.weight).0] + spec_u128_to_le_bytes(
        weight_fields(key.weight).1,
    ) + spec_u128_to_le_bytes(weight_fields(key.weight).2) + spec_u64_to_le_bytes(key.id)
}

/// The check word over a body.
pub open spec fn check_word(body: Seq<u8>) -> u64 {
    mix_bytes(seed(), body)
}

/// The bytes of a cursor: the body, then its check word.
pub open spec fn payload(key: OrderKey, mark: Fingerprint) -> Seq<u8> {
    body(key, mark) + spec_u64_to_le_bytes(check_word(body(key, mark)))
}

/// The cursor for a position under the filter and order that the fingerprint marks.
pub open spec fn cursor_text(key: OrderKey, mark: Fingerprint) -> Seq<char> {
    hex_text(payload(key, mark))
}

/// The position and the fingerprint that stand at their places in the bytes.
pub open spec fn read_fields(bytes: Seq<u8>) -> Option<(OrderKey, Fingerprint)> {
    if bytes.len() != payload_len() {
        None
    } else {
        let mark = Fingerprint {
            scope: spec_u64_from_le_bytes(bytes.subrange(1, 9)),
            column: spec_u64_from_le_bytes(bytes.subrange(9, 17)),
            mode: bytes[17],
        };
        let hi = spec_u128_from_le_bytes(bytes.subrange(19, 35));
        let lo = spec_u128_from_le_bytes(bytes.subrange(35, 51));
        let id = spec_u64_from_le_bytes(bytes.subrange(51, 59));
        if bytes[18] == 0 {
            Some((OrderKey { weight: Weight::Absent, id }, mark))
        } else if bytes[18] == 1 {
            Some((OrderKey { weight: Weight::Number(Felt { hi, lo }), id }, mark))
        } else {
            None
        }
    }
}

/// What bytes decode to: the fields that stand in them, provided that the
/// bytes are exactly the cursor of those fields. This refuses a wrong
/// version, a wrong check word and any byte out of place.
pub open spec fn decode_bytes(bytes: Seq<u8>) -> Option<(OrderKey, Fingerprint)> {
    match read_fields(bytes) {
        Some((key, mark)) => if payload(key, mark) == bytes {
            Some((key, mark))
        } else {
            None
        },
        None => None,
    }
}

/// What a text decodes to, if it is a cursor.
pub open spec fn decode_text(text: Seq<char>) -> Option<(OrderKey, Fingerprint)> {
    match hex_bytes(text) {
        Some(bytes) => decode_bytes(bytes),
        None => None,
    }
}

/// What a request under the fingerprint `expected` makes of a cursor text:
/// the position it carries, or the reason to refuse it.
pub open spec fn accept(text: Seq<char>, expected: Fingerprint) -> Result<OrderKey, CursorIssue> {
    match decode_text(text) {
        Some((key, mark)) => if mark == expected {
            Ok(key)
        } else {
            Err(CursorIssue::Foreign)
        },
        None => Err(CursorIssue::Malformed),
    }
}

/// The fields of a cursor stand at fixed places in its bytes.
pub proof fn lemma_read_payload(key: OrderKey, mark: Fingerprint)
    ensures
        payload(key, mark).len() == payload_len(),
        read_fields(payload(key, mark)) == Some((key, mark)),
        decode_bytes(payload(key, mark)) == Some((key, mark)),
{
    lemma_auto_spec_u64_to_from_le_bytes();
    lemma_auto_spec_u128_to_from_le_bytes();
    let bytes = payload(key, mark);
    let fields = weight_fields(key.weight);
    assert(bytes.len() == 67);
    assert(bytes.subrange(1, 9) =~= spec_u64_to_le_bytes(mark.scope));
    assert(bytes.subrange(9, 17) =~= spec_u64_to_le_bytes(mark.column));
    assert(bytes[17] == mark.mode);
    assert(bytes[18] == fields.0);
    assert(bytes.subrange(19, 35) =~= spec_u128_to_le_bytes(fields.1));
    assert(bytes.subrange(35, 51) =~= spec_u128_to_le_bytes(fields.2));
    assert(bytes.subrange(51, 59) =~= spec_u64_to_le_bytes(key.id));
}

/// Decoding the cursor of a position and a fingerprint gives both back.
pub proof fn lemma_cursor_round_trip(key: OrderKey, mark: Fingerprint)
    ensures
        decode_text(cursor_text(key, mark)) == Some((key, mark)),
        accept(cursor_text(key, mark), mark) == Ok::<OrderKey, CursorIssue>(key),
{
    lemma_hex_round_trip(payload(key, mark));
    lemma_read_payload(key, mark);
}

/// Only the cursor of a position and a fingerprint decodes to them: a text
/// that decodes is the text that encoding would write.
pub proof fn lemma_cursor_canonical(text: Seq<char>)
    ensures
        decode_text(text) matches Some((key, mark)) ==> cursor_text(key, mark) == text,
{
    if decode_text(text) is Some {
        lemma_hex_canonical(text);
    }
}

/// A cursor issued under one order is refused as foreign by a request under
/// any other order.
pub proof fn lemma_foreign_order_refused(
    key: OrderKey,
    model: Seq<char>,
    filter: Seq<PredicateView>,
    issued: CompiledOrder,
    current: CompiledOrder,
)
    requires
        issued != current,
    ensures
        accept(
            cursor_text(key, fingerprint_of(model, filter, issued)),
            fingerprint_of(model, filter, current),
        ) == Err::<OrderKey, CursorIssue>(CursorIssue::Foreign),
{
    crate::fingerprint::lemma_orders_told_apart(model, filter, issued, model, filter, current);
    lemma_cursor_round_trip(key, fingerprint_of(model, filter, issued));
}

/// Appends the bytes of `more` to `out`.
fn push_all(out: &mut Vec<u8>, more: &Vec<u8>)
    ensures
        final(out)@ == old(out)@ + more@,
{
    let ghost before = out@;
    let mut i: usize = 0;
    while i < more.len()
        invariant
            i <= more.len(),
            out@ == before + more@.take(i as int),
        decreases more.len() - i,
    {
        out.push(more[i]);
        assert(out@ =~= before + more@.take(i + 1));
        i += 1;
    }
    assert(more@.take(more.len() as int) =~= more@);
}

/// The check word over a body.
fn check_of(body: &Vec<u8>) -> (r: u64)
    ensures
        r == check_word(body@),
{
    let mut acc: u64 = 0xcbf29ce484222325;
    let mut i: usize = 0;
    while i < body.len()
        invariant
            i <= body.len(),
            acc == mix_bytes(seed(), body@.take(i as int)),
        decreases body.len() - i,
    {
        assert(body@.take(i + 1).drop_last() =~= body@.take(i as int));
        acc = absorb(acc, body[i] as u64);
        i += 1;
    }
    assert(body@.take(body.len() as int) =~= body@);
    acc
}

/// The bytes of the cursor for a position and a fingerprint.
fn payload_of(key: &OrderKey, mark: &Fingerprint) -> (bytes: Vec<u8>)
    ensures
        bytes@ == payload(*key, *mark),
{
    let (tag, hi, lo): (u8, u128, u128) = match key.weight {
        Weight::Absent => (0, 0, 0),
        Weight::Number(f) => (1, f.hi, f.lo),
    };
    let mut bytes: Vec<u8> = Vec::new();
    bytes.push(1);
    push_all(&mut bytes, &u64_to_le_bytes(mark.scope));
    push_all(&mut bytes, &u64_to_le_bytes(mark.column));
    bytes.push(mark.mode);
    bytes.push(tag);
    push_all(&mut bytes, &u128_to_le_bytes(hi));
    push_all(&mut bytes, &u128_to_le_bytes(lo));
    push_all(&mut bytes, &u64_to_le_bytes(key.id));
    assert(bytes@ =~= body(*key, *mark));
    let check = check_of(&bytes);
    push_all(&mut bytes, &u64_to_le_bytes(check));
    bytes
}

/// Writes the cursor for a position under the filter and order that the
/// fingerprint marks.
pub fn encode(key: &OrderKey, mark: &Fingerprint) -> (text: String)
    ensures
        text@ == cursor_text(*key, *mark),
{
    let bytes = payload_of(key, mark);
    to_hex(&bytes)
}

/// Reads a cursor. Anything but a text that [`encode`] writes is malformed.
pub fn decode(text: &str) -> (r: Result<(OrderKey, Fingerprint), QueryError>)
    ensures
        match r {
            Ok(pair) => decode_text(text@) == Some(pair),
            Err(e) => decode_text(text@) is None && e@ == ErrorView::Cursor(CursorIssue::Malformed),
        },
{
    let bytes = match from_hex(text) {
        Some(bytes) => bytes,
        None => {
            return Err(QueryError::Cursor(CursorIssue::Malformed));
        },
    };
    if bytes.len() != 67 {
        return Err(QueryError::Cursor(CursorIssue::Malformed));
    }
    let all = bytes.as_slice();
    let mark = Fingerprint {
        scope: u64_from_le_bytes(slice_subrange(all, 1, 9)),
        column: u64_from_le_bytes(slice_subrange(all, 9, 17)),
        mode: bytes[17],
    };
    let hi = u128_from_le_bytes(slice_subrange(all, 19, 35));
    let lo = u128_from_le_bytes(slice_subrange(all, 35, 51));
    let id = u64_from_le_bytes(slice_subrange(all, 51, 59));
    let weight = if bytes[18] == 0 {
        Weight::Absent
    } else if bytes[18] == 1 {
        Weight::Number(Felt { hi, lo })
    } else {
        return Err(QueryError::Cursor(CursorIssue::Malformed));
    };
    let key = OrderKey { weight, id };
    assert(read_fields(bytes@) == Some((key, mark)));
    let again = payload_of(&key, &mark);
    if bytes_equal(&again, &bytes) {
        Ok((key, mark))
    } else {
        Err(QueryError::Cursor(CursorIssue::Malformed))
    }
}

/// Reads a cursor on behalf of a request whose filter and order have the
/// fingerprint `expected`, and hands out the position that the cursor carries.
pub fn decode_for(text: &str, expected: &Fingerprint) -> (r: Result<OrderKey, QueryError>)
    ensures
        match r {
            Ok(key) => accept(text@, *expected) == Ok::<OrderKey, CursorIssue>(key),
            Err(e) => accept(text@, *expected) is Err && e@ == ErrorView::Cursor(
                accept(text@, *expected)->Err_0,
            ),
        },
{
    let (key, mark) = decode(text)?;
    if mark.scope == expected.scope && mark.column == expected.column && mark.mode
        == expected.mode {
        Ok(key)
    } else {
        Err(QueryError::Cursor(CursorIssue::Foreign))
    }
}

} // verus!
