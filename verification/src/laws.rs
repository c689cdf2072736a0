//! What holds of encoding and decoding together.

use crate::decode::{decoded, decoded_value, head_len, prepend, DecodeError, DEFAULT_MAX_DEPTH};
use crate::encode::{all_encodable, encodable, encoding, framed, stream};
use crate::endian::{
    lemma_i32_be_inverse, lemma_i32_from_be_inverse, lemma_u64_be_inverse,
    lemma_u64_from_be_inverse, u64_be, u64_from_be,
};
use crate::grid::{grid_value, lemma_grid_of_grid_value, plane_value, row_value};
use crate::record::{file_decoded, file_values, FileView, ReadError};
use crate::value::{depth, max_depth, models, OpCode, Value, ValueView};
use vstd::prelude::*;
use vstd::utf8::{
    decode_utf8_encode_utf8, encode_utf8, encode_utf8_decode_utf8, encode_utf8_valid_utf8,
    length_of_first_scalar, pop_first_scalar, valid_utf8,
};

verus! {

/// A length-prefixed value is framed by its own length, whatever follows it.
proof fn lemma_framed_head(op: OpCode, payload: Seq<u8>, tail: Seq<u8>)
    requires
        op == OpCode::Text || op == OpCode::Sequence,
        payload.len() <= u64::MAX,
    ensures
        framed(op, payload).len() == 9 + payload.len(),
        framed(op, payload)[0] == op.byte(),
        framed(op, payload).skip(9) == payload,
        head_len(framed(op, payload) + tail) == Ok::<int, DecodeError>(9 + payload.len() as int),
{
    let n = payload.len() as u64;
    let e = framed(op, payload);
    lemma_u64_be_inverse(n);
    let b = e + tail;
    assert forall|j: int| 0 <= j < 8 implies b.skip(1)[j] == u64_be(n)[j] by {}
}

/// An encoded value is framed by its own length, whatever follows it, and
/// its bytes decode to the value.
proof fn lemma_encoded_value(v: ValueView, tail: Seq<u8>, limit: nat)
    requires
        encodable(v),
        depth(v) <= limit,
    ensures
        encoding(v).len() > 0,
        head_len(encoding(v) + tail) == Ok::<int, DecodeError>(encoding(v).len() as int),
        decoded_value(encoding(v), limit) == Ok::<ValueView, DecodeError>(v),
    decreases v, 0nat,
{
    match v {
        ValueView::Int32(x) => {
            lemma_i32_be_inverse(x);
        },
        ValueView::UInt64(x) => {
            lemma_u64_be_inverse(x);
        },
        ValueView::Text(s) => {
            lemma_framed_head(OpCode::Text, encode_utf8(s), tail);
            encode_utf8_valid_utf8(s);
            encode_utf8_decode_utf8(s);
        },
        ValueView::Sequence(items) => {
            lemma_framed_head(OpCode::Sequence, stream(items), tail);
            law_round_trip(items, (limit - 1) as nat);
        },
    }
}

/// Decoding what starts with an encoded value gives that value, and then
/// what the bytes behind it decode to.
pub proof fn lemma_decoded_after_value(v: ValueView, tail: Seq<u8>, limit: nat)
    requires
        encodable(v),
        depth(v) <= limit,
    ensures
        decoded(encoding(v) + tail, limit) == prepend(seq![v], decoded(tail, limit)),
    decreases v, 1nat,
{
    let e = encoding(v);
    let b = e + tail;
    lemma_encoded_value(v, tail, limit);
    assert(b.take(e.len() as int) =~= e);
    assert(b.skip(e.len() as int) =~= tail);
}

/// Round trip: decoding the encoding of a list of values gives the list
/// back, for every list whose sequences nest no deeper than the decoder
/// follows and whose length prefixes fit their eight bytes.
pub proof fn law_round_trip(values: Seq<ValueView>, limit: nat)
    requires
        all_encodable(values),
        max_depth(values) <= limit,
    ensures
        decoded(stream(values), limit) == Ok::<Seq<ValueView>, DecodeError>(values),
    decreases values, 2nat,
{
    if values.len() > 0 {
        let rest = values.drop_first();
        lemma_decoded_after_value(values[0], stream(rest), limit);
        law_round_trip(rest, limit);
        assert(seq![values[0]] + rest =~= values);
    } else {
        assert(values =~= Seq::<ValueView>::empty());
    }
}

/// A list cut after its first `n` values is encodable and no deeper.
proof fn lemma_take(values: Seq<ValueView>, n: int)
    requires
        0 <= n <= values.len(),
    ensures
        all_encodable(values) ==> all_encodable(values.take(n)),
        max_depth(values.take(n)) <= max_depth(values),
        stream(values) == stream(values.take(n)) + stream(values.skip(n)),
    decreases n,
{
    if n == 0 {
        assert(values.skip(0) =~= values);
    } else {
        let rest = values.drop_first();
        lemma_take(rest, n - 1);
        assert(values.take(n).drop_first() =~= rest.take(n - 1));
        assert(values.skip(n) =~= rest.skip(n - 1));
    }
}

/// The framing of an encoded value that was cut short, but not to nothing,
/// is refused as truncated.
proof fn lemma_cut_value(v: ValueView, cut: int)
    requires
        encodable(v),
        0 < cut < encoding(v).len(),
    ensures
        head_len(encoding(v).take(cut)) == Err::<int, DecodeError>(DecodeError::TruncatedInput),
{
    match v {
        ValueView::Int32(x) => {
            lemma_i32_be_inverse(x);
        },
        ValueView::UInt64(x) => {
            lemma_u64_be_inverse(x);
        },
        ValueView::Text(s) => {
            lemma_framed_head(OpCode::Text, encode_utf8(s), Seq::empty());
            if cut >= 9 {
                lemma_cut_framed(OpCode::Text, encode_utf8(s), cut);
            }
        },
        ValueView::Sequence(items) => {
            lemma_framed_head(OpCode::Sequence, stream(items), Seq::empty());
            if cut >= 9 {
                lemma_cut_framed(OpCode::Sequence, stream(items), cut);
            }
        },
    }
}

/// A length-prefixed value that was cut short still says its full length.
proof fn lemma_cut_framed(op: OpCode, payload: Seq<u8>, cut: int)
    requires
        op == OpCode::Text || op == OpCode::Sequence,
        payload.len() <= u64::MAX,
        9 <= cut < 9 + payload.len(),
    ensures
        u64_from_be(framed(op, payload).take(cut).skip(1)) == payload.len(),
{
    let n = payload.len() as u64;
    let e = framed(op, payload);
    let b = e.take(cut);
    lemma_u64_be_inverse(n);
    assert forall|j: int| 0 <= j < 8 implies b.skip(1)[j] == u64_be(n)[j] by {}
}

/// Truncation: an encoding cut short is refused as truncated, wherever the
/// cut falls but between two values of the list. (A cut between two values
/// leaves the encoding of the values before it: see
/// [`law_cut_between_values`].)
pub proof fn law_truncation(values: Seq<ValueView>, limit: nat, cut: int)
    requires
        all_encodable(values),
        max_depth(values) <= limit,
        0 <= cut < stream(values).len(),
        forall|n: int| 0 <= n <= values.len() ==> #[trigger] stream(values.take(n)).len() != cut,
    ensures
        decoded(stream(values).take(cut), limit) == Err::<Seq<ValueView>, DecodeError>(
            DecodeError::TruncatedInput,
        ),
    decreases values.len(),
{
    let b = stream(values);
    let v = values[0];
    let rest = values.drop_first();
    let e = encoding(v);
    assert(stream(values.take(0)).len() == 0);
    lemma_encoded_value(v, stream(rest), limit);
    if cut < e.len() {
        lemma_cut_value(v, cut);
    } else {
        let inner = cut - e.len();
        assert forall|n: int| 0 <= n <= rest.len() implies #[trigger] stream(rest.take(n)).len()
            != inner by {
            assert(values.take(n + 1).drop_first() =~= rest.take(n));
            assert(stream(values.take(n + 1)).len() != cut);
        }
        law_truncation(rest, limit, inner);
        assert(b.take(cut) =~= e + stream(rest).take(inner));
        lemma_decoded_after_value(v, stream(rest).take(inner), limit);
    }
}

/// An encoding cut between two values of the list is the encoding of the
/// values before the cut, and decodes to them.
pub proof fn law_cut_between_values(values: Seq<ValueView>, limit: nat, n: int)
    requires
        all_encodable(values),
        max_depth(values) <= limit,
        0 <= n <= values.len(),
    ensures
        stream(values.take(n)) == stream(values).take(stream(values.take(n)).len() as int),
        decoded(stream(values.take(n)), limit) == Ok::<Seq<ValueView>, DecodeError>(
            values.take(n),
        ),
{
    lemma_take(values, n);
    law_round_trip(values.take(n), limit);
}

/// The bytes of one decoded value are the encoding of that value.
proof fn lemma_decoded_value_is_encoded(b: Seq<u8>, limit: nat)
    requires
        head_len(b) == Ok::<int, DecodeError>(b.len() as int),
        decoded_value(b, limit) is Ok,
    ensures
        encoding(decoded_value(b, limit)->Ok_0) == b,
        encodable(decoded_value(b, limit)->Ok_0),
        depth(decoded_value(b, limit)->Ok_0) <= limit,
    decreases b.len(), 0nat,
{
    let v = decoded_value(b, limit)->Ok_0;
    match OpCode::of_byte(b[0]) {
        Some(OpCode::Int32) => {
            lemma_i32_from_be_inverse(b.skip(1));
        },
        Some(OpCode::UInt64) => {
            lemma_u64_from_be_inverse(b.skip(1));
        },
        Some(op) => {
            let field = b.subrange(1, 9);
            let payload = b.skip(9);
            assert forall|j: int| 0 <= j < 8 implies field[j] == b.skip(1)[j] by {}
            lemma_u64_from_be_inverse(field);
            if op == OpCode::Text {
                decode_utf8_encode_utf8(payload);
            } else {
                law_decoded_is_encoded(payload, (limit - 1) as nat);
            }
        },
        None => {},
    }
}

/// Decoding accepts encodings only: bytes that decode are the encoding of
/// the values they decode to, and those values nest no deeper than the
/// decoder follows.
pub proof fn law_decoded_is_encoded(bytes: Seq<u8>, limit: nat)
    requires
        decoded(bytes, limit) is Ok,
    ensures
        stream(decoded(bytes, limit)->Ok_0) == bytes,
        all_encodable(decoded(bytes, limit)->Ok_0),
        max_depth(decoded(bytes, limit)->Ok_0) <= limit,
    decreases bytes.len(), 1nat,
{
    if bytes.len() > 0 {
        let k = head_len(bytes)->Ok_0;
        let head = bytes.take(k);
        let tail = bytes.skip(k);
        assert(head_len(head) == Ok::<int, DecodeError>(k)) by {
            if head.len() >= 9 {
                assert forall|j: int| 0 <= j < 8 implies head.skip(1)[j] == bytes.skip(1)[j] by {}
            }
        }
        lemma_decoded_value_is_encoded(head, limit);
        law_decoded_is_encoded(tail, limit);
        let v = decoded_value(head, limit)->Ok_0;
        let rest = decoded(tail, limit)->Ok_0;
        assert((seq![v] + rest).drop_first() =~= rest);
    }
}

/// Determinism: the bytes of an encoding depend on nothing but what the
/// values are. Two lists of values with the same models have one encoding.
pub proof fn law_same_values_same_bytes(a: Seq<Value>, b: Seq<Value>)
    requires
        models(a) == models(b),
    ensures
        stream(models(a)) == stream(models(b)),
{
}

/// A list is as deep as its deepest value.
proof fn lemma_max_depth_bound(values: Seq<ValueView>, bound: nat)
    requires
        forall|i: int| 0 <= i < values.len() ==> depth(#[trigger] values[i]) <= bound,
    ensures
        max_depth(values) <= bound,
    decreases values.len(),
{
    if values.len() > 0 {
        let rest = values.drop_first();
        assert forall|i: int| 0 <= i < rest.len() implies depth(#[trigger] rest[i]) <= bound by {
            assert(rest[i] == values[i + 1]);
        }
        lemma_max_depth_bound(rest, bound);
    }
}

/// The value of a grid nests three levels deep.
pub proof fn lemma_grid_depth(grid: Seq<Seq<Seq<i32>>>)
    ensures
        depth(grid_value(grid)) <= 3,
{
    let planes = grid_value(grid)->Sequence_0;
    assert forall|i: int| 0 <= i < planes.len() implies depth(#[trigger] planes[i]) <= 2 by {
        let rows = plane_value(grid[i])->Sequence_0;
        assert forall|j: int| 0 <= j < rows.len() implies depth(#[trigger] rows[j]) <= 1 by {
            let leaves = row_value(grid[i][j])->Sequence_0;
            lemma_max_depth_bound(leaves, 0);
        }
        lemma_max_depth_bound(rows, 1);
    }
    lemma_max_depth_bound(planes, 2);
}

/// Round trip of a file: the encoding of a file's three values reads back
/// as that file, where their length prefixes fit.
pub proof fn law_file_round_trip(file: FileView)
    requires
        all_encodable(file_values(file)),
    ensures
        file_decoded(stream(file_values(file))) == Ok::<FileView, ReadError>(file),
{
    let values = file_values(file);
    lemma_grid_depth(file.data);
    lemma_max_depth_bound(values, 3);
    law_round_trip(values, DEFAULT_MAX_DEPTH as nat);
    lemma_grid_of_grid_value(file.data);
}

/// Tags and bytes stand for each other: a tag's byte reads back as that
/// tag, and a byte that reads as a tag is that tag's byte. So no two tags
/// share a byte.
pub proof fn law_tag_bytes(op: OpCode, byte: u8)
    ensures
        OpCode::of_byte(op.byte()) == Some(op),
        OpCode::of_byte(byte) == Some(op) ==> op.byte() == byte,
{
}

/// Every encoded value opens with the tag of its kind.
pub proof fn law_encoding_opens_with_tag(v: ValueView)
    ensures
        encoding(v).len() > 0,
        encoding(v)[0] == OpCode::of_value(v).byte(),
{
}

/// Empty input holds no value and is no error.
pub proof fn law_empty_input(limit: nat)
    ensures
        decoded(Seq::<u8>::empty(), limit) == Ok::<Seq<ValueView>, DecodeError>(Seq::empty()),
{
}

/// Tags are exhaustive: input that opens with a byte other than the four
/// tags is refused with that byte.
pub proof fn law_unknown_tag(bytes: Seq<u8>, limit: nat)
    requires
        bytes.len() > 0,
        bytes[0] != 0x00 && bytes[0] != 0x01 && bytes[0] != 0x10 && bytes[0] != 0x11,
    ensures
        decoded(bytes, limit) == Err::<Seq<ValueView>, DecodeError>(
            DecodeError::UnknownTag(bytes[0]),
        ),
{
}

/// Each tag decodes to its own kind: where input decodes, its first byte is
/// the tag of the first value.
pub proof fn law_tag_names_kind(bytes: Seq<u8>, limit: nat)
    requires
        bytes.len() > 0,
        decoded(bytes, limit) is Ok,
    ensures
        decoded(bytes, limit)->Ok_0.len() > 0,
        OpCode::of_byte(bytes[0]) == Some(OpCode::of_value(decoded(bytes, limit)->Ok_0[0])),
{
    let k = head_len(bytes)->Ok_0;
    let v = decoded_value(bytes.take(k), limit)->Ok_0;
    let rest = decoded(bytes.skip(k), limit)->Ok_0;
    assert(decoded(bytes, limit)->Ok_0 == seq![v] + rest);
}

/// No byte of valid UTF-8 is `0xFF`.
proof fn lemma_utf8_has_no_ff(bytes: Seq<u8>, at: int)
    requires
        valid_utf8(bytes),
        0 <= at < bytes.len(),
    ensures
        bytes[at] != 0xff,
    decreases bytes.len(),
{
    let k = length_of_first_scalar(bytes);
    if at >= k {
        let rest = pop_first_scalar(bytes);
        assert(rest[at - k] == bytes[at]);
        lemma_utf8_has_no_ff(rest, at - k);
    }
}

/// A text whose bytes hold `0xFF` anywhere is refused as invalid, whatever
/// follows it.
pub proof fn law_text_with_ff(payload: Seq<u8>, tail: Seq<u8>, limit: nat, at: int)
    requires
        payload.len() <= u64::MAX,
        0 <= at < payload.len(),
        payload[at] == 0xff,
    ensures
        decoded(framed(OpCode::Text, payload) + tail, limit) == Err::<
            Seq<ValueView>,
            DecodeError,
        >(DecodeError::InvalidText),
{
    let e = framed(OpCode::Text, payload);
    let b = e + tail;
    lemma_framed_head(OpCode::Text, payload, tail);
    assert(b.take(e.len() as int) =~= e);
    if valid_utf8(payload) {
        lemma_utf8_has_no_ff(payload, at);
    }
    assert(decoded_value(e, limit) == Err::<ValueView, DecodeError>(DecodeError::InvalidText));
}

} // verus!
