//! Encoding: from a list of values to the bytes of the wire format.

use crate::endian::{i32_be, u64_be, write_i32_be, write_u64_be};
use crate::value::{lemma_models_push, model, models, OpCode, Value, ValueView};
use vstd::prelude::*;
use vstd::utf8::encode_utf8;

verus! {

/// A tag, the big-endian length of `payload` in eight bytes, and `payload`.
pub open spec fn framed(op: OpCode, payload: Seq<u8>) -> Seq<u8> {
    seq![op.byte()] + u64_be(payload.len() as u64) + payload
}

/// The bytes of one value: its tag, then four or eight big-endian bytes for
/// an integer, or a length prefix and that many bytes for a text (its UTF-8
/// form) or a sequence (the encoding of its items).
pub open spec fn encoding(v: ValueView) -> Seq<u8>
    decreases v,
{
    match v {
        ValueView::Int32(x) => seq![OpCode::Int32.byte()] + i32_be(x),
        ValueView::UInt64(x) => seq![OpCode::UInt64.byte()] + u64_be(x),
        ValueView::Text(s) => framed(OpCode::Text, encode_utf8(s)),
        ValueView::Sequence(items) => framed(OpCode::Sequence, stream(items)),
    }
}

/// The bytes of a list of values: their encodings one after the other, with
/// nothing before, between or after them.
pub open spec fn stream(values: Seq<ValueView>) -> Seq<u8>
    decreases values,
{
    if values.len() == 0 {
        Seq::empty()
    } else {
        encoding(values[0]) + stream(values.drop_first())
    }
}

/// Every length prefix that the encoding of `v` holds fits its eight bytes.
pub open spec fn encodable(v: ValueView) -> bool
    decreases v,
{
    match v {
        ValueView::Int32(_) => true,
        ValueView::UInt64(_) => true,
        ValueView::Text(s) => encode_utf8(s).len() <= u64::MAX,
        ValueView::Sequence(items) => all_encodable(items) && stream(items).len() <= u64::MAX,
    }
}

/// Every value of the list is [`encodable`].
pub open spec fn all_encodable(values: Seq<ValueView>) -> bool
    decreases values,
{
    values.len() == 0 || (encodable(values[0]) && all_encodable(values.drop_first()))
}

/// The encoding of two lists joined is the two encodings joined.
pub proof fn lemma_stream_concat(a: Seq<ValueView>, b: Seq<ValueView>)
    ensures
        stream(a + b) == stream(a) + stream(b),
    decreases a.len(),
{
    if a.len() == 0 {
    } else {
        lemma_stream_concat(a.drop_first(), b);
        assert((a + b).drop_first() =~= a.drop_first() + b);
    }
}

/// Two lists joined are encodable exactly when both are.
pub proof fn lemma_all_encodable_concat(a: Seq<ValueView>, b: Seq<ValueView>)
    ensures
        all_encodable(a + b) <==> all_encodable(a) && all_encodable(b),
    decreases a.len(),
{
    if a.len() == 0 {
    } else {
        lemma_all_encodable_concat(a.drop_first(), b);
        assert((a + b).drop_first() =~= a.drop_first() + b);
    }
}

/// The encoding of a one-item list is the encoding of the item.
pub proof fn lemma_stream_single(v: ValueView)
    ensures
        stream(seq![v]) == encoding(v),
        all_encodable(seq![v]) == encodable(v),
{
    reveal_with_fuel(stream, 2);
    reveal_with_fuel(all_encodable, 2);
}

/// What an encoding can fail on.
#[derive(Debug, Clone, Copy, PartialEq, Eq, Structural)]
pub enum EncodeError {
    /// A payload is longer than an eight-byte length prefix can say.
    LengthOverflow,
}

/// Collects values and writes them out as one byte stream.
pub struct Serializer {
    values: Vec<Value>,
}

impl View for Serializer {
    type V = Seq<ValueView>;

    /// The models of the values added so far, in the order of their adding.
    closed spec fn view(&self) -> Seq<ValueView> {
        models(self.values@)
    }
}

/// Appends `bytes` to `out`.
fn append(out: &mut Vec<u8>, bytes: &[u8])
    ensures
        final(out)@ == old(out)@ + bytes@,
{
    out.extend_from_slice(bytes);
}

/// The length prefix for a payload of `len` bytes. On a machine whose
/// addresses have at most 64 bits every length fits.
fn length_prefix(len: usize) -> (r: Result<u64, EncodeError>)
    ensures
        r == Ok::<u64, EncodeError>(len as u64),
        len as u64 == len,
{
    if len as u128 > u64::MAX as u128 {
        Err(EncodeError::LengthOverflow)
    } else {
        Ok(len as u64)
    }
}

/// Appends to `out` the tag `op`, the length of `payload` and `payload`.
fn put_framed(out: &mut Vec<u8>, op: OpCode, payload: &[u8]) -> (r: Result<(), EncodeError>)
    ensures
        r is Ok,
        final(out)@ == old(out)@ + framed(op, payload@),
        payload@.len() <= u64::MAX,
{
    let len = length_prefix(payload.len())?;
    out.push(op.into());
    let prefix = write_u64_be(len);
    append(out, &prefix);
    append(out, payload);
    Ok(())
}

impl Serializer {
    /// A serializer that holds no value yet.
    pub fn new() -> (s: Serializer)
        ensures
            s@ == Seq::<ValueView>::empty(),
    {
        Serializer { values: Vec::new() }
    }

    /// Adds `value` behind the values added before.
    pub fn add(&mut self, value: Value)
        ensures
            final(self)@ == old(self)@.push(value@),
    {
        proof {
            lemma_models_push(self.values@, value);
        }
        self.values.push(value);
    }

    /// Encodes the values added, in the order of their adding. This never
    /// fails: the bytes come out as [`stream`] gives them.
    pub fn serialize(self) -> (r: Result<Vec<u8>, EncodeError>)
        ensures
            r matches Ok(bytes) && bytes@ == stream(self@),
            all_encodable(self@),
    {
        Self::serialize_values(&self.values)
    }

    /// Encodes `values` one after the other; a sequence among them is encoded
    /// by a call of this function on its items, and framed by the length of
    /// what that call returns.
    pub fn serialize_values(values: &Vec<Value>) -> (r: Result<Vec<u8>, EncodeError>)
        ensures
            r matches Ok(bytes) && bytes@ == stream(models(values@)),
            all_encodable(models(values@)),
        decreases values,
    {
        let mut out: Vec<u8> = Vec::new();
        let mut i: usize = 0;
        while i < values.len()
            invariant
                i <= values.len(),
                out@ == stream(models(values@.take(i as int))),
                all_encodable(models(values@.take(i as int))),
            decreases values.len() - i,
        {
            let ghost before = out@;
            let ghost v = model(values@[i as int]);
            match &values[i] {
                Value::Int32(x) => {
                    out.push(OpCode::Int32.into());
                    let field = write_i32_be(*x);
                    append(&mut out, &field);
                },
                Value::UInt64(x) => {
                    out.push(OpCode::UInt64.into());
                    let field = write_u64_be(*x);
                    append(&mut out, &field);
                },
                Value::Text(text) => {
                    put_framed(&mut out, OpCode::Text, text.as_str().as_bytes())?;
                },
                Value::Sequence(items) => {
                    proof {
                        vstd::std_specs::vec::axiom_vec_index_decreases(*values, i as int);
                    }
                    let inner = Self::serialize_values(items)?;
                    put_framed(&mut out, OpCode::Sequence, inner.as_slice())?;
                },
            }
            proof {
                assert(out@ =~= before + encoding(v));
                let done = values@.take(i as int);
                assert(values@.take(i + 1) =~= done.push(values@[i as int]));
                lemma_models_push(done, values@[i as int]);
                assert(models(done).push(v) =~= models(done) + seq![v]);
                lemma_stream_single(v);
                lemma_stream_concat(models(done), seq![v]);
                lemma_all_encodable_concat(models(done), seq![v]);
            }
            i += 1;
        }
        assert(values@.take(i as int) =~= values@);
        Ok(out)
    }
}

} // verus!
