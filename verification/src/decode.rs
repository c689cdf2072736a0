//! Decoding: from the bytes of the wire format back to a list of values.

use crate::endian::{i32_from_be, read_i32_be, read_u64_be, u64_from_be};
use crate::value::{lemma_models_push, model, models, OpCode, Value, ValueView};
use vstd::prelude::*;
use vstd::slice::{slice_subrange, slice_to_vec};
use vstd::utf8::{decode_utf8, encode_utf8, encode_utf8_decode_utf8, valid_utf8};

verus! {

/// Why a byte stream was refused.
#[derive(Debug, Clone, Copy, PartialEq, Eq, Structural)]
pub enum DecodeError {
    /// Fewer bytes are left than a fixed-width field or a length prefix asks for.
    TruncatedInput,
    /// A value opens with a byte that is none of the four tags; the byte is kept.
    UnknownTag(u8),
    /// The bytes of a text are not valid UTF-8.
    InvalidText,
    /// Sequences are nested deeper than the decoder was told to follow.
    NestingTooDeep,
}

/// The nesting depth that a [`Deserializer`] follows unless told otherwise.
pub const DEFAULT_MAX_DEPTH: usize = 64;

/// The number of bytes that the value at the head of `b` takes, counting
/// its tag and its length prefix, or the error that its framing raises: the
/// tag is unknown, or `b` ends before the value does.
pub open spec fn head_len(b: Seq<u8>) -> Result<int, DecodeError> {
    if b.len() == 0 {
        Err(DecodeError::TruncatedInput)
    } else {
        match OpCode::of_byte(b[0]) {
            None => Err(DecodeError::UnknownTag(b[0])),
            Some(OpCode::Int32) => if b.len() < 5 {
                Err(DecodeError::TruncatedInput)
            } else {
                Ok(5)
            },
            Some(OpCode::UInt64) => if b.len() < 9 {
                Err(DecodeError::TruncatedInput)
            } else {
                Ok(9)
            },
            Some(_) => if b.len() < 9 || b.len() - 9 < u64_from_be(b.skip(1)) {
                Err(DecodeError::TruncatedInput)
            } else {
                Ok(9 + u64_from_be(b.skip(1)))
            },
        }
    }
}

/// The value that `b` holds, where `b` is exactly the bytes of one value as
/// [`head_len`] frames it. A sequence may nest `limit` levels deep, itself
/// counted.
pub open spec fn decoded_value(b: Seq<u8>, limit: nat) -> Result<ValueView, DecodeError>
    decreases b.len(), 0nat,
{
    if b.len() == 0 {
        Err(DecodeError::TruncatedInput)
    } else {
        match OpCode::of_byte(b[0]) {
            None => Err(DecodeError::UnknownTag(b[0])),
            Some(OpCode::Int32) => Ok(ValueView::Int32(i32_from_be(b.skip(1)))),
            Some(OpCode::UInt64) => Ok(ValueView::UInt64(u64_from_be(b.skip(1)))),
            Some(OpCode::Text) => if b.len() < 9 {
                Err(DecodeError::TruncatedInput)
            } else if valid_utf8(b.skip(9)) {
                Ok(ValueView::Text(decode_utf8(b.skip(9))))
            } else {
                Err(DecodeError::InvalidText)
            },
            Some(OpCode::Sequence) => if b.len() < 9 {
                Err(DecodeError::TruncatedInput)
            } else if limit == 0 {
                Err(DecodeError::NestingTooDeep)
            } else {
                match decoded(b.skip(9), (limit - 1) as nat) {
                    Ok(items) => Ok(ValueView::Sequence(items)),
                    Err(e) => Err(e),
                }
            },
        }
    }
}

/// The values that `b` holds, read from its first byte to its last, or the
/// first error met on the way. The framing of a value is checked before its
/// payload, and a value before the values behind it. Empty input holds no
/// value and is no error.
pub open spec fn decoded(b: Seq<u8>, limit: nat) -> Result<Seq<ValueView>, DecodeError>
    decreases b.len(), 1nat,
{
    if b.len() == 0 {
        Ok(Seq::empty())
    } else {
        match head_len(b) {
            Err(e) => Err(e),
            Ok(k) => match decoded_value(b.take(k), limit) {
                Err(e) => Err(e),
                Ok(v) => match decoded(b.skip(k), limit) {
                    Err(e) => Err(e),
                    Ok(rest) => Ok(seq![v] + rest),
                },
            },
        }
    }
}

/// `done` in front of what `rest` holds, or the error of `rest`.
pub open spec fn prepend(done: Seq<ValueView>, rest: Result<Seq<ValueView>, DecodeError>) -> Result<
    Seq<ValueView>,
    DecodeError,
> {
    match rest {
        Ok(values) => Ok(done + values),
        Err(e) => Err(e),
    }
}

/// What a decoder's result says in terms of the model.
pub open spec fn outcome(r: Result<Vec<Value>, DecodeError>) -> Result<Seq<ValueView>, DecodeError> {
    match r {
        Ok(values) => Ok(models(values@)),
        Err(e) => Err(e),
    }
}

/// The two big-endian readers look at the first bytes only.
proof fn lemma_fields_agree(a: Seq<u8>, b: Seq<u8>)
    requires
        a.len() >= 4,
        b.len() >= 4,
        forall|j: int| 0 <= j < 8 && j < a.len() && j < b.len() ==> a[j] == b[j],
    ensures
        i32_from_be(a) == i32_from_be(b),
        a.len() >= 8 && b.len() >= 8 ==> u64_from_be(a) == u64_from_be(b),
{
}

/// Calls `String::from_utf8` and drops the error's detail. Trusted: the call
/// succeeds exactly on valid UTF-8, and the string it gives is made of the
/// bytes it was given.
#[verifier::external_body]
fn text_from_utf8(bytes: Vec<u8>) -> (text: Option<String>)
    ensures
        text is Some <==> valid_utf8(bytes@),
        text matches Some(s) ==> encode_utf8(s@) == bytes@,
{
    match String::from_utf8(bytes) {
        Ok(s) => Some(s),
        Err(_) => None,
    }
}

/// Reads the framing of the value that starts at `pos`: its tag and the
/// number of bytes it takes in all.
fn read_head(buffer: &[u8], pos: usize) -> (r: Result<(OpCode, usize), DecodeError>)
    requires
        pos < buffer@.len(),
    ensures
        match r {
            Ok((op, k)) => {
                &&& head_len(buffer@.skip(pos as int)) == Ok::<int, DecodeError>(k as int)
                &&& OpCode::of_byte(buffer@[pos as int]) == Some(op)
                &&& pos + k <= buffer@.len()
            },
            Err(e) => head_len(buffer@.skip(pos as int)) == Err::<int, DecodeError>(e),
        },
{
    let ghost rest = buffer@.skip(pos as int);
    let tag = buffer[pos];
    let room = buffer.len() - pos - 1;
    match OpCode::from_byte(tag) {
        None => Err(DecodeError::UnknownTag(tag)),
        Some(OpCode::Int32) => if room < 4 {
            Err(DecodeError::TruncatedInput)
        } else {
            Ok((OpCode::Int32, 5))
        },
        Some(OpCode::UInt64) => if room < 8 {
            Err(DecodeError::TruncatedInput)
        } else {
            Ok((OpCode::UInt64, 9))
        },
        Some(op) => {
            if room < 8 {
                return Err(DecodeError::TruncatedInput);
            }
            let n = read_u64_be(slice_subrange(buffer, pos + 1, pos + 9));
            proof {
                lemma_fields_agree(buffer@.subrange(pos + 1, pos + 9), rest.skip(1));
            }
            if n > (room - 8) as u64 {
                Err(DecodeError::TruncatedInput)
            } else {
                Ok((op, 9 + n as usize))
            }
        },
    }
}

/// Reads a byte stream back into the values that it holds.
pub struct Deserializer {
    buffer: Vec<u8>,
    max_depth: usize,
}

impl Deserializer {
    /// The bytes that this deserializer was given.
    pub closed spec fn bytes(&self) -> Seq<u8> {
        self.buffer@
    }

    /// How many levels of sequences within sequences it follows.
    pub closed spec fn limit(&self) -> nat {
        self.max_depth as nat
    }

    /// A deserializer for `buffer` that follows [`DEFAULT_MAX_DEPTH`] levels
    /// of nesting.
    pub fn new(buffer: Vec<u8>) -> (d: Deserializer)
        ensures
            d.bytes() == buffer@,
            d.limit() == DEFAULT_MAX_DEPTH,
    {
        Deserializer { buffer, max_depth: DEFAULT_MAX_DEPTH }
    }

    /// A deserializer for `buffer` that follows `max_depth` levels of nesting.
    pub fn with_max_depth(buffer: Vec<u8>, max_depth: usize) -> (d: Deserializer)
        ensures
            d.bytes() == buffer@,
            d.limit() == max_depth,
    {
        Deserializer { buffer, max_depth }
    }

    /// Decodes the whole buffer: the values it holds, as [`decoded`] gives
    /// them, or the first error met.
    pub fn deserialize(self) -> (r: Result<Vec<Value>, DecodeError>)
        ensures
            outcome(r) == decoded(self.bytes(), self.limit()),
    {
        Self::deserialize_values(self.buffer.as_slice(), self.max_depth)
    }

    /// Decodes `buffer` from its first byte to its last. The payload of a
    /// sequence is decoded by a call of this function on exactly the bytes
    /// that its length prefix frames, with one level of nesting less to go.
    pub fn deserialize_values(buffer: &[u8], max_depth: usize) -> (r: Result<
        Vec<Value>,
        DecodeError,
    >)
        ensures
            outcome(r) == decoded(buffer@, max_depth as nat),
        decreases buffer@.len(),
    {
        let ghost limit = max_depth as nat;
        let mut values: Vec<Value> = Vec::new();
        let mut pos: usize = 0;
        assert(buffer@.skip(0) =~= buffer@);
        while pos < buffer.len()
            invariant
                pos <= buffer@.len(),
                limit == max_depth as nat,
                decoded(buffer@, limit) == prepend(
                    models(values@),
                    decoded(buffer@.skip(pos as int), limit),
                ),
            decreases buffer@.len() - pos,
        {
            let ghost rest = buffer@.skip(pos as int);
            let (op, k) = match read_head(buffer, pos) {
                Ok(head) => head,
                Err(e) => {
                    return Err(e);
                },
            };
            let ghost whole = rest.take(k as int);
            assert(buffer@.skip(pos + k) =~= rest.skip(k as int));
            let value = match op {
                OpCode::Int32 => {
                    let field = slice_subrange(buffer, pos + 1, pos + 5);
                    proof {
                        lemma_fields_agree(field@, whole.skip(1));
                    }
                    Value::Int32(read_i32_be(field))
                },
                OpCode::UInt64 => {
                    let field = slice_subrange(buffer, pos + 1, pos + 9);
                    proof {
                        lemma_fields_agree(field@, whole.skip(1));
                    }
                    Value::UInt64(read_u64_be(field))
                },
                OpCode::Text => {
                    let payload = slice_subrange(buffer, pos + 9, pos + k);
                    assert(payload@ =~= whole.skip(9));
                    match text_from_utf8(slice_to_vec(payload)) {
                        Some(text) => {
                            proof {
                                encode_utf8_decode_utf8(text@);
                            }
                            Value::Text(text)
                        },
                        None => {
                            return Err(DecodeError::InvalidText);
                        },
                    }
                },
                OpCode::Sequence => {
                    let payload = slice_subrange(buffer, pos + 9, pos + k);
                    assert(payload@ =~= whole.skip(9));
                    if max_depth == 0 {
                        return Err(DecodeError::NestingTooDeep);
                    }
                    match Self::deserialize_values(payload, max_depth - 1) {
                        Ok(items) => Value::Sequence(items),
                        Err(e) => {
                            return Err(e);
                        },
                    }
                },
            };
            proof {
                assert(decoded_value(whole, limit) == Ok::<ValueView, DecodeError>(model(value)));
                lemma_models_push(values@, value);
                let tail = decoded(rest.skip(k as int), limit);
                if let Ok(more) = tail {
                    assert(models(values@) + (seq![model(value)] + more) =~= models(values@).push(
                        model(value),
                    ) + more);
                }
            }
            values.push(value);
            pos = pos + k;
        }
        Ok(values)
    }
}

} // verus!
