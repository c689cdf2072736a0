//! The values that the codec carries, and their mathematical model.

use vstd::prelude::*;

verus! {

/// What a [`Value`] stands for: the same tree with mathematical sequences in
/// place of strings and vectors. Contracts speak of this model.
pub enum ValueView {
    Int32(i32),
    UInt64(u64),
    Text(Seq<char>),
    Sequence(Seq<ValueView>),
}

/// A value of one of the four kinds that the wire format knows.
#[derive(Debug, PartialEq, Eq)]
pub enum Value {
    /// A signed 32-bit integer.
    Int32(i32),
    /// An unsigned 64-bit integer.
    UInt64(u64),
    /// A piece of text.
    Text(String),
    /// An ordered list of values, of any kinds and nested to any depth.
    Sequence(Vec<Value>),
}

/// The one-byte tag that opens every encoded value and names its kind.
#[derive(Debug, Clone, Copy, PartialEq, Eq, Structural)]
pub enum OpCode {
    /// A length-prefixed run of encoded values.
    Sequence,
    /// A length-prefixed run of UTF-8 bytes.
    Text,
    /// Four bytes of a signed integer.
    Int32,
    /// Eight bytes of an unsigned integer.
    UInt64,
}

impl OpCode {
    /// The byte that stands for this tag on the wire.
    pub open spec fn byte(self) -> u8 {
        match self {
            OpCode::Sequence => 0x00,
            OpCode::Text => 0x01,
            OpCode::Int32 => 0x10,
            OpCode::UInt64 => 0x11,
        }
    }

    /// The tag that `byte` stands for, if it stands for one.
    pub open spec fn of_byte(byte: u8) -> Option<OpCode> {
        if byte == 0x00 {
            Some(OpCode::Sequence)
        } else if byte == 0x01 {
            Some(OpCode::Text)
        } else if byte == 0x10 {
            Some(OpCode::Int32)
        } else if byte == 0x11 {
            Some(OpCode::UInt64)
        } else {
            None
        }
    }

    /// The tag of a value's kind.
    pub open spec fn of_value(v: ValueView) -> OpCode {
        match v {
            ValueView::Int32(_) => OpCode::Int32,
            ValueView::UInt64(_) => OpCode::UInt64,
            ValueView::Text(_) => OpCode::Text,
            ValueView::Sequence(_) => OpCode::Sequence,
        }
    }

    /// Resolves a byte read from the wire: one of the four tags, or `None`
    /// for every other byte.
    pub fn from_byte(byte: u8) -> (op: Option<OpCode>)
        ensures
            op == OpCode::of_byte(byte),
            op matches Some(tag) ==> tag.byte() == byte,
            op is Some <==> (byte == 0x00 || byte == 0x01 || byte == 0x10 || byte == 0x11),
    {
        match byte {
            0x00 => Some(OpCode::Sequence),
            0x01 => Some(OpCode::Text),
            0x10 => Some(OpCode::Int32),
            0x11 => Some(OpCode::UInt64),
            _ => None,
        }
    }

    /// The tag under which `value` is written.
    pub fn of(value: &Value) -> (op: OpCode)
        ensures
            op == OpCode::of_value(value@),
    {
        match value {
            Value::Int32(_) => OpCode::Int32,
            Value::UInt64(_) => OpCode::UInt64,
            Value::Text(_) => OpCode::Text,
            Value::Sequence(_) => OpCode::Sequence,
        }
    }
}

impl From<OpCode> for u8 {
    /// The byte that stands for `op` on the wire.
    fn from(op: OpCode) -> (byte: u8) {
        match op {
            OpCode::Sequence => 0x00,
            OpCode::Text => 0x01,
            OpCode::Int32 => 0x10,
            OpCode::UInt64 => 0x11,
        }
    }
}

impl vstd::std_specs::convert::FromSpecImpl<OpCode> for u8 {
    open spec fn obeys_from_spec() -> bool {
        true
    }

    open spec fn from_spec(op: OpCode) -> u8 {
        op.byte()
    }
}

/// The model of one value.
pub open spec fn model(v: Value) -> ValueView
    decreases v,
{
    match v {
        Value::Int32(x) => ValueView::Int32(x),
        Value::UInt64(x) => ValueView::UInt64(x),
        Value::Text(s) => ValueView::Text(s@),
        Value::Sequence(items) => ValueView::Sequence(models(items@)),
    }
}

/// The models of a list of values, in order.
pub open spec fn models(values: Seq<Value>) -> Seq<ValueView>
    decreases values,
{
    if values.len() == 0 {
        Seq::empty()
    } else {
        models(values.drop_last()).push(model(values.last()))
    }
}

/// How deep sequences nest in `v`: 0 for an integer or a text, and for a
/// sequence one more than the deepest of its items.
pub open spec fn depth(v: ValueView) -> nat
    decreases v,
{
    match v {
        ValueView::Sequence(items) => 1 + max_depth(items),
        _ => 0,
    }
}

/// The depth of the deepest value of the list; 0 for the empty list.
pub open spec fn max_depth(values: Seq<ValueView>) -> nat
    decreases values,
{
    if values.len() == 0 {
        0
    } else {
        let first = depth(values[0]);
        let others = max_depth(values.drop_first());
        if first >= others {
            first
        } else {
            others
        }
    }
}

impl View for Value {
    type V = ValueView;

    open spec fn view(&self) -> ValueView {
        model(*self)
    }
}

/// `models` works item by item.
pub proof fn lemma_models(values: Seq<Value>)
    ensures
        models(values).len() == values.len(),
        forall|i: int| 0 <= i < values.len() ==> #[trigger] models(values)[i] == model(values[i]),
    decreases values.len(),
{
    if values.len() > 0 {
        lemma_models(values.drop_last());
    }
}

/// Appending a value appends its model.
pub proof fn lemma_models_push(values: Seq<Value>, v: Value)
    ensures
        models(values.push(v)) == models(values).push(model(v)),
{
    assert(values.push(v).drop_last() =~= values);
}

impl Clone for Value {
    /// A deep copy: a value with the same model.
    fn clone(&self) -> (copy: Value)
        ensures
            copy@ == self@,
        decreases self,
    {
        match self {
            Value::Int32(x) => Value::Int32(*x),
            Value::UInt64(x) => Value::UInt64(*x),
            Value::Text(s) => Value::Text(s.clone()),
            Value::Sequence(items) => {
                let mut copies: Vec<Value> = Vec::new();
                let mut i: usize = 0;
                while i < items.len()
                    invariant
                        *self == Value::Sequence(*items),
                        i <= items.len(),
                        models(copies@) == models(items@.take(i as int)),
                    decreases items.len() - i,
                {
                    proof {
                        vstd::std_specs::vec::axiom_vec_index_decreases(*items, i as int);
                        assert(self->Sequence_0 == *items);
                    }
                    let item = items[i].clone();
                    proof {
                        lemma_models_push(copies@, item);
                        assert(items@.take(i + 1) =~= items@.take(i as int).push(items@[i as int]));
                        lemma_models_push(items@.take(i as int), items@[i as int]);
                    }
                    copies.push(item);
                    i += 1;
                }
                assert(items@.take(i as int) =~= items@);
                Value::Sequence(copies)
            }
        }
    }
}

} // verus!
