use std::rc::Rc;
use vstd::prelude::*;

use crate::object::ObjString;

verus! {

/// A Lox value.
///
/// A number is held as its decimal text (the bytes of a numeric literal, or
/// of the text that the runtime gave for a computed double), so that the
/// library never touches floating point itself.
#[derive(Debug)]
pub enum Value {
    Number(Vec<u8>),
    Nil,
    Boolean(bool),
    Object(Rc<ObjString>),
}

/// The mathematical model of a value.
pub enum SpecValue {
    Number(Seq<u8>),
    Nil,
    Boolean(bool),
    Object(Seq<char>),
}

impl View for Value {
    type V = SpecValue;

    open spec fn view(&self) -> SpecValue {
        match self {
            Value::Number(t) => SpecValue::Number(t@),
            Value::Nil => SpecValue::Nil,
            Value::Boolean(b) => SpecValue::Boolean(*b),
            Value::Object(o) => SpecValue::Object(o.0@),
        }
    }
}

/// Lox truthiness: `nil` and `false` are falsy, every other value is truthy.
pub open spec fn falsy(v: SpecValue) -> bool {
    v matches SpecValue::Nil || v matches SpecValue::Boolean(false)
}

impl Value {
    pub fn is_number(&self) -> (r: bool)
        ensures
            r == (self@ is Number),
    {
        matches!(self, Value::Number(_))
    }

    pub fn is_object(&self) -> (r: bool)
        ensures
            r == (self@ is Object),
    {
        matches!(self, Value::Object(_))
    }

    pub fn is_falsy(&self) -> (r: bool)
        ensures
            r == falsy(self@),
    {
        match self {
            Value::Nil => true,
            Value::Boolean(b) => !*b,
            _ => false,
        }
    }

    /// A copy of the value.
    pub fn duplicate(&self) -> (r: Value)
        ensures
            r@ == self@,
    {
        match self {
            Value::Number(t) => Value::Number(vstd::slice::slice_to_vec(t.as_slice())),
            Value::Nil => Value::Nil,
            Value::Boolean(b) => Value::Boolean(*b),
            Value::Object(o) => Value::Object(ObjString::duplicate(o)),
        }
    }
}

/// A growable array of values: the constant pool of a chunk.
#[derive(Debug)]
pub struct ValueArray {
    values: Vec<Value>,
}

impl View for ValueArray {
    type V = Seq<SpecValue>;

    closed spec fn view(&self) -> Seq<SpecValue> {
        self.values@.map_values(|v: Value| v@)
    }
}

impl ValueArray {
    pub fn new() -> (a: ValueArray)
        ensures
            a@ == Seq::<SpecValue>::empty(),
    {
        let a = ValueArray { values: Vec::new() };
        assert(a@ =~= Seq::<SpecValue>::empty());
        a
    }

    /// The number of values held.
    pub fn len(&self) -> (n: usize)
        ensures
            n == self@.len(),
    {
        self.values.len()
    }

    /// Appends `value` and returns its index, truncated to a byte.
    pub fn write(&mut self, value: Value) -> (index: u8)
        ensures
            final(self)@ == old(self)@.push(value@),
            index == old(self)@.len() % 256,
    {
        let len = self.values.len();
        self.values.push(value);
        assert(self@ =~= old(self)@.push(value@));
        (len % 256) as u8
    }

    /// A copy of the value at `index`.
    pub fn get_value(&self, index: usize) -> (v: Value)
        requires
            index < self@.len(),
        ensures
            v@ == self@[index as int],
    {
        self.values[index].duplicate()
    }

    /// Drops every value.
    pub fn free(&mut self)
        ensures
            final(self)@ == Seq::<SpecValue>::empty(),
    {
        self.values = Vec::new();
        assert(self@ =~= Seq::<SpecValue>::empty());
    }
}

} // verus!
