//! The dynamically typed value model: six variants, copied by duplication.
//!
//! A `Float` carries its IEEE-754 bit pattern: the machine moves those bits
//! verbatim, and only the host's floating-point unit computes with them. An
//! `Object` is a handle into the machine's heap, so two equal handles alias
//! the same cell.

use vstd::prelude::*;

verus! {

/// Marker for host-side payloads carried by native object cells; the host
/// keys them by the token a `Native` cell holds.
pub trait NativeObject {

}

/// One runtime value.
#[derive(Debug)]
pub enum Value {
    Null,
    Boolean(bool),
    Integer(i32),
    Float(u32),
    String(String),
    Object(usize),
}

/// One heap cell: either a fixed-length row of value slots, or an opaque
/// host-side payload token.
#[derive(Debug)]
pub enum Object {
    Values(Vec<Value>),
    Native(u64),
}

/// The model of a value.
pub enum ValueV {
    Null,
    Bool(bool),
    Int(i32),
    Float(u32),
    Str(Seq<char>),
    Obj(int),
}

/// The model of a heap cell.
pub enum ObjectV {
    Values(Seq<ValueV>),
    Native(u64),
}

impl View for Value {
    type V = ValueV;

    open spec fn view(&self) -> ValueV {
        match *self {
            Value::Null => ValueV::Null,
            Value::Boolean(b) => ValueV::Bool(b),
            Value::Integer(i) => ValueV::Int(i),
            Value::Float(bits) => ValueV::Float(bits),
            Value::String(ref s) => ValueV::Str(s@),
            Value::Object(h) => ValueV::Obj(h as int),
        }
    }
}

/// The model of a sequence of values.
pub open spec fn vals_view(s: Seq<Value>) -> Seq<ValueV> {
    s.map_values(|v: Value| v@)
}

impl View for Object {
    type V = ObjectV;

    open spec fn view(&self) -> ObjectV {
        match *self {
            Object::Values(ref vs) => ObjectV::Values(vals_view(vs@)),
            Object::Native(t) => ObjectV::Native(t),
        }
    }
}

impl Value {
    /// Copies a value; an object handle still aliases the same cell.
    pub fn duplicate(&self) -> (r: Value)
        ensures
            r@ == self@,
    {
        match self {
            Value::Null => Value::Null,
            Value::Boolean(b) => Value::Boolean(*b),
            Value::Integer(i) => Value::Integer(*i),
            Value::Float(bits) => Value::Float(*bits),
            Value::String(s) => Value::String(s.clone()),
            Value::Object(h) => Value::Object(*h),
        }
    }
}

/// Copies a row of values slot by slot.
pub fn dup_values(vs: &Vec<Value>) -> (r: Vec<Value>)
    ensures
        vals_view(r@) == vals_view(vs@),
{
    let mut r: Vec<Value> = Vec::new();
    let n = vs.len();
    let mut i: usize = 0;
    while i < n
        invariant
            i <= n,
            n == vs@.len(),
            r@.len() == i,
            forall|j: int| 0 <= j < i ==> r@[j]@ == vs@[j]@,
        decreases n - i,
    {
        r.push(vs[i].duplicate());
        i = i + 1;
    }
    proof {
        assert(vals_view(r@) =~= vals_view(vs@));
    }
    r
}

} // verus!
