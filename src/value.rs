//! Runtime values: 64-bit integers and IEEE-754 doubles.
use vstd::prelude::*;

verus! {

/// A value on the evaluation stack, in a constant pool or in a variable slot.
///
/// A `Float` holds the IEEE-754 bit pattern of a double; the library never
/// interprets those bits itself (float arithmetic is done by the host).
#[derive(Debug, Clone, Copy, PartialEq, Eq, Structural)]
pub enum StackSlot {
    Int(i64),
    Float(u64),
}

impl StackSlot {
    /// The integer payload, if this is an `Int`.
    pub fn as_i64(&self) -> (r: Option<i64>)
        ensures
            r == (match *self {
                StackSlot::Int(v) => Some(v),
                StackSlot::Float(_) => None::<i64>,
            }),
    {
        match self {
            StackSlot::Int(v) => Some(*v),
            StackSlot::Float(_) => None,
        }
    }

    /// The bit pattern of the float payload, if this is a `Float`.
    pub fn as_f64(&self) -> (r: Option<u64>)
        ensures
            r == (match *self {
                StackSlot::Float(b) => Some(b),
                StackSlot::Int(_) => None::<u64>,
            }),
    {
        match self {
            StackSlot::Float(b) => Some(*b),
            StackSlot::Int(_) => None,
        }
    }
}

} // verus!
