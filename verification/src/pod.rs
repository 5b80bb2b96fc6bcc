//! The parts of PipeWire parameter objects that are read here, held as plain values.

use vstd::prelude::*;

verus! {

/// A value inside a parameter object. Floating-point numbers are held by
/// their bit patterns.
pub enum PodValue {
    Bool(bool),
    Int(i32),
    /// An array of 32-bit floats, each by its bits.
    FloatArray(Vec<u32>),
    /// An array of 64-bit floats, each by its bits.
    DoubleArray(Vec<u64>),
    Object(PodObject),
    /// Any other kind of value.
    Other,
}

/// A keyed property of an object.
pub struct PodProperty {
    pub key: u32,
    pub value: PodValue,
}

/// An object: its type, its id and its properties in order.
pub struct PodObject {
    pub type_: u32,
    pub id: u32,
    pub properties: Vec<PodProperty>,
}

} // verus!
