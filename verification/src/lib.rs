//! Semantic resolution for a schema language that describes hierarchical
//! binary tag data: compounds, enums, typed fields and registry bindings.
//!
//! The crate takes module trees that have already been parsed and links
//! every name in them to the definition it denotes.

pub mod identifier;
pub mod parse;
pub mod table;
pub mod validation;

use vstd::prelude::*;

verus! {

/// A 32-bit float, held as its IEEE 754 bit pattern.
#[derive(Debug, Clone, Copy, PartialEq, Eq)]
pub struct F32Bits(pub u32);

/// A 64-bit float, held as its IEEE 754 bit pattern.
#[derive(Debug, Clone, Copy, PartialEq, Eq)]
pub struct F64Bits(pub u64);

/// The bit pattern of positive infinity, single precision.
pub const F32_INFINITY: u32 = 0x7f80_0000;

/// The bit pattern of negative infinity, single precision.
pub const F32_NEG_INFINITY: u32 = 0xff80_0000;

/// The bit pattern of positive infinity, double precision.
pub const F64_INFINITY: u64 = 0x7ff0_0000_0000_0000;

/// The bit pattern of negative infinity, double precision.
pub const F64_NEG_INFINITY: u64 = 0xfff0_0000_0000_0000;

/// An inclusive range: `Range(low, high)`.
#[derive(Debug, Clone, Copy, PartialEq)]
pub struct Range<T>(pub T, pub T);

/// The range that a declared range stands for, with `min` and `max` as the
/// natural bounds of its values.
pub open spec fn range_of<T>(range: parse::ast::Range<T>, min: T, max: T) -> Range<T> {
    match range {
        parse::ast::Range::Single(v) => Range(v, v),
        parse::ast::Range::Both(l, h) => Range(l, h),
        parse::ast::Range::Low(l) => Range(l, max),
        parse::ast::Range::High(h) => Range(min, h),
    }
}

/// The range that a declaration stands for: a single value bounds both
/// sides, two bounds are taken as they are, and one bound alone leaves the
/// other side to the natural bound `min` or `max`.
pub fn convert_range<T: Copy>(range: parse::ast::Range<T>, min: T, max: T) -> (r: Range<T>)
    ensures
        r == range_of(range, min, max),
{
    match range {
        parse::ast::Range::Single(v) => Range(v, v),
        parse::ast::Range::Both(l, h) => Range(l, h),
        parse::ast::Range::Low(l) => Range(l, max),
        parse::ast::Range::High(h) => Range(min, h),
    }
}

} // verus!
