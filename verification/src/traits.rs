//! Capability interfaces: what it means to be writable to a byte sink and
//! parseable from a byte source. The codec's own entry points live on
//! [`crate::Instruction`]; these traits let users describe further types
//! with the same shape.

use crate::{DumpError, ParseError};
use vstd::prelude::*;

verus! {

/// A type that can be written to a byte sink (serialized).
pub trait Dump {
    /// Append the encoding of `self` to `writer`.
    fn dump(&self, writer: &mut Vec<u8>) -> Result<(), DumpError>;
}

/// A type that can be parsed from a byte slice.
pub trait Parse where Self: Sized {
    /// Returns the parsed value and how many bytes were used.
    fn parse(bytes: &[u8]) -> Result<(Self, usize), ParseError>;
}

} // verus!
