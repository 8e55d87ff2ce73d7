//! Codec for the DVI page-description format.
//!
//! A DVI document is a flat stream of variable-length, opcode-tagged records
//! ("instructions"): glyph placement, cursor movement, font selection and
//! page boundaries. This crate encodes an [`Instruction`] into bytes and
//! decodes the next instruction from a byte slice, choosing the most compact
//! opcode variant on the way out and accepting every recognized variant on
//! the way back in.
//!
//! All multi-byte integers on the wire are big-endian. Unsigned operands use
//! 1 to 4 bytes; signed operands use 1 to 4 bytes of two's complement.

use vstd::prelude::*;

pub mod dumper;
pub mod parser;
mod traits;
pub mod util;
pub mod wire;

pub use traits::Dump;
pub use traits::Parse;

verus! {

/// A font definition.
#[derive(Debug, Clone)]
pub struct FontDef {
    /// The font number bound by this definition (one font per number,
    /// repeated once in the postamble).
    pub number: u32,
    /// Checksum of the font file.
    pub checksum: u32,
    /// Fixed-point scale factor applied to the character widths.
    pub scale_factor: u32,
    /// Design size of the font, in DVI units.
    pub design_size: u32,
    /// Directory of the font file; the default directory if `None`.
    pub directory: Option<Vec<u8>>,
    /// Name of the font file.
    pub filename: Vec<u8>,
}

/// The mathematical value of a [`FontDef`]: the same fields with byte
/// payloads abstracted to sequences.
#[verifier::ext_equal]
pub ghost struct FontDefValue {
    pub number: u32,
    pub checksum: u32,
    pub scale_factor: u32,
    pub design_size: u32,
    pub directory: Option<Seq<u8>>,
    pub filename: Seq<u8>,
}

impl View for FontDef {
    type V = FontDefValue;

    open spec fn view(&self) -> FontDefValue {
        FontDefValue {
            number: self.number,
            checksum: self.checksum,
            scale_factor: self.scale_factor,
            design_size: self.design_size,
            directory: match self.directory {
                Some(d) => Some(d@),
                None => None,
            },
            filename: self.filename@,
        }
    }
}

/// One DVI instruction.
///
/// A DVI file is a sequence of these records. Each record starts with a one
/// byte opcode; several record families reserve one opcode per operand width
/// so that the encoder can pick the smallest representation.
#[derive(Debug, Clone)]
pub enum Instruction {
    /// Typeset a character and move right by its width.
    SetChar(u32),
    /// Typeset a solid rectangle of the given height and width, then move
    /// right by the width.
    SetRule(i32, i32),
    /// Typeset a character without moving.
    Put(u32),
    /// Typeset a solid rectangle without moving.
    PutRule(i32, i32),
    /// Do nothing.
    Nop,
    /// Begin a page: ten signature values and a pointer to the previous
    /// page-start record (`-1` for the first page).
    Bop([i32; 10], i32),
    /// End the current page.
    Eop,
    /// Push the current position registers onto the stack.
    Push,
    /// Pop the position registers from the stack.
    Pop,
    /// Move right by the given signed distance.
    Right(i32),
    /// Move right by `w`: a new spacing when `Some`, the cached spacing
    /// when `None`.
    W(Option<i32>),
    /// Move right by `x`: a new spacing when `Some`, the cached spacing
    /// when `None`.
    X(Option<i32>),
    /// Move down by the given signed distance.
    Down(i32),
    /// Move down by `y`: a new spacing when `Some`, the cached spacing
    /// when `None`.
    Y(Option<i32>),
    /// Move down by `z`: a new spacing when `Some`, the cached spacing
    /// when `None`.
    Z(Option<i32>),
    /// Select the font with the given number.
    Font(u32),
    /// Opaque extension data, passed through uninterpreted.
    Xxx(Vec<u8>),
    /// Bind a font number to a font file.
    FontDef(FontDef),
    /// The preamble: format tag, measurement unit fraction, magnification
    /// and a comment.
    Pre {
        format: u8,
        numerator: u32,
        denominator: u32,
        magnification: u32,
        comment: Vec<u8>,
    },
    /// The start of the postamble, summarizing the document.
    Post {
        final_bop_pointer: i32,
        numerator: u32,
        denominator: u32,
        magnification: u32,
        tallest_height: i32,
        widest_width: i32,
        max_stack_depth: u16,
        total_no_pages: u16,
    },
    /// The end of the postamble: a pointer back to the postamble start, an
    /// identification byte, and a run of sentinel padding bytes.
    PostPost { post_pointer: u32, ident: u8, two_two_three: u32 },
}

/// The mathematical value of an [`Instruction`]: the same variants with byte
/// payloads abstracted to sequences. Contracts and the wire-format
/// specification are stated over this type.
#[verifier::ext_equal]
pub ghost enum InstructionValue {
    SetChar(u32),
    SetRule(i32, i32),
    Put(u32),
    PutRule(i32, i32),
    Nop,
    Bop(Seq<i32>, i32),
    Eop,
    Push,
    Pop,
    Right(i32),
    W(Option<i32>),
    X(Option<i32>),
    Down(i32),
    Y(Option<i32>),
    Z(Option<i32>),
    Font(u32),
    Xxx(Seq<u8>),
    FontDef(FontDefValue),
    Pre {
        format: u8,
        numerator: u32,
        denominator: u32,
        magnification: u32,
        comment: Seq<u8>,
    },
    Post {
        final_bop_pointer: i32,
        numerator: u32,
        denominator: u32,
        magnification: u32,
        tallest_height: i32,
        widest_width: i32,
        max_stack_depth: u16,
        total_no_pages: u16,
    },
    PostPost { post_pointer: u32, ident: u8, two_two_three: u32 },
}

impl View for Instruction {
    type V = InstructionValue;

    open spec fn view(&self) -> InstructionValue {
        match self {
            Instruction::SetChar(c) => InstructionValue::SetChar(*c),
            Instruction::SetRule(a, b) => InstructionValue::SetRule(*a, *b),
            Instruction::Put(c) => InstructionValue::Put(*c),
            Instruction::PutRule(a, b) => InstructionValue::PutRule(*a, *b),
            Instruction::Nop => InstructionValue::Nop,
            Instruction::Bop(c, p) => InstructionValue::Bop(c@, *p),
            Instruction::Eop => InstructionValue::Eop,
            Instruction::Push => InstructionValue::Push,
            Instruction::Pop => InstructionValue::Pop,
            Instruction::Right(b) => InstructionValue::Right(*b),
            Instruction::W(b) => InstructionValue::W(*b),
            Instruction::X(b) => InstructionValue::X(*b),
            Instruction::Down(a) => InstructionValue::Down(*a),
            Instruction::Y(a) => InstructionValue::Y(*a),
            Instruction::Z(a) => InstructionValue::Z(*a),
            Instruction::Font(f) => InstructionValue::Font(*f),
            Instruction::Xxx(d) => InstructionValue::Xxx(d@),
            Instruction::FontDef(fd) => InstructionValue::FontDef(fd@),
            Instruction::Pre { format, numerator, denominator, magnification, comment } => {
                InstructionValue::Pre {
                    format: *format,
                    numerator: *numerator,
                    denominator: *denominator,
                    magnification: *magnification,
                    comment: comment@,
                }
            },
            Instruction::Post {
                final_bop_pointer,
                numerator,
                denominator,
                magnification,
                tallest_height,
                widest_width,
                max_stack_depth,
                total_no_pages,
            } => {
                InstructionValue::Post {
                    final_bop_pointer: *final_bop_pointer,
                    numerator: *numerator,
                    denominator: *denominator,
                    magnification: *magnification,
                    tallest_height: *tallest_height,
                    widest_width: *widest_width,
                    max_stack_depth: *max_stack_depth,
                    total_no_pages: *total_no_pages,
                }
            },
            Instruction::PostPost { post_pointer, ident, two_two_three } => {
                InstructionValue::PostPost {
                    post_pointer: *post_pointer,
                    ident: *ident,
                    two_two_three: *two_two_three,
                }
            },
        }
    }
}

impl Instruction {
    /// Encode this instruction and append the bytes to `writer`, selecting
    /// the most compact opcode variant. When a variable-length field does
    /// not fit its length prefix the record is rejected before any byte is
    /// written.
    pub fn dump(&self, writer: &mut Vec<u8>) -> (r: Result<(), DumpError>)
        ensures
            dumper::encodable(self@) ==> r == Ok::<(), DumpError>(()) && final(writer)@ == old(
                writer,
            )@ + dumper::encoding(self@),
            !dumper::encodable(self@) ==> r == Err::<(), DumpError>(DumpError::FieldTooLarge)
                && final(writer)@ == old(writer)@,
    {
        dumper::dump(self, writer)
    }

    /// Parse one instruction from the start of `bytes`, returning it with
    /// the number of bytes the record occupied.
    pub fn parse(bytes: &[u8]) -> (r: Result<(Instruction, usize), ParseError>)
        ensures
            (match r {
                Ok(p) => parser::decoded(bytes@) == Ok::<(InstructionValue, int), ParseError>(
                    (p.0@, p.1 as int),
                ),
                Err(e) => parser::decoded(bytes@) == Err::<(InstructionValue, int), ParseError>(e),
            }),
    {
        parser::parse(bytes)
    }
}

/// Failures of the encoder.
#[derive(Debug, Clone, Copy, PartialEq, Eq, Structural)]
pub enum DumpError {
    /// A variable-length field (comment, extension data, font directory or
    /// file name) does not fit in its length prefix. Nothing was written.
    FieldTooLarge,
}

/// Failures of the decoder.
#[derive(Debug, Clone, Copy, PartialEq, Eq, Structural)]
pub enum ParseError {
    /// The input ended in the middle of a record. A streaming caller may
    /// retry once more bytes are available.
    NeedMoreData,
    /// The byte at the current position is not a recognized opcode.
    MalformedOpcode,
}

fn bytes_eq(a: &Vec<u8>, b: &Vec<u8>) -> (r: bool)
    ensures
        r == (a@ == b@),
{
    if a.len() != b.len() {
        return false;
    }
    let mut j: usize = 0;
    while j < a.len()
        invariant
            a@.len() == b@.len(),
            j <= a@.len(),
            forall|t: int| 0 <= t < j ==> a@[t] == b@[t],
        decreases a@.len() - j,
    {
        if a[j] != b[j] {
            return false;
        }
        j = j + 1;
    }
    proof {
        assert(a@ =~= b@);
    }
    true
}

fn opt_bytes_eq(a: &Option<Vec<u8>>, b: &Option<Vec<u8>>) -> (r: bool)
    ensures
        r == (match (a, b) {
            (Some(x), Some(y)) => x@ == y@,
            (None, None) => true,
            _ => false,
        }),
{
    match (a, b) {
        (Some(x), Some(y)) => bytes_eq(x, y),
        (None, None) => true,
        _ => false,
    }
}

fn opt_i32_eq(a: &Option<i32>, b: &Option<i32>) -> (r: bool)
    ensures
        r == (a == b),
{
    match (a, b) {
        (Some(x), Some(y)) => *x == *y,
        (None, None) => true,
        _ => false,
    }
}

fn sig_eq(a: &[i32; 10], b: &[i32; 10]) -> (r: bool)
    ensures
        r == (a@ == b@),
{
    let mut j: usize = 0;
    while j < 10
        invariant
            j <= 10,
            forall|t: int| 0 <= t < j ==> a@[t] == b@[t],
        decreases 10 - j,
    {
        if a[j] != b[j] {
            return false;
        }
        j = j + 1;
    }
    proof {
        assert(a@ =~= b@);
    }
    true
}

impl PartialEq for FontDef {
    /// Two font definitions are equal when every field is, byte payloads
    /// compared by content.
    fn eq(&self, other: &Self) -> (r: bool) {
        self.number == other.number && self.checksum == other.checksum && self.scale_factor
            == other.scale_factor && self.design_size == other.design_size && opt_bytes_eq(
            &self.directory,
            &other.directory,
        ) && bytes_eq(&self.filename, &other.filename)
    }
}

impl vstd::std_specs::cmp::PartialEqSpecImpl for FontDef {
    open spec fn obeys_eq_spec() -> bool {
        true
    }

    open spec fn eq_spec(&self, other: &Self) -> bool {
        self@ == other@
    }
}

impl Eq for FontDef {

}

impl PartialEq for Instruction {
    /// Two instructions are equal when they are the same variant with equal
    /// payloads, byte payloads compared by content.
    fn eq(&self, other: &Self) -> (r: bool) {
        match (self, other) {
            (Instruction::SetChar(a), Instruction::SetChar(b)) => a == b,
            (Instruction::SetRule(a1, b1), Instruction::SetRule(a2, b2)) => a1 == a2 && b1 == b2,
            (Instruction::Put(a), Instruction::Put(b)) => a == b,
            (Instruction::PutRule(a1, b1), Instruction::PutRule(a2, b2)) => a1 == a2 && b1 == b2,
            (Instruction::Nop, Instruction::Nop) => true,
            (Instruction::Bop(c1, p1), Instruction::Bop(c2, p2)) => sig_eq(c1, c2) && p1 == p2,
            (Instruction::Eop, Instruction::Eop) => true,
            (Instruction::Push, Instruction::Push) => true,
            (Instruction::Pop, Instruction::Pop) => true,
            (Instruction::Right(a), Instruction::Right(b)) => a == b,
            (Instruction::W(a), Instruction::W(b)) => opt_i32_eq(a, b),
            (Instruction::X(a), Instruction::X(b)) => opt_i32_eq(a, b),
            (Instruction::Down(a), Instruction::Down(b)) => a == b,
            (Instruction::Y(a), Instruction::Y(b)) => opt_i32_eq(a, b),
            (Instruction::Z(a), Instruction::Z(b)) => opt_i32_eq(a, b),
            (Instruction::Font(a), Instruction::Font(b)) => a == b,
            (Instruction::Xxx(a), Instruction::Xxx(b)) => bytes_eq(a, b),
            (Instruction::FontDef(a), Instruction::FontDef(b)) => a == b,
            (
                Instruction::Pre {
                    format: f1,
                    numerator: n1,
                    denominator: d1,
                    magnification: m1,
                    comment: c1,
                },
                Instruction::Pre {
                    format: f2,
                    numerator: n2,
                    denominator: d2,
                    magnification: m2,
                    comment: c2,
                },
            ) => f1 == f2 && n1 == n2 && d1 == d2 && m1 == m2 && bytes_eq(c1, c2),
            (
                Instruction::Post {
                    final_bop_pointer: fb1,
                    numerator: n1,
                    denominator: d1,
                    magnification: m1,
                    tallest_height: t1,
                    widest_width: w1,
                    max_stack_depth: s1,
                    total_no_pages: p1,
                },
                Instruction::Post {
                    final_bop_pointer: fb2,
                    numerator: n2,
                    denominator: d2,
                    magnification: m2,
                    tallest_height: t2,
                    widest_width: w2,
                    max_stack_depth: s2,
                    total_no_pages: p2,
                },
            ) => fb1 == fb2 && n1 == n2 && d1 == d2 && m1 == m2 && t1 == t2 && w1 == w2 && s1 == s2
                && p1 == p2,
            (
                Instruction::PostPost { post_pointer: q1, ident: i1, two_two_three: t1 },
                Instruction::PostPost { post_pointer: q2, ident: i2, two_two_three: t2 },
            ) => q1 == q2 && i1 == i2 && t1 == t2,
            _ => false,
        }
    }
}

impl vstd::std_specs::cmp::PartialEqSpecImpl for Instruction {
    open spec fn obeys_eq_spec() -> bool {
        true
    }

    open spec fn eq_spec(&self, other: &Self) -> bool {
        self@ == other@
    }
}

impl Eq for Instruction {

}

} // verus!
