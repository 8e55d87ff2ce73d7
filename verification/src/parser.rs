//! The decoder: the wire-format grammar as a mathematical function on byte
//! sequences, and the executable parser proved against it.
//!
//! Decoding one record either succeeds with the instruction and the number
//! of bytes consumed, reports `NeedMoreData` when the input ends inside the
//! record (a streaming caller may retry with more bytes), or reports
//! `MalformedOpcode` when the first byte is not a recognized opcode.

use crate::dumper::{enc_signed, enc_unsigned, encodable, encoding};
use crate::util::{
    lemma_sentinel_run_nonneg, sentinel_run, signed_width, unsigned_width, SENTINEL,
};
use crate::wire::{
    be_bytes, be_sint, be_uint, lemma_be_bytes_len, lemma_be_sint_of_bytes, lemma_be_uint_bound,
    lemma_be_uint_of_bytes, lemma_p256_values, read_be, read_sbe, signed_repr,
};
use crate::{FontDef, FontDefValue, Instruction, InstructionValue, ParseError};
use vstd::prelude::*;
use vstd::slice::{slice_subrange, slice_to_vec};

verus! {

/// The unsigned 4-byte big-endian field of `s` at `pos`.
pub open spec fn field_u32(s: Seq<u8>, pos: int) -> u32 {
    be_uint(s.subrange(pos, pos + 4)) as u32
}

/// The unsigned 2-byte big-endian field of `s` at `pos`.
pub open spec fn field_u16(s: Seq<u8>, pos: int) -> u16 {
    be_uint(s.subrange(pos, pos + 2)) as u16
}

/// The signed 4-byte big-endian field of `s` at `pos`.
pub open spec fn field_i32(s: Seq<u8>, pos: int) -> i32 {
    be_sint(s.subrange(pos, pos + 4)) as i32
}

/// One record of an unsigned-width family: the opcode, then an `n`-byte
/// unsigned operand handed to the variant constructor `f`.
pub open spec fn dec_unsigned(s: Seq<u8>, n: nat, f: spec_fn(u32) -> InstructionValue) -> Result<
    (InstructionValue, int),
    ParseError,
> {
    let n = n as int;
    if s.len() < 1 + n {
        Err(ParseError::NeedMoreData)
    } else {
        Ok((f(be_uint(s.subrange(1, 1 + n)) as u32), 1 + n))
    }
}

/// One record of a signed-width family: the opcode, then an `n`-byte two's
/// complement operand handed to the variant constructor `f`.
pub open spec fn dec_signed(s: Seq<u8>, n: nat, f: spec_fn(i32) -> InstructionValue) -> Result<
    (InstructionValue, int),
    ParseError,
> {
    let n = n as int;
    if s.len() < 1 + n {
        Err(ParseError::NeedMoreData)
    } else {
        Ok((f(be_sint(s.subrange(1, 1 + n)) as i32), 1 + n))
    }
}

/// A rectangle record: the opcode, then two fixed 4-byte signed fields.
pub open spec fn dec_rule(s: Seq<u8>, f: spec_fn(i32, i32) -> InstructionValue) -> Result<
    (InstructionValue, int),
    ParseError,
> {
    if s.len() < 9 {
        Err(ParseError::NeedMoreData)
    } else {
        Ok((f(field_i32(s, 1), field_i32(s, 5)), 9))
    }
}

/// A page-start record: the opcode, ten 4-byte signed signature fields and
/// a 4-byte signed back-pointer.
pub open spec fn dec_bop(s: Seq<u8>) -> Result<(InstructionValue, int), ParseError> {
    if s.len() < 45 {
        Err(ParseError::NeedMoreData)
    } else {
        Ok(
            (
                InstructionValue::Bop(
                    Seq::new(10, |j: int| field_i32(s, 1 + 4 * j)),
                    field_i32(s, 41),
                ),
                45,
            ),
        )
    }
}

/// An extension record: the opcode, an `n`-byte length, then that many raw
/// bytes.
pub open spec fn dec_xxx(s: Seq<u8>, n: nat) -> Result<(InstructionValue, int), ParseError> {
    let n = n as int;
    if s.len() < 1 + n {
        Err(ParseError::NeedMoreData)
    } else {
        let k = be_uint(s.subrange(1, 1 + n));
        if s.len() < 1 + n + k {
            Err(ParseError::NeedMoreData)
        } else {
            Ok((InstructionValue::Xxx(s.subrange(1 + n, 1 + n + k)), 1 + n + k))
        }
    }
}

/// A font-definition record: the opcode, an `n`-byte font number, three
/// 4-byte fields, the directory and file name lengths, then the directory
/// and file name bytes. A zero directory length means the default
/// directory.
pub open spec fn dec_font_def(s: Seq<u8>, n: nat) -> Result<(InstructionValue, int), ParseError> {
    let n = n as int;
    if s.len() < 15 + n {
        Err(ParseError::NeedMoreData)
    } else {
        let a = s[13 + n] as int;
        let l = s[14 + n] as int;
        if s.len() < 15 + n + a + l {
            Err(ParseError::NeedMoreData)
        } else {
            Ok(
                (
                    InstructionValue::FontDef(
                        FontDefValue {
                            number: be_uint(s.subrange(1, 1 + n)) as u32,
                            checksum: field_u32(s, 1 + n),
                            scale_factor: field_u32(s, 5 + n),
                            design_size: field_u32(s, 9 + n),
                            directory: if a == 0 {
                                None
                            } else {
                                Some(s.subrange(15 + n, 15 + n + a))
                            },
                            filename: s.subrange(15 + n + a, 15 + n + a + l),
                        },
                    ),
                    15 + n + a + l,
                ),
            )
        }
    }
}

/// A preamble record: the opcode, a format byte, three 4-byte fields, a
/// comment length, then the comment bytes.
pub open spec fn dec_pre(s: Seq<u8>) -> Result<(InstructionValue, int), ParseError> {
    if s.len() < 15 {
        Err(ParseError::NeedMoreData)
    } else {
        let k = s[14] as int;
        if s.len() < 15 + k {
            Err(ParseError::NeedMoreData)
        } else {
            Ok(
                (
                    InstructionValue::Pre {
                        format: s[1],
                        numerator: field_u32(s, 2),
                        denominator: field_u32(s, 6),
                        magnification: field_u32(s, 10),
                        comment: s.subrange(15, 15 + k),
                    },
                    15 + k,
                ),
            )
        }
    }
}

/// A postamble-start record: the opcode and eight fixed fields.
pub open spec fn dec_post(s: Seq<u8>) -> Result<(InstructionValue, int), ParseError> {
    if s.len() < 29 {
        Err(ParseError::NeedMoreData)
    } else {
        Ok(
            (
                InstructionValue::Post {
                    final_bop_pointer: field_i32(s, 1),
                    numerator: field_u32(s, 5),
                    denominator: field_u32(s, 9),
                    magnification: field_u32(s, 13),
                    tallest_height: field_i32(s, 17),
                    widest_width: field_i32(s, 21),
                    max_stack_depth: field_u16(s, 25),
                    total_no_pages: field_u16(s, 27),
                },
                29,
            ),
        )
    }
}

/// A postamble-end record: the opcode, a 4-byte pointer, an identification
/// byte, then the run of sentinel bytes actually present. Running out of
/// input inside the run is a normal stop, never a failure: the count
/// reports exactly the sentinel bytes observed (saturating at the largest
/// value its field can carry).
pub open spec fn dec_post_post(s: Seq<u8>) -> Result<(InstructionValue, int), ParseError> {
    if s.len() < 6 {
        Err(ParseError::NeedMoreData)
    } else {
        let run = sentinel_run(s, 6);
        let count = if run <= u32::MAX {
            run
        } else {
            u32::MAX as int
        };
        Ok(
            (
                InstructionValue::PostPost {
                    post_pointer: field_u32(s, 1),
                    ident: s[5],
                    two_two_three: count as u32,
                },
                6 + count,
            ),
        )
    }
}

/// The instruction that a byte sequence begins with, and how many bytes of
/// it the record occupies; or the failure that reading it runs into.
pub open spec fn decoded(s: Seq<u8>) -> Result<(InstructionValue, int), ParseError> {
    if s.len() == 0 {
        Err(ParseError::NeedMoreData)
    } else {
        let op = s[0] as int;
        if op <= 127 {
            Ok((InstructionValue::SetChar(s[0] as u32), 1))
        } else if op <= 131 {
            dec_unsigned(s, (op - 127) as nat, |v: u32| InstructionValue::SetChar(v))
        } else if op == 132 {
            dec_rule(s, |a: i32, b: i32| InstructionValue::SetRule(a, b))
        } else if op <= 136 {
            dec_unsigned(s, (op - 132) as nat, |v: u32| InstructionValue::Put(v))
        } else if op == 137 {
            dec_rule(s, |a: i32, b: i32| InstructionValue::PutRule(a, b))
        } else if op == 138 {
            Ok((InstructionValue::Nop, 1))
        } else if op == 139 {
            dec_bop(s)
        } else if op == 140 {
            Ok((InstructionValue::Eop, 1))
        } else if op == 141 {
            Ok((InstructionValue::Push, 1))
        } else if op == 142 {
            Ok((InstructionValue::Pop, 1))
        } else if op <= 146 {
            dec_signed(s, (op - 142) as nat, |v: i32| InstructionValue::Right(v))
        } else if op == 147 {
            Ok((InstructionValue::W(None), 1))
        } else if op <= 151 {
            dec_signed(s, (op - 147) as nat, |v: i32| InstructionValue::W(Some(v)))
        } else if op == 152 {
            Ok((InstructionValue::X(None), 1))
        } else if op <= 156 {
            dec_signed(s, (op - 152) as nat, |v: i32| InstructionValue::X(Some(v)))
        } else if op <= 160 {
            dec_signed(s, (op - 156) as nat, |v: i32| InstructionValue::Down(v))
        } else if op == 161 {
            Ok((InstructionValue::Y(None), 1))
        } else if op <= 165 {
            dec_signed(s, (op - 161) as nat, |v: i32| InstructionValue::Y(Some(v)))
        } else if op == 166 {
            Ok((InstructionValue::Z(None), 1))
        } else if op <= 170 {
            dec_signed(s, (op - 166) as nat, |v: i32| InstructionValue::Z(Some(v)))
        } else if op <= 234 {
            Ok((InstructionValue::Font((op - 171) as u32), 1))
        } else if op <= 238 {
            dec_unsigned(s, (op - 234) as nat, |v: u32| InstructionValue::Font(v))
        } else if op <= 242 {
            dec_xxx(s, (op - 238) as nat)
        } else if op <= 246 {
            dec_font_def(s, (op - 242) as nat)
        } else if op == 247 {
            dec_pre(s)
        } else if op == 248 {
            dec_post(s)
        } else if op == 249 {
            dec_post_post(s)
        } else {
            Err(ParseError::MalformedOpcode)
        }
    }
}

/// Read the single byte at `pos`, reporting `NeedMoreData` at the end of
/// input.
fn read_u8(i: &[u8], pos: usize) -> (r: Result<(u8, usize), ParseError>)
    requires
        pos <= i@.len(),
    ensures
        pos + 1 <= i@.len() ==> r == Ok::<(u8, usize), ParseError>(
            (i@[pos as int], (pos + 1) as usize),
        ),
        pos + 1 > i@.len() ==> r == Err::<(u8, usize), ParseError>(ParseError::NeedMoreData),
{
    if pos < i.len() {
        Ok((i[pos], pos + 1))
    } else {
        Err(ParseError::NeedMoreData)
    }
}

/// Copy the `k` bytes at `pos` out of the input, reporting `NeedMoreData`
/// if fewer are present.
fn take_vec(i: &[u8], pos: usize, k: usize) -> (r: Result<(Vec<u8>, usize), ParseError>)
    requires
        pos <= i@.len(),
    ensures
        pos + k <= i@.len() ==> (r matches Ok(p) && p.0@ == i@.subrange(pos as int, pos + k) && p.1
            == pos + k),
        pos + k > i@.len() ==> r == Err::<(Vec<u8>, usize), ParseError>(ParseError::NeedMoreData),
{
    if k > i.len() - pos {
        return Err(ParseError::NeedMoreData);
    }
    let part = slice_subrange(i, pos, pos + k);
    Ok((slice_to_vec(part), pos + k))
}

/// Parse one instruction from the start of `bytes`. On success the second
/// component is the number of bytes the record occupied; `bytes` itself is
/// untouched, so a failed attempt can be retried.
pub fn parse(bytes: &[u8]) -> (r: Result<(Instruction, usize), ParseError>)
    ensures
        (match r {
            Ok(p) => decoded(bytes@) == Ok::<(InstructionValue, int), ParseError>(
                (p.0@, p.1 as int),
            ),
            Err(e) => decoded(bytes@) == Err::<(InstructionValue, int), ParseError>(e),
        }),
{
    if bytes.len() == 0 {
        return Err(ParseError::NeedMoreData);
    }
    let op = bytes[0];
    if op <= 127 {
        Ok((Instruction::SetChar(op as u32), 1))
    } else if 171 <= op && op <= 234 {
        Ok((Instruction::Font((op - 171) as u32), 1))
    } else {
        parse_complex(bytes)
    }
}

/// Parse a record that is more than a bare dense-range opcode.
#[verifier::rlimit(60)]
fn parse_complex(input: &[u8]) -> (r: Result<(Instruction, usize), ParseError>)
    requires
        input@.len() > 0,
        128 <= input@[0],
        !(171 <= input@[0] && input@[0] <= 234),
    ensures
        (match r {
            Ok(p) => decoded(input@) == Ok::<(InstructionValue, int), ParseError>(
                (p.0@, p.1 as int),
            ),
            Err(e) => decoded(input@) == Err::<(InstructionValue, int), ParseError>(e),
        }),
{
    let code = input[0];
    match code {
        128..=131 => {
            match read_be(input, 1, (code - 127) as usize) {
                Ok((v, at)) => Ok((Instruction::SetChar(v), at)),
                Err(e) => Err(e),
            }
        },
        132 => {
            match parse_rule(input) {
                Ok((a, b, at)) => Ok((Instruction::SetRule(a, b), at)),
                Err(e) => Err(e),
            }
        },
        133..=136 => {
            match read_be(input, 1, (code - 132) as usize) {
                Ok((v, at)) => Ok((Instruction::Put(v), at)),
                Err(e) => Err(e),
            }
        },
        137 => {
            match parse_rule(input) {
                Ok((a, b, at)) => Ok((Instruction::PutRule(a, b), at)),
                Err(e) => Err(e),
            }
        },
        138 => Ok((Instruction::Nop, 1)),
        139 => parse_bop(input),
        140 => Ok((Instruction::Eop, 1)),
        141 => Ok((Instruction::Push, 1)),
        142 => Ok((Instruction::Pop, 1)),
        143..=146 => {
            match read_sbe(input, 1, (code - 142) as usize) {
                Ok((v, at)) => Ok((Instruction::Right(v), at)),
                Err(e) => Err(e),
            }
        },
        147 => Ok((Instruction::W(None), 1)),
        148..=151 => {
            match read_sbe(input, 1, (code - 147) as usize) {
                Ok((v, at)) => Ok((Instruction::W(Some(v)), at)),
                Err(e) => Err(e),
            }
        },
        152 => Ok((Instruction::X(None), 1)),
        153..=156 => {
            match read_sbe(input, 1, (code - 152) as usize) {
                Ok((v, at)) => Ok((Instruction::X(Some(v)), at)),
                Err(e) => Err(e),
            }
        },
        157..=160 => {
            match read_sbe(input, 1, (code - 156) as usize) {
                Ok((v, at)) => Ok((Instruction::Down(v), at)),
                Err(e) => Err(e),
            }
        },
        161 => Ok((Instruction::Y(None), 1)),
        162..=165 => {
            match read_sbe(input, 1, (code - 161) as usize) {
                Ok((v, at)) => Ok((Instruction::Y(Some(v)), at)),
                Err(e) => Err(e),
            }
        },
        166 => Ok((Instruction::Z(None), 1)),
        167..=170 => {
            match read_sbe(input, 1, (code - 166) as usize) {
                Ok((v, at)) => Ok((Instruction::Z(Some(v)), at)),
                Err(e) => Err(e),
            }
        },
        235..=238 => {
            match read_be(input, 1, (code - 234) as usize) {
                Ok((v, at)) => Ok((Instruction::Font(v), at)),
                Err(e) => Err(e),
            }
        },
        239..=242 => parse_xxx(input, (code - 238) as usize),
        243..=246 => font_def(input, (code - 242) as usize),
        247 => parse_pre(input),
        248 => parse_post(input),
        249 => parse_postpost(input),
        _ => Err(ParseError::MalformedOpcode),
    }
}

/// Read the two fixed 4-byte signed fields of a rectangle record.
fn parse_rule(input: &[u8]) -> (r: Result<(i32, i32, usize), ParseError>)
    requires
        input@.len() > 0,
    ensures
        input@.len() >= 9 ==> r == Ok::<(i32, i32, usize), ParseError>(
            (field_i32(input@, 1), field_i32(input@, 5), 9usize),
        ),
        input@.len() < 9 ==> r == Err::<(i32, i32, usize), ParseError>(ParseError::NeedMoreData),
{
    let (a, at) = match read_sbe(input, 1, 4) {
        Ok(p) => p,
        Err(e) => {
            return Err(e);
        },
    };
    let (b, at) = match read_sbe(input, at, 4) {
        Ok(p) => p,
        Err(e) => {
            return Err(e);
        },
    };
    Ok((a, b, at))
}

fn parse_bop(input: &[u8]) -> (r: Result<(Instruction, usize), ParseError>)
    requires
        input@.len() > 0,
        input@[0] == 139,
    ensures
        (match r {
            Ok(p) => decoded(input@) == Ok::<(InstructionValue, int), ParseError>(
                (p.0@, p.1 as int),
            ),
            Err(e) => decoded(input@) == Err::<(InstructionValue, int), ParseError>(e),
        }),
{
    if input.len() < 45 {
        return Err(ParseError::NeedMoreData);
    }
    let mut c: [i32; 10] = [0; 10];
    let mut j: usize = 0;
    while j < 10
        invariant
            j <= 10,
            input@.len() >= 45,
            forall|t: int| 0 <= t < j ==> c@[t] == field_i32(input@, 1 + 4 * t),
        decreases 10 - j,
    {
        let v = match read_sbe(input, 1 + 4 * j, 4) {
            Ok(p) => p.0,
            Err(e) => {
                return Err(e);
            },
        };
        c[j] = v;
        j = j + 1;
    }
    let p = match read_sbe(input, 41, 4) {
        Ok(q) => q.0,
        Err(e) => {
            return Err(e);
        },
    };
    let inst = Instruction::Bop(c, p);
    proof {
        assert(c@ =~= Seq::new(10, |t: int| field_i32(input@, 1 + 4 * t)));
    }
    Ok((inst, 45))
}

fn parse_xxx(input: &[u8], n: usize) -> (r: Result<(Instruction, usize), ParseError>)
    requires
        input@.len() > 0,
        1 <= n <= 4,
        input@[0] == 238 + n,
    ensures
        (match r {
            Ok(p) => decoded(input@) == Ok::<(InstructionValue, int), ParseError>(
                (p.0@, p.1 as int),
            ),
            Err(e) => decoded(input@) == Err::<(InstructionValue, int), ParseError>(e),
        }),
{
    let (k, at) = match read_be(input, 1, n) {
        Ok(p) => p,
        Err(e) => {
            return Err(e);
        },
    };
    proof {
        lemma_p256_values();
        lemma_be_uint_bound(input@.subrange(1, 1 + n as int));
    }
    let (data, at) = match take_vec(input, at, k as usize) {
        Ok(p) => p,
        Err(e) => {
            return Err(e);
        },
    };
    Ok((Instruction::Xxx(data), at))
}

/// Read the body of a font-definition record whose opcode declared an
/// `n`-byte font number.
fn font_def(input: &[u8], n: usize) -> (r: Result<(Instruction, usize), ParseError>)
    requires
        input@.len() > 0,
        1 <= n <= 4,
        input@[0] == 242 + n,
    ensures
        (match r {
            Ok(p) => decoded(input@) == Ok::<(InstructionValue, int), ParseError>(
                (p.0@, p.1 as int),
            ),
            Err(e) => decoded(input@) == Err::<(InstructionValue, int), ParseError>(e),
        }),
{
    let (number, at) = match read_be(input, 1, n) {
        Ok(p) => p,
        Err(e) => {
            return Err(e);
        },
    };
    let (checksum, at) = match read_be(input, at, 4) {
        Ok(p) => p,
        Err(e) => {
            return Err(e);
        },
    };
    let (scale_factor, at) = match read_be(input, at, 4) {
        Ok(p) => p,
        Err(e) => {
            return Err(e);
        },
    };
    let (design_size, at) = match read_be(input, at, 4) {
        Ok(p) => p,
        Err(e) => {
            return Err(e);
        },
    };
    let (directory_len, at) = match read_u8(input, at) {
        Ok(p) => p,
        Err(e) => {
            return Err(e);
        },
    };
    let (filename_len, at) = match read_u8(input, at) {
        Ok(p) => p,
        Err(e) => {
            return Err(e);
        },
    };
    let (directory, at) = match take_vec(input, at, directory_len as usize) {
        Ok(p) => p,
        Err(e) => {
            return Err(e);
        },
    };
    let (filename, at) = match take_vec(input, at, filename_len as usize) {
        Ok(p) => p,
        Err(e) => {
            return Err(e);
        },
    };
    let directory = if directory_len == 0 {
        None
    } else {
        Some(directory)
    };
    let inst = Instruction::FontDef(
        FontDef { number, checksum, scale_factor, design_size, directory, filename },
    );
    Ok((inst, at))
}

fn parse_pre(input: &[u8]) -> (r: Result<(Instruction, usize), ParseError>)
    requires
        input@.len() > 0,
        input@[0] == 247,
    ensures
        (match r {
            Ok(p) => decoded(input@) == Ok::<(InstructionValue, int), ParseError>(
                (p.0@, p.1 as int),
            ),
            Err(e) => decoded(input@) == Err::<(InstructionValue, int), ParseError>(e),
        }),
{
    let (format, at) = match read_u8(input, 1) {
        Ok(p) => p,
        Err(e) => {
            return Err(e);
        },
    };
    let (numerator, at) = match read_be(input, at, 4) {
        Ok(p) => p,
        Err(e) => {
            return Err(e);
        },
    };
    let (denominator, at) = match read_be(input, at, 4) {
        Ok(p) => p,
        Err(e) => {
            return Err(e);
        },
    };
    let (magnification, at) = match read_be(input, at, 4) {
        Ok(p) => p,
        Err(e) => {
            return Err(e);
        },
    };
    let (comment_len, at) = match read_u8(input, at) {
        Ok(p) => p,
        Err(e) => {
            return Err(e);
        },
    };
    let (comment, at) = match take_vec(input, at, comment_len as usize) {
        Ok(p) => p,
        Err(e) => {
            return Err(e);
        },
    };
    let inst = Instruction::Pre { format, numerator, denominator, magnification, comment };
    Ok((inst, at))
}

fn parse_post(input: &[u8]) -> (r: Result<(Instruction, usize), ParseError>)
    requires
        input@.len() > 0,
        input@[0] == 248,
    ensures
        (match r {
            Ok(p) => decoded(input@) == Ok::<(InstructionValue, int), ParseError>(
                (p.0@, p.1 as int),
            ),
            Err(e) => decoded(input@) == Err::<(InstructionValue, int), ParseError>(e),
        }),
{
    let (final_bop_pointer, at) = match read_sbe(input, 1, 4) {
        Ok(p) => p,
        Err(e) => {
            return Err(e);
        },
    };
    let (numerator, at) = match read_be(input, at, 4) {
        Ok(p) => p,
        Err(e) => {
            return Err(e);
        },
    };
    let (denominator, at) = match read_be(input, at, 4) {
        Ok(p) => p,
        Err(e) => {
            return Err(e);
        },
    };
    let (magnification, at) = match read_be(input, at, 4) {
        Ok(p) => p,
        Err(e) => {
            return Err(e);
        },
    };
    let (tallest_height, at) = match read_sbe(input, at, 4) {
        Ok(p) => p,
        Err(e) => {
            return Err(e);
        },
    };
    let (widest_width, at) = match read_sbe(input, at, 4) {
        Ok(p) => p,
        Err(e) => {
            return Err(e);
        },
    };
    let (max_stack_depth, at) = match read_be(input, at, 2) {
        Ok(p) => p,
        Err(e) => {
            return Err(e);
        },
    };
    let (total_no_pages, at) = match read_be(input, at, 2) {
        Ok(p) => p,
        Err(e) => {
            return Err(e);
        },
    };
    proof {
        lemma_p256_values();
        lemma_be_uint_bound(input@.subrange(25, 27));
        lemma_be_uint_bound(input@.subrange(27, 29));
    }
    let inst = Instruction::Post {
        final_bop_pointer,
        numerator,
        denominator,
        magnification,
        tallest_height,
        widest_width,
        max_stack_depth: max_stack_depth as u16,
        total_no_pages: total_no_pages as u16,
    };
    Ok((inst, at))
}

fn parse_postpost(input: &[u8]) -> (r: Result<(Instruction, usize), ParseError>)
    requires
        input@.len() > 0,
        input@[0] == 249,
    ensures
        (match r {
            Ok(p) => decoded(input@) == Ok::<(InstructionValue, int), ParseError>(
                (p.0@, p.1 as int),
            ),
            Err(e) => decoded(input@) == Err::<(InstructionValue, int), ParseError>(e),
        }),
{
    let (post_pointer, at) = match read_be(input, 1, 4) {
        Ok(p) => p,
        Err(e) => {
            return Err(e);
        },
    };
    let (ident, at) = match read_u8(input, at) {
        Ok(p) => p,
        Err(e) => {
            return Err(e);
        },
    };
    let (two_two_three, at) = crate::util::parse_223(input, at);
    let inst = Instruction::PostPost { post_pointer, ident, two_two_three };
    Ok((inst, at))
}

proof fn lemma_sentinel_run_all(s: Seq<u8>, pos: int)
    requires
        0 <= pos <= s.len(),
        forall|j: int| pos <= j < s.len() ==> s[j] == SENTINEL,
    ensures
        sentinel_run(s, pos) == s.len() - pos,
    decreases s.len() - pos,
{
    if pos < s.len() {
        lemma_sentinel_run_all(s, pos + 1);
    }
}

/// Sentinel-run leniency: once the six fixed bytes of a postamble-end
/// record are present, decoding succeeds whatever the input was cut to;
/// the reported count is exactly the run of sentinel bytes observed before
/// the first other byte or the end of input (saturating at the largest
/// value its field carries), never a failure.
pub proof fn lemma_sentinel_leniency(s: Seq<u8>)
    requires
        s.len() >= 6,
        s[0] == 249,
    ensures
        ({
            let run = sentinel_run(s, 6);
            let count = if run <= u32::MAX {
                run
            } else {
                u32::MAX as int
            };
            decoded(s) == Ok::<(InstructionValue, int), ParseError>(
                (
                    InstructionValue::PostPost {
                        post_pointer: field_u32(s, 1),
                        ident: s[5],
                        two_two_three: count as u32,
                    },
                    6 + count,
                ),
            )
        }),
{
    lemma_sentinel_run_nonneg(s, 6);
}

proof fn lemma_unsigned_payload(code1: u8, u: u32)
    requires
        code1 <= 252,
    ensures
        ({
            let w = unsigned_width(u) as int;
            let s = enc_unsigned(code1, u);
            &&& s.len() == 1 + w
            &&& s[0] == code1 + w - 1
            &&& be_uint(s.subrange(1, 1 + w)) == u
        }),
{
    let w = unsigned_width(u) as nat;
    lemma_p256_values();
    lemma_be_bytes_len(u as int, w);
    let s = enc_unsigned(code1, u);
    assert(s.subrange(1, 1 + w as int) =~= be_bytes(u as int, w));
    lemma_be_uint_of_bytes(u as int, w);
}

proof fn lemma_signed_payload(code1: u8, b: i32)
    requires
        code1 <= 252,
    ensures
        ({
            let w = signed_width(b) as int;
            let s = enc_signed(code1, b);
            &&& s.len() == 1 + w
            &&& s[0] == code1 + w - 1
            &&& be_sint(s.subrange(1, 1 + w)) == b
        }),
{
    let w = signed_width(b) as nat;
    lemma_p256_values();
    lemma_be_bytes_len(signed_repr(b, w), w);
    let s = enc_signed(code1, b);
    assert(s.subrange(1, 1 + w as int) =~= be_bytes(signed_repr(b, w), w));
    lemma_be_sint_of_bytes(b, w);
}

proof fn lemma_rt_rule(a: i32, b: i32, v: InstructionValue)
    requires
        v == InstructionValue::SetRule(a, b) || v == InstructionValue::PutRule(a, b),
    ensures
        ({
            let s = encoding(v);
            &&& s.len() == 9
            &&& s[0] == (if v == InstructionValue::SetRule(a, b) {
                132int
            } else {
                137int
            })
            &&& field_i32(s, 1) == a
            &&& field_i32(s, 5) == b
        }),
{
    let s = encoding(v);
    lemma_p256_values();
    lemma_be_bytes_len(signed_repr(a, 4), 4);
    lemma_be_bytes_len(signed_repr(b, 4), 4);
    assert(s.subrange(1, 5) =~= be_bytes(signed_repr(a, 4), 4));
    assert(s.subrange(5, 9) =~= be_bytes(signed_repr(b, 4), 4));
    lemma_be_sint_of_bytes(a, 4);
    lemma_be_sint_of_bytes(b, 4);
}

proof fn lemma_rt_bop(c: Seq<i32>, p: i32)
    requires
        c.len() == 10,
    ensures
        ({
            let v = InstructionValue::Bop(c, p);
            decoded(encoding(v)) == Ok::<(InstructionValue, int), ParseError>(
                (v, encoding(v).len() as int),
            )
        }),
{
    let v = InstructionValue::Bop(c, p);
    let s = encoding(v);
    lemma_p256_values();
    lemma_be_bytes_len(signed_repr(p, 4), 4);
    lemma_be_bytes_len(signed_repr(c[0], 4), 4);
    lemma_be_bytes_len(signed_repr(c[1], 4), 4);
    lemma_be_bytes_len(signed_repr(c[2], 4), 4);
    lemma_be_bytes_len(signed_repr(c[3], 4), 4);
    lemma_be_bytes_len(signed_repr(c[4], 4), 4);
    lemma_be_bytes_len(signed_repr(c[5], 4), 4);
    lemma_be_bytes_len(signed_repr(c[6], 4), 4);
    lemma_be_bytes_len(signed_repr(c[7], 4), 4);
    lemma_be_bytes_len(signed_repr(c[8], 4), 4);
    lemma_be_bytes_len(signed_repr(c[9], 4), 4);
    assert(s.subrange(1, 5) =~= be_bytes(signed_repr(c[0], 4), 4));
    assert(s.subrange(5, 9) =~= be_bytes(signed_repr(c[1], 4), 4));
    assert(s.subrange(9, 13) =~= be_bytes(signed_repr(c[2], 4), 4));
    assert(s.subrange(13, 17) =~= be_bytes(signed_repr(c[3], 4), 4));
    assert(s.subrange(17, 21) =~= be_bytes(signed_repr(c[4], 4), 4));
    assert(s.subrange(21, 25) =~= be_bytes(signed_repr(c[5], 4), 4));
    assert(s.subrange(25, 29) =~= be_bytes(signed_repr(c[6], 4), 4));
    assert(s.subrange(29, 33) =~= be_bytes(signed_repr(c[7], 4), 4));
    assert(s.subrange(33, 37) =~= be_bytes(signed_repr(c[8], 4), 4));
    assert(s.subrange(37, 41) =~= be_bytes(signed_repr(c[9], 4), 4));
    assert(s.subrange(41, 45) =~= be_bytes(signed_repr(p, 4), 4));
    lemma_be_sint_of_bytes(c[0], 4);
    lemma_be_sint_of_bytes(c[1], 4);
    lemma_be_sint_of_bytes(c[2], 4);
    lemma_be_sint_of_bytes(c[3], 4);
    lemma_be_sint_of_bytes(c[4], 4);
    lemma_be_sint_of_bytes(c[5], 4);
    lemma_be_sint_of_bytes(c[6], 4);
    lemma_be_sint_of_bytes(c[7], 4);
    lemma_be_sint_of_bytes(c[8], 4);
    lemma_be_sint_of_bytes(c[9], 4);
    lemma_be_sint_of_bytes(p, 4);
    assert(Seq::new(10, |t: int| field_i32(s, 1 + 4 * t)) =~= c);
}

proof fn lemma_rt_xxx(d: Seq<u8>)
    requires
        d.len() <= u32::MAX,
    ensures
        ({
            let v = InstructionValue::Xxx(d);
            decoded(encoding(v)) == Ok::<(InstructionValue, int), ParseError>(
                (v, encoding(v).len() as int),
            )
        }),
{
    let v = InstructionValue::Xxx(d);
    let u = d.len() as u32;
    let w = unsigned_width(u) as int;
    let hdr = enc_unsigned(239, u);
    let s = encoding(v);
    lemma_unsigned_payload(239, u);
    assert(s.subrange(1, 1 + w) =~= hdr.subrange(1, 1 + w));
    assert(s.subrange(1 + w, 1 + w + d.len()) =~= d);
}

proof fn lemma_rt_font_def(fd: FontDefValue)
    requires
        fd.filename.len() <= 255,
        (match fd.directory {
            Some(d) => 1 <= d.len() <= 255,
            None => true,
        }),
    ensures
        ({
            let v = InstructionValue::FontDef(fd);
            decoded(encoding(v)) == Ok::<(InstructionValue, int), ParseError>(
                (v, encoding(v).len() as int),
            )
        }),
{
    let v = InstructionValue::FontDef(fd);
    let dir = match fd.directory {
        Some(d) => d,
        None => Seq::<u8>::empty(),
    };
    let a = dir.len() as int;
    let l = fd.filename.len() as int;
    let w = unsigned_width(fd.number) as int;
    let hdr = enc_unsigned(243, fd.number);
    let s = encoding(v);
    lemma_unsigned_payload(243, fd.number);
    lemma_p256_values();
    lemma_be_bytes_len(fd.checksum as int, 4);
    lemma_be_bytes_len(fd.scale_factor as int, 4);
    lemma_be_bytes_len(fd.design_size as int, 4);
    assert(s.len() == 15 + w + a + l);
    assert(s[0] == 242 + w);
    assert(s.subrange(1, 1 + w) =~= hdr.subrange(1, 1 + w));
    assert(s.subrange(1 + w, 5 + w) =~= be_bytes(fd.checksum as int, 4));
    assert(s.subrange(5 + w, 9 + w) =~= be_bytes(fd.scale_factor as int, 4));
    assert(s.subrange(9 + w, 13 + w) =~= be_bytes(fd.design_size as int, 4));
    lemma_be_uint_of_bytes(fd.checksum as int, 4);
    lemma_be_uint_of_bytes(fd.scale_factor as int, 4);
    lemma_be_uint_of_bytes(fd.design_size as int, 4);
    assert(s[13 + w] == a as u8);
    assert(s[14 + w] == l as u8);
    assert(s.subrange(15 + w, 15 + w + a) =~= dir);
    assert(s.subrange(15 + w + a, 15 + w + a + l) =~= fd.filename);
    match decoded(s) {
        Ok(p) => {
            assert(p.0 =~= v);
        },
        Err(_) => {
            assert(false);
        },
    }
}

proof fn lemma_rt_pre(
    format: u8,
    numerator: u32,
    denominator: u32,
    magnification: u32,
    comment: Seq<u8>,
)
    requires
        comment.len() <= 255,
    ensures
        ({
            let v = InstructionValue::Pre {
                format,
                numerator,
                denominator,
                magnification,
                comment,
            };
            decoded(encoding(v)) == Ok::<(InstructionValue, int), ParseError>(
                (v, encoding(v).len() as int),
            )
        }),
{
    let v = InstructionValue::Pre { format, numerator, denominator, magnification, comment };
    let k = comment.len() as int;
    let s = encoding(v);
    lemma_p256_values();
    lemma_be_bytes_len(numerator as int, 4);
    lemma_be_bytes_len(denominator as int, 4);
    lemma_be_bytes_len(magnification as int, 4);
    assert(s.len() == 15 + k);
    assert(s[0] == 247);
    assert(s[1] == format);
    assert(s.subrange(2, 6) =~= be_bytes(numerator as int, 4));
    assert(s.subrange(6, 10) =~= be_bytes(denominator as int, 4));
    assert(s.subrange(10, 14) =~= be_bytes(magnification as int, 4));
    lemma_be_uint_of_bytes(numerator as int, 4);
    lemma_be_uint_of_bytes(denominator as int, 4);
    lemma_be_uint_of_bytes(magnification as int, 4);
    assert(s[14] == k as u8);
    assert(s.subrange(15, 15 + k) =~= comment);
    match decoded(s) {
        Ok(p) => {
            assert(p.0 =~= v);
        },
        Err(_) => {
            assert(false);
        },
    }
}

proof fn lemma_rt_post(
    final_bop_pointer: i32,
    numerator: u32,
    denominator: u32,
    magnification: u32,
    tallest_height: i32,
    widest_width: i32,
    max_stack_depth: u16,
    total_no_pages: u16,
)
    ensures
        ({
            let v = InstructionValue::Post {
                final_bop_pointer,
                numerator,
                denominator,
                magnification,
                tallest_height,
                widest_width,
                max_stack_depth,
                total_no_pages,
            };
            decoded(encoding(v)) == Ok::<(InstructionValue, int), ParseError>(
                (v, encoding(v).len() as int),
            )
        }),
{
    let v = InstructionValue::Post {
        final_bop_pointer,
        numerator,
        denominator,
        magnification,
        tallest_height,
        widest_width,
        max_stack_depth,
        total_no_pages,
    };
    let s = encoding(v);
    lemma_p256_values();
    lemma_be_bytes_len(signed_repr(final_bop_pointer, 4), 4);
    lemma_be_bytes_len(numerator as int, 4);
    lemma_be_bytes_len(denominator as int, 4);
    lemma_be_bytes_len(magnification as int, 4);
    lemma_be_bytes_len(signed_repr(tallest_height, 4), 4);
    lemma_be_bytes_len(signed_repr(widest_width, 4), 4);
    lemma_be_bytes_len(max_stack_depth as int, 2);
    lemma_be_bytes_len(total_no_pages as int, 2);
    assert(s.len() == 29);
    assert(s[0] == 248);
    assert(s.subrange(1, 5) =~= be_bytes(signed_repr(final_bop_pointer, 4), 4));
    assert(s.subrange(5, 9) =~= be_bytes(numerator as int, 4));
    assert(s.subrange(9, 13) =~= be_bytes(denominator as int, 4));
    assert(s.subrange(13, 17) =~= be_bytes(magnification as int, 4));
    assert(s.subrange(17, 21) =~= be_bytes(signed_repr(tallest_height, 4), 4));
    assert(s.subrange(21, 25) =~= be_bytes(signed_repr(widest_width, 4), 4));
    assert(s.subrange(25, 27) =~= be_bytes(max_stack_depth as int, 2));
    assert(s.subrange(27, 29) =~= be_bytes(total_no_pages as int, 2));
    lemma_be_sint_of_bytes(final_bop_pointer, 4);
    lemma_be_uint_of_bytes(numerator as int, 4);
    lemma_be_uint_of_bytes(denominator as int, 4);
    lemma_be_uint_of_bytes(magnification as int, 4);
    lemma_be_sint_of_bytes(tallest_height, 4);
    lemma_be_sint_of_bytes(widest_width, 4);
    lemma_be_uint_of_bytes(max_stack_depth as int, 2);
    lemma_be_uint_of_bytes(total_no_pages as int, 2);
}

proof fn lemma_rt_postpost(post_pointer: u32, ident: u8, two_two_three: u32)
    ensures
        ({
            let v = InstructionValue::PostPost { post_pointer, ident, two_two_three };
            decoded(encoding(v)) == Ok::<(InstructionValue, int), ParseError>(
                (v, encoding(v).len() as int),
            )
        }),
{
    let v = InstructionValue::PostPost { post_pointer, ident, two_two_three };
    let s = encoding(v);
    lemma_p256_values();
    lemma_be_bytes_len(post_pointer as int, 4);
    assert(s.len() == 6 + two_two_three);
    assert(s[0] == 249);
    assert(s.subrange(1, 5) =~= be_bytes(post_pointer as int, 4));
    lemma_be_uint_of_bytes(post_pointer as int, 4);
    assert(s[5] == ident);
    assert forall|j: int| 6 <= j < s.len() implies s[j] == SENTINEL by {
        assert(s[j] == Seq::new(two_two_three as nat, |t: int| SENTINEL)[j - 6]);
    }
    lemma_sentinel_run_all(s, 6);
}

/// Round trip: decoding the encoding of any encodable instruction value
/// recovers exactly that value, and consumes exactly the encoding. The two
/// inputs left out are the ones the wire format cannot distinguish from
/// another value: a page-start record whose signature is not the ten
/// values the format fixes, and a font definition whose directory is
/// present but empty (its zero length byte decodes as "default
/// directory").
pub proof fn lemma_round_trip(v: InstructionValue)
    requires
        encodable(v),
        v matches InstructionValue::Bop(c, p) ==> c.len() == 10,
        v matches InstructionValue::FontDef(fd) ==> fd.directory != Some(Seq::<u8>::empty()),
    ensures
        decoded(encoding(v)) == Ok::<(InstructionValue, int), ParseError>(
            (v, encoding(v).len() as int),
        ),
{
    match v {
        InstructionValue::SetChar(c) => {
            if c >= 128 {
                lemma_unsigned_payload(128, c);
            }
        },
        InstructionValue::SetRule(a, b) => {
            lemma_rt_rule(a, b, v);
        },
        InstructionValue::Put(c) => {
            lemma_unsigned_payload(133, c);
        },
        InstructionValue::PutRule(a, b) => {
            lemma_rt_rule(a, b, v);
        },
        InstructionValue::Nop => {},
        InstructionValue::Bop(c, p) => {
            lemma_rt_bop(c, p);
        },
        InstructionValue::Eop => {},
        InstructionValue::Push => {},
        InstructionValue::Pop => {},
        InstructionValue::Right(b) => {
            lemma_signed_payload(143, b);
        },
        InstructionValue::W(b) => {
            if let Some(b) = b {
                lemma_signed_payload(148, b);
            }
        },
        InstructionValue::X(b) => {
            if let Some(b) = b {
                lemma_signed_payload(153, b);
            }
        },
        InstructionValue::Down(b) => {
            lemma_signed_payload(157, b);
        },
        InstructionValue::Y(b) => {
            if let Some(b) = b {
                lemma_signed_payload(162, b);
            }
        },
        InstructionValue::Z(b) => {
            if let Some(b) = b {
                lemma_signed_payload(167, b);
            }
        },
        InstructionValue::Font(f) => {
            if f > 63 {
                lemma_unsigned_payload(235, f);
            }
        },
        InstructionValue::Xxx(d) => {
            lemma_rt_xxx(d);
        },
        InstructionValue::FontDef(fd) => {
            if let Some(d) = fd.directory {
                if d.len() == 0 {
                    assert(d =~= Seq::<u8>::empty());
                }
            }
            lemma_rt_font_def(fd);
        },
        InstructionValue::Pre { format, numerator, denominator, magnification, comment } => {
            lemma_rt_pre(format, numerator, denominator, magnification, comment);
        },
        InstructionValue::Post {
            final_bop_pointer,
            numerator,
            denominator,
            magnification,
            tallest_height,
            widest_width,
            max_stack_depth,
            total_no_pages,
        } => {
            lemma_rt_post(
                final_bop_pointer,
                numerator,
                denominator,
                magnification,
                tallest_height,
                widest_width,
                max_stack_depth,
                total_no_pages,
            );
        },
        InstructionValue::PostPost { post_pointer, ident, two_two_three } => {
            lemma_rt_postpost(post_pointer, ident, two_two_three);
        },
    }
}

} // verus!
