//! The encoder: the wire-format specification of each instruction and the
//! executable functions that emit it.

use crate::util::{byte_width, byte_width_signed, signed_width, unsigned_width, SENTINEL};
use crate::wire::{
    be_bytes, lemma_be_bytes_len, lemma_p256_values, p256, signed_repr, write_be, write_bytes,
    write_sbe,
};
use crate::{DumpError, FontDef, FontDefValue, Instruction, InstructionValue};
use vstd::prelude::*;

verus! {

/// The 4-byte big-endian encoding of an unsigned field.
pub open spec fn enc_u32(v: u32) -> Seq<u8> {
    be_bytes(v as int, 4)
}

/// The 2-byte big-endian encoding of an unsigned field.
pub open spec fn enc_u16(v: u16) -> Seq<u8> {
    be_bytes(v as int, 2)
}

/// The 4-byte big-endian two's complement encoding of a signed field.
pub open spec fn enc_i32(v: i32) -> Seq<u8> {
    be_bytes(signed_repr(v, 4), 4)
}

/// A record of an unsigned-width family: the opcode for the minimal width
/// of `v` (the family's opcodes start at `code1`, one per width), then `v`
/// at that width.
pub open spec fn enc_unsigned(code1: u8, v: u32) -> Seq<u8> {
    let w = unsigned_width(v);
    seq![(code1 + w - 1) as u8] + be_bytes(v as int, w as nat)
}

/// A record of a signed-width family: the opcode for the minimal width of
/// `v` (the family's opcodes start at `code1`, one per width), then `v` at
/// that width in two's complement.
pub open spec fn enc_signed(code1: u8, v: i32) -> Seq<u8> {
    let w = signed_width(v);
    seq![(code1 + w - 1) as u8] + be_bytes(signed_repr(v, w as nat), w as nat)
}

/// Whether every variable-length field of `v` fits its length prefix: the
/// encoder rejects anything else with [`DumpError::FieldTooLarge`].
pub open spec fn encodable(v: InstructionValue) -> bool {
    match v {
        InstructionValue::Xxx(d) => d.len() <= u32::MAX,
        InstructionValue::FontDef(fd) => fd.filename.len() <= 255 && (match fd.directory {
            Some(d) => d.len() <= 255,
            None => true,
        }),
        InstructionValue::Pre { comment, .. } => comment.len() <= 255,
        _ => true,
    }
}

/// The encoding of a font definition: the font number at its minimal width
/// behind the matching opcode, three fixed 4-byte fields, the directory and
/// file name lengths, then the directory and file name bytes.
pub open spec fn encoding_font_def(fd: FontDefValue) -> Seq<u8> {
    let dir = match fd.directory {
        Some(d) => d,
        None => Seq::<u8>::empty(),
    };
    enc_unsigned(243, fd.number) + enc_u32(fd.checksum) + enc_u32(fd.scale_factor) + enc_u32(
        fd.design_size,
    ) + seq![dir.len() as u8, fd.filename.len() as u8] + dir + fd.filename
}

/// The byte sequence that encodes `v`: the minimal-width representation
/// that the encoder emits (meaningful when `encodable(v)` holds).
pub open spec fn encoding(v: InstructionValue) -> Seq<u8> {
    match v {
        InstructionValue::SetChar(c) => if c < 128 {
            seq![c as u8]
        } else {
            enc_unsigned(128, c)
        },
        InstructionValue::SetRule(a, b) => seq![132u8] + enc_i32(a) + enc_i32(b),
        InstructionValue::Put(c) => enc_unsigned(133, c),
        InstructionValue::PutRule(a, b) => seq![137u8] + enc_i32(a) + enc_i32(b),
        InstructionValue::Nop => seq![138u8],
        InstructionValue::Bop(c, p) => seq![139u8] + enc_i32(c[0]) + enc_i32(c[1]) + enc_i32(c[2])
            + enc_i32(c[3]) + enc_i32(c[4]) + enc_i32(c[5]) + enc_i32(c[6]) + enc_i32(c[7])
            + enc_i32(c[8]) + enc_i32(c[9]) + enc_i32(p),
        InstructionValue::Eop => seq![140u8],
        InstructionValue::Push => seq![141u8],
        InstructionValue::Pop => seq![142u8],
        InstructionValue::Right(b) => enc_signed(143, b),
        InstructionValue::W(b) => match b {
            None => seq![147u8],
            Some(b) => enc_signed(148, b),
        },
        InstructionValue::X(b) => match b {
            None => seq![152u8],
            Some(b) => enc_signed(153, b),
        },
        InstructionValue::Down(a) => enc_signed(157, a),
        InstructionValue::Y(a) => match a {
            None => seq![161u8],
            Some(a) => enc_signed(162, a),
        },
        InstructionValue::Z(a) => match a {
            None => seq![166u8],
            Some(a) => enc_signed(167, a),
        },
        InstructionValue::Font(f) => if f <= 63 {
            seq![(171 + f) as u8]
        } else {
            enc_unsigned(235, f)
        },
        InstructionValue::Xxx(d) => enc_unsigned(239, d.len() as u32) + d,
        InstructionValue::FontDef(fd) => encoding_font_def(fd),
        InstructionValue::Pre { format, numerator, denominator, magnification, comment } => seq![
            247u8,
            format,
        ] + enc_u32(numerator) + enc_u32(denominator) + enc_u32(magnification) + seq![
            comment.len() as u8,
        ] + comment,
        InstructionValue::Post {
            final_bop_pointer,
            numerator,
            denominator,
            magnification,
            tallest_height,
            widest_width,
            max_stack_depth,
            total_no_pages,
        } => seq![248u8] + enc_i32(final_bop_pointer) + enc_u32(numerator) + enc_u32(denominator)
            + enc_u32(magnification) + enc_i32(tallest_height) + enc_i32(widest_width) + enc_u16(
            max_stack_depth,
        ) + enc_u16(total_no_pages),
        InstructionValue::PostPost { post_pointer, ident, two_two_three } => seq![249u8] + enc_u32(
            post_pointer,
        ) + seq![ident] + Seq::new(two_two_three as nat, |j: int| SENTINEL),
    }
}

/// Dense-range fast path: a character value below 128 is encoded as the
/// single byte equal to the value itself, with no separate payload.
pub proof fn lemma_set_char_fast_path(c: u32)
    requires
        c < 128,
    ensures
        encoding(InstructionValue::SetChar(c)) == seq![c as u8],
{
}

/// Width minimality, unsigned: `unsigned_width(v)` bytes hold `v`, and no
/// smaller width does.
pub proof fn lemma_unsigned_width_minimal(v: u32)
    ensures
        1 <= unsigned_width(v) <= 4,
        v < p256(unsigned_width(v) as nat),
        unsigned_width(v) > 1 ==> p256((unsigned_width(v) - 1) as nat) <= v,
{
    lemma_p256_values();
}

/// Width minimality, signed: `signed_width(v)` bytes hold `v` in two's
/// complement, and no smaller width does.
pub proof fn lemma_signed_width_minimal(v: i32)
    ensures
        1 <= signed_width(v) <= 4,
        -(p256(signed_width(v) as nat) / 2) <= v < p256(signed_width(v) as nat) / 2,
        signed_width(v) > 1 ==> !(-(p256((signed_width(v) - 1) as nat) / 2) <= v && v < p256(
            (signed_width(v) - 1) as nat,
        ) / 2),
{
    lemma_p256_values();
}

/// Minimality of the encoder's opcode choice: every family that selects an
/// opcode by operand width emits the opcode of exactly the width class
/// `unsigned_width`/`signed_width` assigns to its operand — never a larger
/// one — followed by the operand at that width.
pub proof fn lemma_minimal_opcode(v: InstructionValue)
    ensures
        v matches InstructionValue::SetChar(c) ==> (c >= 128 ==> encoding(v).len() == 1
            + unsigned_width(c) && encoding(v)[0] == 127 + unsigned_width(c)),
        v matches InstructionValue::Put(c) ==> encoding(v).len() == 1 + unsigned_width(c)
            && encoding(v)[0] == 132 + unsigned_width(c),
        v matches InstructionValue::Right(b) ==> encoding(v).len() == 1 + signed_width(b)
            && encoding(v)[0] == 142 + signed_width(b),
        v matches InstructionValue::W(Some(b)) ==> encoding(v).len() == 1 + signed_width(b)
            && encoding(v)[0] == 147 + signed_width(b),
        v matches InstructionValue::X(Some(b)) ==> encoding(v).len() == 1 + signed_width(b)
            && encoding(v)[0] == 152 + signed_width(b),
        v matches InstructionValue::Down(b) ==> encoding(v).len() == 1 + signed_width(b)
            && encoding(v)[0] == 156 + signed_width(b),
        v matches InstructionValue::Y(Some(b)) ==> encoding(v).len() == 1 + signed_width(b)
            && encoding(v)[0] == 161 + signed_width(b),
        v matches InstructionValue::Z(Some(b)) ==> encoding(v).len() == 1 + signed_width(b)
            && encoding(v)[0] == 166 + signed_width(b),
        v matches InstructionValue::Font(f) ==> (f > 63 ==> encoding(v).len() == 1
            + unsigned_width(f) && encoding(v)[0] == 234 + unsigned_width(f)),
        v matches InstructionValue::Xxx(d) ==> (d.len() <= u32::MAX ==> encoding(v).len() == 1
            + unsigned_width(d.len() as u32) + d.len() && encoding(v)[0] == 238 + unsigned_width(
            d.len() as u32,
        )),
        v matches InstructionValue::FontDef(fd) ==> encoding(v)[0] == 242 + unsigned_width(
            fd.number,
        ),
{
    match v {
        InstructionValue::SetChar(c) => {
            if c >= 128 {
                lemma_be_bytes_len(c as int, unsigned_width(c) as nat);
            }
        },
        InstructionValue::Put(c) => {
            lemma_be_bytes_len(c as int, unsigned_width(c) as nat);
        },
        InstructionValue::Right(b) => {
            lemma_be_bytes_len(signed_repr(b, signed_width(b) as nat), signed_width(b) as nat);
        },
        InstructionValue::W(Some(b)) => {
            lemma_be_bytes_len(signed_repr(b, signed_width(b) as nat), signed_width(b) as nat);
        },
        InstructionValue::X(Some(b)) => {
            lemma_be_bytes_len(signed_repr(b, signed_width(b) as nat), signed_width(b) as nat);
        },
        InstructionValue::Down(b) => {
            lemma_be_bytes_len(signed_repr(b, signed_width(b) as nat), signed_width(b) as nat);
        },
        InstructionValue::Y(Some(b)) => {
            lemma_be_bytes_len(signed_repr(b, signed_width(b) as nat), signed_width(b) as nat);
        },
        InstructionValue::Z(Some(b)) => {
            lemma_be_bytes_len(signed_repr(b, signed_width(b) as nat), signed_width(b) as nat);
        },
        InstructionValue::Font(f) => {
            if f > 63 {
                lemma_be_bytes_len(f as int, unsigned_width(f) as nat);
            }
        },
        InstructionValue::Xxx(d) => {
            lemma_be_bytes_len(d.len() as u32 as int, unsigned_width(d.len() as u32) as nat);
        },
        InstructionValue::FontDef(fd) => {
            lemma_be_bytes_len(fd.number as int, unsigned_width(fd.number) as nat);
        },
        _ => {},
    }
}

/// Emit one record of an unsigned-width family: the opcode for the minimal
/// width of `v`, counted from `code1`, then `v` at that width. Shared by
/// every family that selects an opcode by `unsigned_width`.
fn dump_unsigned(code1: u8, v: u32, writer: &mut Vec<u8>)
    requires
        code1 <= 252,
    ensures
        final(writer)@ == old(writer)@ + enc_unsigned(code1, v),
{
    let w = byte_width(v);
    writer.push(code1 + (w - 1));
    write_be(writer, v, w as usize);
    assert(writer@ =~= old(writer)@ + enc_unsigned(code1, v));
}

/// Emit one record of a signed-width family: the opcode for the minimal
/// width of `v`, counted from `code1`, then `v` at that width in two's
/// complement. Shared by every family that selects an opcode by
/// `signed_width`.
fn dump_signed(code1: u8, v: i32, writer: &mut Vec<u8>)
    requires
        code1 <= 252,
    ensures
        final(writer)@ == old(writer)@ + enc_signed(code1, v),
{
    proof {
        lemma_p256_values();
    }
    let w = byte_width_signed(v);
    writer.push(code1 + (w - 1));
    write_sbe(writer, v, w as usize);
    assert(writer@ =~= old(writer)@ + enc_signed(code1, v));
}

fn dump_set(ch: u32, writer: &mut Vec<u8>)
    ensures
        final(writer)@ == old(writer)@ + encoding(InstructionValue::SetChar(ch)),
{
    if ch < 128 {
        writer.push(ch as u8);
        assert(writer@ =~= old(writer)@ + encoding(InstructionValue::SetChar(ch)));
    } else {
        dump_unsigned(128, ch, writer);
    }
}

fn dump_set_rule(a: i32, b: i32, writer: &mut Vec<u8>)
    ensures
        final(writer)@ == old(writer)@ + encoding(InstructionValue::SetRule(a, b)),
{
    proof {
        lemma_p256_values();
    }
    writer.push(132);
    write_sbe(writer, a, 4);
    write_sbe(writer, b, 4);
    assert(writer@ =~= old(writer)@ + encoding(InstructionValue::SetRule(a, b)));
}

pub fn dump_put(v: u32, writer: &mut Vec<u8>)
    ensures
        final(writer)@ == old(writer)@ + encoding(InstructionValue::Put(v)),
{
    dump_unsigned(133, v, writer);
}

fn dump_put_rule(a: i32, b: i32, writer: &mut Vec<u8>)
    ensures
        final(writer)@ == old(writer)@ + encoding(InstructionValue::PutRule(a, b)),
{
    proof {
        lemma_p256_values();
    }
    writer.push(137);
    write_sbe(writer, a, 4);
    write_sbe(writer, b, 4);
    assert(writer@ =~= old(writer)@ + encoding(InstructionValue::PutRule(a, b)));
}

fn dump_bop(c: [i32; 10], p: i32, writer: &mut Vec<u8>)
    ensures
        final(writer)@ == old(writer)@ + encoding(InstructionValue::Bop(c@, p)),
{
    proof {
        lemma_p256_values();
    }
    writer.push(139);
    write_sbe(writer, c[0], 4);
    write_sbe(writer, c[1], 4);
    write_sbe(writer, c[2], 4);
    write_sbe(writer, c[3], 4);
    write_sbe(writer, c[4], 4);
    write_sbe(writer, c[5], 4);
    write_sbe(writer, c[6], 4);
    write_sbe(writer, c[7], 4);
    write_sbe(writer, c[8], 4);
    write_sbe(writer, c[9], 4);
    write_sbe(writer, p, 4);
    assert(writer@ =~= old(writer)@ + encoding(InstructionValue::Bop(c@, p)));
}

pub fn dump_right(v: i32, writer: &mut Vec<u8>)
    ensures
        final(writer)@ == old(writer)@ + encoding(InstructionValue::Right(v)),
{
    dump_signed(143, v, writer);
}

pub fn dump_w(v: Option<i32>, writer: &mut Vec<u8>)
    ensures
        final(writer)@ == old(writer)@ + encoding(InstructionValue::W(v)),
{
    match v {
        Some(v) => dump_signed(148, v, writer),
        None => {
            writer.push(147);
            assert(writer@ =~= old(writer)@ + encoding(InstructionValue::W(None)));
        },
    }
}

pub fn dump_x(v: Option<i32>, writer: &mut Vec<u8>)
    ensures
        final(writer)@ == old(writer)@ + encoding(InstructionValue::X(v)),
{
    match v {
        Some(v) => dump_signed(153, v, writer),
        None => {
            writer.push(152);
            assert(writer@ =~= old(writer)@ + encoding(InstructionValue::X(None)));
        },
    }
}

pub fn dump_down(v: i32, writer: &mut Vec<u8>)
    ensures
        final(writer)@ == old(writer)@ + encoding(InstructionValue::Down(v)),
{
    dump_signed(157, v, writer);
}

pub fn dump_y(v: Option<i32>, writer: &mut Vec<u8>)
    ensures
        final(writer)@ == old(writer)@ + encoding(InstructionValue::Y(v)),
{
    match v {
        Some(v) => dump_signed(162, v, writer),
        None => {
            writer.push(161);
            assert(writer@ =~= old(writer)@ + encoding(InstructionValue::Y(None)));
        },
    }
}

pub fn dump_z(v: Option<i32>, writer: &mut Vec<u8>)
    ensures
        final(writer)@ == old(writer)@ + encoding(InstructionValue::Z(v)),
{
    match v {
        Some(v) => dump_signed(167, v, writer),
        None => {
            writer.push(166);
            assert(writer@ =~= old(writer)@ + encoding(InstructionValue::Z(None)));
        },
    }
}

fn dump_font(f: u32, writer: &mut Vec<u8>)
    ensures
        final(writer)@ == old(writer)@ + encoding(InstructionValue::Font(f)),
{
    if f <= 63 {
        writer.push(171 + (f as u8));
        assert(writer@ =~= old(writer)@ + encoding(InstructionValue::Font(f)));
    } else {
        dump_unsigned(235, f, writer);
    }
}

pub fn dump_xxx(data: &[u8], writer: &mut Vec<u8>) -> (r: Result<(), DumpError>)
    ensures
        encodable(InstructionValue::Xxx(data@)) ==> r == Ok::<(), DumpError>(()) && final(writer)@
            == old(writer)@ + encoding(InstructionValue::Xxx(data@)),
        !encodable(InstructionValue::Xxx(data@)) ==> r == Err::<(), DumpError>(
            DumpError::FieldTooLarge,
        ) && final(writer)@ == old(writer)@,
{
    if data.len() > 0xffff_ffffusize {
        return Err(DumpError::FieldTooLarge);
    }
    dump_unsigned(239, data.len() as u32, writer);
    write_bytes(writer, data);
    assert(writer@ =~= old(writer)@ + encoding(InstructionValue::Xxx(data@)));
    Ok(())
}

/// Emit the opcode and minimal-width font number that open a font
/// definition record.
pub fn dump_font_def_helper(v: u32, writer: &mut Vec<u8>)
    ensures
        final(writer)@ == old(writer)@ + enc_unsigned(243, v),
{
    dump_unsigned(243, v, writer);
}

fn dump_font_def(def: &FontDef, writer: &mut Vec<u8>) -> (r: Result<(), DumpError>)
    ensures
        encodable(InstructionValue::FontDef(def@)) ==> r == Ok::<(), DumpError>(())
            && final(writer)@ == old(writer)@ + encoding(InstructionValue::FontDef(def@)),
        !encodable(InstructionValue::FontDef(def@)) ==> r == Err::<(), DumpError>(
            DumpError::FieldTooLarge,
        ) && final(writer)@ == old(writer)@,
{
    if def.filename.len() > 255 {
        return Err(DumpError::FieldTooLarge);
    }
    match &def.directory {
        Some(d) => {
            if d.len() > 255 {
                return Err(DumpError::FieldTooLarge);
            }
        },
        None => {},
    }
    dump_font_def_helper(def.number, writer);
    write_be(writer, def.checksum, 4);
    write_be(writer, def.scale_factor, 4);
    write_be(writer, def.design_size, 4);
    match &def.directory {
        Some(d) => writer.push(d.len() as u8),
        None => writer.push(0),
    }
    writer.push(def.filename.len() as u8);
    match &def.directory {
        Some(d) => write_bytes(writer, d.as_slice()),
        None => {},
    }
    write_bytes(writer, def.filename.as_slice());
    assert(writer@ =~= old(writer)@ + encoding_font_def(def@));
    Ok(())
}

fn dump_pre(
    format: u8,
    numerator: u32,
    denominator: u32,
    magnification: u32,
    comment: &[u8],
    writer: &mut Vec<u8>,
) -> (r: Result<(), DumpError>)
    ensures
        comment@.len() <= 255 ==> r == Ok::<(), DumpError>(()) && final(writer)@ == old(writer)@
            + encoding(
            InstructionValue::Pre {
                format,
                numerator,
                denominator,
                magnification,
                comment: comment@,
            },
        ),
        comment@.len() > 255 ==> r == Err::<(), DumpError>(DumpError::FieldTooLarge)
            && final(writer)@ == old(writer)@,
{
    if comment.len() > 255 {
        return Err(DumpError::FieldTooLarge);
    }
    writer.push(247);
    writer.push(format);
    write_be(writer, numerator, 4);
    write_be(writer, denominator, 4);
    write_be(writer, magnification, 4);
    writer.push(comment.len() as u8);
    write_bytes(writer, comment);
    assert(writer@ =~= old(writer)@ + encoding(
        InstructionValue::Pre { format, numerator, denominator, magnification, comment: comment@ },
    ));
    Ok(())
}

fn dump_post(
    final_bop_pointer: i32,
    numerator: u32,
    denominator: u32,
    magnification: u32,
    tallest_height: i32,
    widest_width: i32,
    max_stack_depth: u16,
    total_no_pages: u16,
    writer: &mut Vec<u8>,
)
    ensures
        final(writer)@ == old(writer)@ + encoding(
            InstructionValue::Post {
                final_bop_pointer,
                numerator,
                denominator,
                magnification,
                tallest_height,
                widest_width,
                max_stack_depth,
                total_no_pages,
            },
        ),
{
    proof {
        lemma_p256_values();
    }
    writer.push(248);
    write_sbe(writer, final_bop_pointer, 4);
    write_be(writer, numerator, 4);
    write_be(writer, denominator, 4);
    write_be(writer, magnification, 4);
    write_sbe(writer, tallest_height, 4);
    write_sbe(writer, widest_width, 4);
    write_be(writer, max_stack_depth as u32, 2);
    write_be(writer, total_no_pages as u32, 2);
    assert(writer@ =~= old(writer)@ + encoding(
        InstructionValue::Post {
            final_bop_pointer,
            numerator,
            denominator,
            magnification,
            tallest_height,
            widest_width,
            max_stack_depth,
            total_no_pages,
        },
    ));
}

fn dump_postpost(post_pointer: u32, ident: u8, two_two_three: u32, writer: &mut Vec<u8>)
    ensures
        final(writer)@ == old(writer)@ + encoding(
            InstructionValue::PostPost { post_pointer, ident, two_two_three },
        ),
{
    writer.push(249);
    write_be(writer, post_pointer, 4);
    writer.push(ident);
    let ghost head = writer@;
    let mut k: u32 = 0;
    while k < two_two_three
        invariant
            k <= two_two_three,
            writer@ == head + Seq::new(k as nat, |j: int| SENTINEL),
        decreases two_two_three - k,
    {
        writer.push(SENTINEL);
        assert(writer@ =~= head + Seq::new((k + 1) as nat, |j: int| SENTINEL));
        k = k + 1;
    }
    assert(writer@ =~= old(writer)@ + encoding(
        InstructionValue::PostPost { post_pointer, ident, two_two_three },
    ));
}

/// Encode `i` and append the bytes to `writer`, selecting the most compact
/// opcode variant. On `FieldTooLarge` nothing at all is written.
pub fn dump(i: &Instruction, writer: &mut Vec<u8>) -> (r: Result<(), DumpError>)
    ensures
        encodable(i@) ==> r == Ok::<(), DumpError>(()) && final(writer)@ == old(writer)@
            + encoding(i@),
        !encodable(i@) ==> r == Err::<(), DumpError>(DumpError::FieldTooLarge) && final(writer)@
            == old(writer)@,
{
    match i {
        Instruction::SetChar(ch) => {
            dump_set(*ch, writer);
            Ok(())
        },
        Instruction::SetRule(a, b) => {
            dump_set_rule(*a, *b, writer);
            Ok(())
        },
        Instruction::Put(ch) => {
            dump_put(*ch, writer);
            Ok(())
        },
        Instruction::PutRule(a, b) => {
            dump_put_rule(*a, *b, writer);
            Ok(())
        },
        Instruction::Nop => {
            writer.push(138);
            assert(writer@ =~= old(writer)@ + encoding(i@));
            Ok(())
        },
        Instruction::Bop(c, p) => {
            dump_bop(*c, *p, writer);
            Ok(())
        },
        Instruction::Eop => {
            writer.push(140);
            assert(writer@ =~= old(writer)@ + encoding(i@));
            Ok(())
        },
        Instruction::Push => {
            writer.push(141);
            assert(writer@ =~= old(writer)@ + encoding(i@));
            Ok(())
        },
        Instruction::Pop => {
            writer.push(142);
            assert(writer@ =~= old(writer)@ + encoding(i@));
            Ok(())
        },
        Instruction::Right(amt) => {
            dump_right(*amt, writer);
            Ok(())
        },
        Instruction::W(amt) => {
            dump_w(*amt, writer);
            Ok(())
        },
        Instruction::X(amt) => {
            dump_x(*amt, writer);
            Ok(())
        },
        Instruction::Down(amt) => {
            dump_down(*amt, writer);
            Ok(())
        },
        Instruction::Y(amt) => {
            dump_y(*amt, writer);
            Ok(())
        },
        Instruction::Z(amt) => {
            dump_z(*amt, writer);
            Ok(())
        },
        Instruction::Font(num) => {
            dump_font(*num, writer);
            Ok(())
        },
        Instruction::Xxx(data) => dump_xxx(data.as_slice(), writer),
        Instruction::FontDef(font_def) => dump_font_def(font_def, writer),
        Instruction::Pre { format, numerator, denominator, magnification, comment } => dump_pre(
            *format,
            *numerator,
            *denominator,
            *magnification,
            comment.as_slice(),
            writer,
        ),
        Instruction::Post {
            final_bop_pointer,
            numerator,
            denominator,
            magnification,
            tallest_height,
            widest_width,
            max_stack_depth,
            total_no_pages,
        } => {
            dump_post(
                *final_bop_pointer,
                *numerator,
                *denominator,
                *magnification,
                *tallest_height,
                *widest_width,
                *max_stack_depth,
                *total_no_pages,
                writer,
            );
            Ok(())
        },
        Instruction::PostPost { post_pointer, ident, two_two_three } => {
            dump_postpost(*post_pointer, *ident, *two_two_three, writer);
            Ok(())
        },
    }
}

} // verus!
