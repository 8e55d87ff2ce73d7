use dvi::FontDef;
use dvi::Instruction;

/// Helper function to assert that encoding and parsing is a no-op.
fn ser_de(input: Vec<Instruction>) {
    for input in input {
        let mut out = Vec::new();
        input.dump(&mut out).unwrap();
        let (parsed, used) = Instruction::parse(&out).unwrap();
        assert_eq!(input, parsed, "serialized {:?}", out);
        assert_eq!(used, out.len());
    }
}

#[test]
fn set() {
    ser_de(vec![
        Instruction::SetChar(0x01),
        Instruction::SetChar(0x7f),
        Instruction::SetChar(0x7f_ff),
        Instruction::SetChar(0x7f_ff_ff),
        Instruction::SetChar(0x7f_ff_ff_ff),
    ])
}

#[test]
fn set_rule() {
    ser_de(vec![
        Instruction::SetRule(10, 10),
        Instruction::SetRule(10, -10),
        Instruction::SetRule(0, -10),
        Instruction::SetRule(0, 0),
    ])
}

#[test]
fn put() {
    ser_de(vec![
        Instruction::Put(0x01),
        Instruction::Put(0x7f),
        Instruction::Put(0x7f_ff),
        Instruction::Put(0x7f_ff_ff),
        Instruction::Put(0x7f_ff_ff_ff),
    ])
}

#[test]
fn put_rule() {
    ser_de(vec![
        Instruction::PutRule(10, 10),
        Instruction::PutRule(10, -10),
        Instruction::PutRule(0, -10),
        Instruction::PutRule(0, 0),
    ])
}

#[test]
fn nop() {
    ser_de(vec![Instruction::Nop])
}

#[test]
fn bop() {
    ser_de(vec![
        Instruction::Bop([0; 10], 1),
        Instruction::Bop([100; 10], -1),
    ])
}

#[test]
fn eop() {
    ser_de(vec![Instruction::Eop])
}

#[test]
fn push() {
    ser_de(vec![Instruction::Push])
}

#[test]
fn pop() {
    ser_de(vec![Instruction::Pop])
}

#[test]
fn right() {
    ser_de(vec![
        Instruction::Right(0x00),
        Instruction::Right(0x01),
        Instruction::Right(0x7f),
        Instruction::Right(0x7f_ff),
        Instruction::Right(0x7f_ff_ff),
        Instruction::Right(0x7f_ff_ff_ff),
        Instruction::Right(0x7fu8 as i32),
        Instruction::Right(0x7f_ffu16 as i32),
        Instruction::Right(0x7f_ff_ffu32 as i32),
        Instruction::Right(0x7f_ff_ff_ffu32 as i32),
        Instruction::Right(56888),
        Instruction::Right(-8648),
    ])
}

#[test]
fn w() {
    ser_de(vec![
        Instruction::W(None),
        Instruction::W(Some(0x00)),
        Instruction::W(Some(0x01)),
        Instruction::W(Some(0x7f)),
        Instruction::W(Some(0x7f_ff)),
        Instruction::W(Some(0x7f_ff_ff)),
        Instruction::W(Some(0x7f_ff_ff_ff)),
        Instruction::W(Some(-0x7f)),
        Instruction::W(Some(-0x7f_ff)),
        Instruction::W(Some(-0x7f_ff_ff)),
        Instruction::W(Some(0x7f_ff_ff_ff)),
        Instruction::W(Some(56888)),
        Instruction::W(Some(-8648)),
    ])
}

#[test]
fn x() {
    ser_de(vec![
        Instruction::X(None),
        Instruction::X(Some(0x00)),
        Instruction::X(Some(0x01)),
        Instruction::X(Some(0x7f)),
        Instruction::X(Some(0x7f_ff)),
        Instruction::X(Some(0x7f_ff_ff)),
        Instruction::X(Some(0x7f_ff_ff_ff)),
        Instruction::X(Some(-0x7f)),
        Instruction::X(Some(-0x7f_ff)),
        Instruction::X(Some(-0x7f_ff_ff)),
        Instruction::X(Some(0x7f_ff_ff_ff)),
        Instruction::X(Some(56888)),
        Instruction::X(Some(-8648)),
    ])
}

#[test]
fn down() {
    ser_de(vec![
        Instruction::Down(0x00),
        Instruction::Down(0x01),
        Instruction::Down(0x7f),
        Instruction::Down(0x7f_ff),
        Instruction::Down(0x7f_ff_ff),
        Instruction::Down(0x7f_ff_ff_ff),
        Instruction::Down(-0x7f),
        Instruction::Down(-0x7f_ff),
        Instruction::Down(-0x7f_ff_ff),
        Instruction::Down(0x7f_ff_ff_ff),
        Instruction::Down(56888),
        Instruction::Down(-8648),
    ])
}

#[test]
fn y() {
    ser_de(vec![
        Instruction::Y(None),
        Instruction::Y(Some(0x00)),
        Instruction::Y(Some(0x01)),
        Instruction::Y(Some(0x7f)),
        Instruction::Y(Some(0x7f_ff)),
        Instruction::Y(Some(0x7f_ff_ff)),
        Instruction::Y(Some(0x7f_ff_ff_ff)),
        Instruction::Y(Some(-0x7f)),
        Instruction::Y(Some(-0x7f_ff)),
        Instruction::Y(Some(-0x7f_ff_ff)),
        Instruction::Y(Some(0x7f_ff_ff_ff)),
        Instruction::Y(Some(56888)),
        Instruction::Y(Some(-8648)),
    ])
}

#[test]
fn z() {
    ser_de(vec![
        Instruction::Z(None),
        Instruction::Z(Some(0x00)),
        Instruction::Z(Some(0x01)),
        Instruction::Z(Some(0x7f)),
        Instruction::Z(Some(0x7f_ff)),
        Instruction::Z(Some(0x7f_ff_ff)),
        Instruction::Z(Some(0x7f_ff_ff_ff)),
        Instruction::Z(Some(-0x7f)),
        Instruction::Z(Some(-0x7f_ff)),
        Instruction::Z(Some(-0x7f_ff_ff)),
        Instruction::Z(Some(0x7f_ff_ff_ff)),
        Instruction::Z(Some(56888)),
        Instruction::Z(Some(-8648)),
    ])
}

#[test]
fn font() {
    ser_de(vec![
        Instruction::Font(0x01),
        Instruction::Font(0x7f),
        Instruction::Font(0x7f_ff),
        Instruction::Font(0x7f_ff_ff),
        Instruction::Font(0x7f_ff_ff_ff),
    ])
}

#[test]
fn xxx() {
    ser_de(vec![
        Instruction::Xxx(vec![0; 0]),
        Instruction::Xxx(vec![0; 10]),
        Instruction::Xxx(vec![0; 1000]),
        Instruction::Xxx(vec![0; 1 << 24]),
    ])
}

#[test]
fn font_def() {
    ser_de(vec![
        Instruction::FontDef(FontDef {
            number: 0xfa,
            checksum: 0xdeadbeef,
            scale_factor: 0x1000,
            design_size: 0x100,
            directory: Some(Vec::from("/my/font/dir/")),
            filename: Vec::from("fontname.ext"),
        }),
        Instruction::FontDef(FontDef {
            number: 0xfafa,
            checksum: 0xdeadbeef,
            scale_factor: 0x1000,
            design_size: 0x100,
            directory: None,
            filename: Vec::from("fontname.ext"),
        }),
        Instruction::FontDef(FontDef {
            number: 0xfafafa,
            checksum: 0xdeadbeef,
            scale_factor: 0x1000,
            design_size: 0x100,
            directory: None,
            filename: Vec::from("fontname.ext"),
        }),
        Instruction::FontDef(FontDef {
            number: 0xfafafafa,
            checksum: 0xdeadbeef,
            scale_factor: 0x10000,
            design_size: 0x100000,
            directory: Some(Vec::from("/my/font/dir/")),
            filename: Vec::from("fontname.ext"),
        }),
    ])
}

#[test]
fn pre() {
    ser_de(vec![Instruction::Pre {
        format: 2,
        numerator: 1000,
        denominator: 522,
        magnification: 10203,
        comment: b"Hi, I'm a comment".to_vec(),
    }])
}

#[test]
fn post() {
    ser_de(vec![Instruction::Post {
        final_bop_pointer: 1023,
        numerator: 0xfa,
        denominator: 0xfa3d,
        magnification: 0xfa3df,
        tallest_height: 0xffff,
        widest_width: 0xfff,
        max_stack_depth: 0xfe24,
        total_no_pages: 0xff,
    }])
}

#[test]
fn post_post() {
    ser_de(vec![
        Instruction::PostPost {
            post_pointer: 129,
            ident: 2,
            two_two_three: 3,
        },
        Instruction::PostPost {
            post_pointer: 0xffffff,
            ident: 2,
            two_two_three: 0,
        },
    ])
}
