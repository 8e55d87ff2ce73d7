use dvi::FontDef;
use dvi::Instruction;
use dvi::ParseError;

fn encode(inst: &Instruction) -> Vec<u8> {
    let mut out = Vec::new();
    inst.dump(&mut out).unwrap();
    out
}

#[test]
fn set_char_dense_fast_path() {
    for v in 0..128u32 {
        let bytes = encode(&Instruction::SetChar(v));
        assert_eq!(bytes, vec![v as u8]);
        let (parsed, used) = Instruction::parse(&bytes).unwrap();
        assert_eq!(parsed, Instruction::SetChar(v));
        assert_eq!(used, 1);
    }
    assert_eq!(encode(&Instruction::SetChar(128)), vec![128, 128]);
    assert_eq!(encode(&Instruction::SetChar(255)), vec![128, 255]);
    assert_eq!(encode(&Instruction::SetChar(0x7fff)), vec![129, 0x7f, 0xff]);
}

#[test]
fn font_dense_fast_path() {
    assert_eq!(encode(&Instruction::Font(0)), vec![171]);
    assert_eq!(encode(&Instruction::Font(63)), vec![234]);
    assert_eq!(encode(&Instruction::Font(64)), vec![235, 64]);
    let (parsed, used) = Instruction::parse(&[234]).unwrap();
    assert_eq!(parsed, Instruction::Font(63));
    assert_eq!(used, 1);
}

#[test]
fn cached_value_sentinel() {
    assert_eq!(encode(&Instruction::W(None)), vec![147]);
    assert_eq!(encode(&Instruction::X(None)), vec![152]);
    assert_eq!(encode(&Instruction::Y(None)), vec![161]);
    assert_eq!(encode(&Instruction::Z(None)), vec![166]);
    let (parsed, used) = Instruction::parse(&[147]).unwrap();
    assert_eq!(parsed, Instruction::W(None));
    assert_eq!(used, 1);
}

#[test]
fn signed_payload_bytes() {
    assert_eq!(encode(&Instruction::Right(-8648)), vec![144, 0xde, 0x38]);
    assert_eq!(
        encode(&Instruction::Right(56888)),
        vec![145, 0x00, 0xde, 0x38]
    );
    assert_eq!(encode(&Instruction::Down(-1)), vec![157, 0xff]);
    assert_eq!(encode(&Instruction::W(Some(127))), vec![148, 0x7f]);
    assert_eq!(encode(&Instruction::W(Some(128))), vec![149, 0x00, 0x80]);
}

#[test]
fn unsigned_payload_bytes() {
    assert_eq!(encode(&Instruction::Put(0xff)), vec![133, 0xff]);
    assert_eq!(encode(&Instruction::Put(0x100)), vec![134, 0x01, 0x00]);
    assert_eq!(
        encode(&Instruction::Put(0xdead_beef)),
        vec![136, 0xde, 0xad, 0xbe, 0xef]
    );
}

#[test]
fn bop_layout() {
    let mut expected = vec![139u8];
    expected.extend_from_slice(&[0; 40]);
    expected.extend_from_slice(&[0xff, 0xff, 0xff, 0xff]);
    assert_eq!(encode(&Instruction::Bop([0; 10], -1)), expected);
}

#[test]
fn pre_layout() {
    let bytes = encode(&Instruction::Pre {
        format: 2,
        numerator: 25400000,
        denominator: 473628672,
        magnification: 1000,
        comment: b"x".to_vec(),
    });
    assert_eq!(
        bytes,
        vec![
            247, 2, 0x01, 0x83, 0x92, 0xc0, 0x1c, 0x3b, 0x00, 0x00, 0x00, 0x00, 0x03, 0xe8, 1,
            b'x'
        ]
    );
}

#[test]
fn font_def_layout() {
    let bytes = encode(&Instruction::FontDef(FontDef {
        number: 1,
        checksum: 2,
        scale_factor: 3,
        design_size: 4,
        directory: None,
        filename: b"a".to_vec(),
    }));
    assert_eq!(
        bytes,
        vec![243, 1, 0, 0, 0, 2, 0, 0, 0, 3, 0, 0, 0, 4, 0, 1, b'a']
    );
}

#[test]
fn non_minimal_encodings_accepted() {
    // A decoder reads whatever width class the opcode declares, even when
    // a smaller one would have held the value; re-encoding is minimal.
    let (parsed, used) = Instruction::parse(&[131, 0, 0, 0, 5]).unwrap();
    assert_eq!(parsed, Instruction::SetChar(5));
    assert_eq!(used, 5);
    assert_eq!(encode(&parsed), vec![5]);

    let (parsed, used) = Instruction::parse(&[146, 0xff, 0xff, 0xff, 0xff]).unwrap();
    assert_eq!(parsed, Instruction::Right(-1));
    assert_eq!(used, 5);
    assert_eq!(encode(&parsed), vec![143, 0xff]);
}

#[test]
fn sentinel_run_leniency() {
    // A full run: opcode, pointer 129, ident 2, then three sentinel bytes.
    let bytes = [249, 0, 0, 0, 129, 2, 223, 223, 223];
    let (parsed, used) = Instruction::parse(&bytes).unwrap();
    assert_eq!(
        parsed,
        Instruction::PostPost {
            post_pointer: 129,
            ident: 2,
            two_two_three: 3
        }
    );
    assert_eq!(used, 9);

    // Truncated to no sentinel bytes at all: still a success, count zero.
    let bytes = [249, 0, 0, 0, 129, 2];
    let (parsed, used) = Instruction::parse(&bytes).unwrap();
    assert_eq!(
        parsed,
        Instruction::PostPost {
            post_pointer: 129,
            ident: 2,
            two_two_three: 0
        }
    );
    assert_eq!(used, 6);

    // The run stops at the first byte that is not the sentinel.
    let bytes = [249, 0, 0, 0, 129, 2, 223, 223, 0];
    let (parsed, used) = Instruction::parse(&bytes).unwrap();
    assert_eq!(
        parsed,
        Instruction::PostPost {
            post_pointer: 129,
            ident: 2,
            two_two_three: 2
        }
    );
    assert_eq!(used, 8);
}

#[test]
fn field_too_large_writes_nothing() {
    let mut out = vec![1u8, 2, 3];
    let r = Instruction::FontDef(FontDef {
        number: 1,
        checksum: 2,
        scale_factor: 3,
        design_size: 4,
        directory: None,
        filename: vec![b'n'; 256],
    })
    .dump(&mut out);
    assert_eq!(r, Err(dvi::DumpError::FieldTooLarge));
    assert_eq!(out, vec![1, 2, 3]);

    let r = Instruction::FontDef(FontDef {
        number: 1,
        checksum: 2,
        scale_factor: 3,
        design_size: 4,
        directory: Some(vec![b'd'; 256]),
        filename: b"a".to_vec(),
    })
    .dump(&mut out);
    assert_eq!(r, Err(dvi::DumpError::FieldTooLarge));
    assert_eq!(out, vec![1, 2, 3]);

    let r = Instruction::Pre {
        format: 2,
        numerator: 1,
        denominator: 1,
        magnification: 1,
        comment: vec![0; 256],
    }
    .dump(&mut out);
    assert_eq!(r, Err(dvi::DumpError::FieldTooLarge));
    assert_eq!(out, vec![1, 2, 3]);
}

#[test]
fn length_guard_boundary_is_inclusive() {
    // 255 bytes still fit the one-byte length prefix.
    let mut out = Vec::new();
    Instruction::FontDef(FontDef {
        number: 1,
        checksum: 2,
        scale_factor: 3,
        design_size: 4,
        directory: Some(vec![b'd'; 255]),
        filename: vec![b'n'; 255],
    })
    .dump(&mut out)
    .unwrap();
    let (parsed, used) = Instruction::parse(&out).unwrap();
    assert_eq!(used, out.len());
    match parsed {
        Instruction::FontDef(fd) => {
            assert_eq!(fd.directory.as_ref().map(|d| d.len()), Some(255));
            assert_eq!(fd.filename.len(), 255);
        }
        other => panic!("expected a font definition, got {:?}", other),
    }
}

#[test]
fn need_more_data() {
    assert_eq!(Instruction::parse(&[]), Err(ParseError::NeedMoreData));
    assert_eq!(Instruction::parse(&[129]), Err(ParseError::NeedMoreData));
    assert_eq!(
        Instruction::parse(&[132, 0, 0, 0, 1, 0, 0]),
        Err(ParseError::NeedMoreData)
    );
    assert_eq!(
        Instruction::parse(&[239, 5, 1, 2]),
        Err(ParseError::NeedMoreData)
    );
    assert_eq!(Instruction::parse(&[248, 0]), Err(ParseError::NeedMoreData));
}

#[test]
fn malformed_opcode() {
    for op in 250..=255u8 {
        assert_eq!(
            Instruction::parse(&[op, 0, 0]),
            Err(ParseError::MalformedOpcode)
        );
    }
}

fn decode_all(bytes: &[u8]) -> Vec<Instruction> {
    let mut rest: &[u8] = bytes;
    let mut decoded = Vec::new();
    while !rest.is_empty() {
        let (inst, used) = Instruction::parse(rest).unwrap();
        decoded.push(inst);
        rest = &rest[used..];
    }
    decoded
}

fn encode_all(instructions: &[Instruction]) -> Vec<u8> {
    let mut out = Vec::new();
    for inst in instructions {
        inst.dump(&mut out).unwrap();
    }
    out
}

#[test]
fn three_record_scenario() {
    // Set(1), Push, Eop.
    let bytes = [0x01, 0x8d, 0x8c];
    let decoded = decode_all(&bytes);
    assert_eq!(
        decoded,
        vec![Instruction::SetChar(1), Instruction::Push, Instruction::Eop]
    );
    assert_eq!(encode_all(&decoded), bytes.to_vec());

    // Set(1), Push, Pop.
    let bytes = [0x01, 0x8d, 0x8e];
    let decoded = decode_all(&bytes);
    assert_eq!(
        decoded,
        vec![Instruction::SetChar(1), Instruction::Push, Instruction::Pop]
    );
    assert_eq!(encode_all(&decoded), bytes.to_vec());
}
