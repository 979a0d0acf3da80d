use base_lib::decode::{decode_ops, has_decoder, DecodeError};
use base_lib::encode::{encode_module, EncodeError};
use base_lib::lift::lift_x86_32;
use base_lib::sir::{Op, VReg};
use base_lib::target::{SuperHFlavor, TargetIsa};

fn roundtrip(bytes: &[u8], isa: TargetIsa) -> Result<Vec<Op>, EncodeError> {
    let m = lift_x86_32(bytes, "f").unwrap();
    let enc = encode_module(&m, isa)?;
    Ok(decode_ops(&enc, isa).expect("decode"))
}

#[test]
fn mips_decodes_what_it_encodes() {
    for (bytes, expect) in [
        (&[0x90, 0xC3][..], vec![Op::Nop, Op::Ret]),
        (
            &[0xB8, 0x01, 0x00, 0x00, 0x00, 0x83, 0xC0, 0x02, 0xC3][..],
            vec![Op::MovImm { dst: VReg(0), imm: 1 }, Op::AddImm { dst: VReg(0), imm: 2 }, Op::Ret],
        ),
    ] {
        assert_eq!(roundtrip(bytes, TargetIsa::Mips).unwrap(), expect);
    }
}

#[test]
fn ppc_decodes_what_it_encodes() {
    let ops = roundtrip(&[0x90, 0xC3], TargetIsa::Ppc).unwrap();
    assert_eq!(ops, vec![Op::Nop, Op::Ret]);
    let ops = roundtrip(&[0xB8, 0x01, 0x00, 0x00, 0x00, 0x83, 0xC0, 0x02, 0xC3], TargetIsa::Ppc)
        .unwrap();
    assert_eq!(
        ops,
        vec![Op::MovImm { dst: VReg(0), imm: 1 }, Op::AddImm { dst: VReg(0), imm: 2 }, Op::Ret]
    );
}

#[test]
fn superh_decodes_what_it_encodes() {
    let ops = roundtrip(&[0x90, 0xC3], TargetIsa::SuperH(SuperHFlavor::Sh2)).unwrap();
    assert_eq!(ops, vec![Op::Nop, Op::Ret]);
}

#[test]
fn sh_add3_clear_normalizes_via_semantics() {
    let m = lift_x86_32(&[0x31, 0xC0, 0xC3], "z").unwrap();
    let enc = encode_module(&m, TargetIsa::SuperH(SuperHFlavor::Sh2)).unwrap();
    let ops = decode_ops(&enc, TargetIsa::SuperH(SuperHFlavor::Sh2)).unwrap();
    assert_eq!(ops[0], Op::MovImm { dst: VReg(0), imm: 0 });
}

#[test]
fn alpha_decodes_what_it_encodes() {
    let ops = roundtrip(&[0x90, 0xC3], TargetIsa::Alpha).unwrap();
    assert_eq!(ops, vec![Op::Nop, Op::Ret]);
    let ops =
        roundtrip(&[0xB8, 0x01, 0x00, 0x00, 0x00, 0x83, 0xC0, 0x02, 0xC3], TargetIsa::Alpha)
            .unwrap();
    assert_eq!(
        ops,
        vec![Op::MovImm { dst: VReg(0), imm: 1 }, Op::AddImm { dst: VReg(0), imm: 2 }, Op::Ret]
    );
}

#[test]
fn parisc_decodes_what_it_encodes() {
    let ops = roundtrip(&[0x90, 0xC3], TargetIsa::PaRisc).unwrap();
    assert_eq!(ops, vec![Op::Nop, Op::Ret]);
}

#[test]
fn coldfire_decodes_what_it_encodes() {
    let ops = roundtrip(&[0x90, 0xC3], TargetIsa::ColdFire).unwrap();
    assert_eq!(ops, vec![Op::Nop, Op::Ret]);
    let ops =
        roundtrip(&[0xB8, 0x01, 0x00, 0x00, 0x00, 0x83, 0xC0, 0x02, 0xC3], TargetIsa::ColdFire)
            .unwrap();
    assert_eq!(
        ops,
        vec![Op::MovImm { dst: VReg(0), imm: 1 }, Op::AddImm { dst: VReg(0), imm: 2 }, Op::Ret]
    );
}

#[test]
fn coldfire_push_pop_roundtrip() {
    let ops = roundtrip(&[0x50, 0x58, 0xC3], TargetIsa::ColdFire).unwrap();
    assert_eq!(ops, vec![Op::Push { src: VReg(0) }, Op::Pop { dst: VReg(0) }, Op::Ret]);
}

#[test]
fn arm_decodes_what_it_encodes() {
    let ops = roundtrip(&[0x90, 0xC3], TargetIsa::Arm).unwrap();
    assert_eq!(ops, vec![Op::Nop, Op::Ret]);
    let ops =
        roundtrip(&[0xB8, 0x01, 0x00, 0x00, 0x00, 0x83, 0xC0, 0x02, 0xC3], TargetIsa::Arm).unwrap();
    assert_eq!(
        ops,
        vec![Op::MovImm { dst: VReg(0), imm: 1 }, Op::AddImm { dst: VReg(0), imm: 2 }, Op::Ret]
    );
}

#[test]
fn arm_clear_normalizes_via_semantics() {
    let m = lift_x86_32(&[0x31, 0xC0, 0xC3], "z").unwrap();
    let enc = encode_module(&m, TargetIsa::Arm).unwrap();
    let ops = decode_ops(&enc, TargetIsa::Arm).unwrap();
    assert_eq!(ops[0], Op::MovImm { dst: VReg(0), imm: 0 });
}

#[test]
fn arm_rotated_imm_is_a_gap_not_misdecode() {
    let w = 0xE3A0_0101u32;
    let ops = decode_ops(&w.to_le_bytes(), TargetIsa::Arm).unwrap();
    assert!(matches!(ops[0], Op::Unknown { .. }), "rotated form must be a gap: {ops:?}");
}

#[test]
fn arm_adds_sets_flag_is_a_gap_not_misdecode() {
    let w = 0xE290_0001u32;
    let ops = decode_ops(&w.to_le_bytes(), TargetIsa::Arm).unwrap();
    assert!(matches!(ops[0], Op::Unknown { .. }), "S=1 form must be a gap: {ops:?}");
}

#[test]
fn sparc_decodes_what_it_encodes() {
    let ops = roundtrip(&[0x90, 0xC3], TargetIsa::Sparc).unwrap();
    assert_eq!(ops, vec![Op::Nop, Op::Ret]);
    let ops =
        roundtrip(&[0xB8, 0x01, 0x00, 0x00, 0x00, 0x31, 0xC0, 0xC3], TargetIsa::Sparc).unwrap();
    assert_eq!(ops, vec![Op::MovImm { dst: VReg(0), imm: 1 }, Op::Clear { dst: VReg(0) }, Op::Ret]);
    assert!(
        encode_module(&lift_x86_32(&[0x83, 0xC0, 0x02], "g").unwrap(), TargetIsa::Sparc).is_err()
    );
}

#[test]
fn sparc_mov_clear_roundtrip() {
    let ops =
        roundtrip(&[0xB8, 0x01, 0x00, 0x00, 0x00, 0x31, 0xC0, 0xC3], TargetIsa::Sparc).unwrap();
    assert_eq!(ops, vec![Op::MovImm { dst: VReg(0), imm: 1 }, Op::Clear { dst: VReg(0) }, Op::Ret]);
}

#[test]
fn sparc_imm13_sign_extends() {
    let w = 0xA010_3FFFu32;
    let ops = decode_ops(&w.to_be_bytes(), TargetIsa::Sparc).unwrap();
    assert_eq!(ops[0], Op::MovImm { dst: VReg(0), imm: 0xFFFF_FFFF });
}

#[test]
fn sparc_non_l_register_rd_is_a_gap() {
    let w = 0x8010_0000u32;
    let ops = decode_ops(&w.to_be_bytes(), TargetIsa::Sparc).unwrap();
    assert!(matches!(ops[0], Op::Unknown { .. }), "{ops:?}");
}

#[test]
fn x86_decodes_what_it_encodes() {
    let ops = roundtrip(&[0x90, 0xC3], TargetIsa::X86_64).unwrap();
    assert_eq!(ops, vec![Op::Nop, Op::Ret]);
    let ops =
        roundtrip(&[0xB8, 0x01, 0x00, 0x00, 0x00, 0x83, 0xC0, 0x02, 0xC3], TargetIsa::X86_64)
            .unwrap();
    assert_eq!(
        ops,
        vec![Op::MovImm { dst: VReg(0), imm: 1 }, Op::AddImm { dst: VReg(0), imm: 2 }, Op::Ret]
    );
}

#[test]
fn x86_full_op_subset_roundtrips() {
    let ops = roundtrip(
        &[0x31, 0xC0, 0x40, 0x48, 0x50, 0x58, 0x2D, 0x05, 0x00, 0x00, 0x00, 0xC3],
        TargetIsa::X86_64,
    )
    .unwrap();
    assert_eq!(
        ops,
        vec![
            Op::Clear { dst: VReg(0) },
            Op::Inc { dst: VReg(0) },
            Op::Dec { dst: VReg(0) },
            Op::Push { src: VReg(0) },
            Op::Pop { dst: VReg(0) },
            Op::SubImm { dst: VReg(0), imm: 5 },
            Op::Ret,
        ]
    );
}

#[test]
fn x86_add_imm32_form_decodes() {
    let ops = decode_ops(&[0x05, 0xFF, 0xFF, 0xFF, 0x7F], TargetIsa::X86_64).unwrap();
    assert_eq!(ops[0], Op::AddImm { dst: VReg(0), imm: 0x7FFF_FFFF });
}

#[test]
fn x86_unknown_byte_is_a_gap() {
    let ops = decode_ops(&[0x66, 0xC3], TargetIsa::X86_64).unwrap();
    assert!(matches!(ops[0], Op::Unknown { .. }));
    assert_eq!(ops[1], Op::Ret);
}

#[test]
fn aarch64_decodes_what_it_encodes() {
    let ops = roundtrip(&[0x90, 0xC3], TargetIsa::AArch64).unwrap();
    assert_eq!(ops, vec![Op::Nop, Op::Ret]);
    let ops =
        roundtrip(&[0xB8, 0x01, 0x00, 0x00, 0x00, 0x83, 0xC0, 0x02, 0xC3], TargetIsa::AArch64)
            .unwrap();
    assert_eq!(
        ops,
        vec![Op::MovImm { dst: VReg(0), imm: 1 }, Op::AddImm { dst: VReg(0), imm: 2 }, Op::Ret]
    );
}

#[test]
fn aarch64_clear_inc_dec_roundtrip() {
    let ops = roundtrip(&[0x31, 0xC0, 0x40, 0x48, 0xC3], TargetIsa::AArch64).unwrap();
    assert_eq!(
        ops,
        vec![Op::Clear { dst: VReg(0) }, Op::Inc { dst: VReg(0) }, Op::Dec { dst: VReg(0) }, Op::Ret]
    );
}

#[test]
fn aarch64_shifted_add_is_a_gap_not_misdecode() {
    let w = 0x1100_0000 | (0x1234 << 10) | (1u32 << 23) | 0;
    let ops = decode_ops(&w.to_le_bytes(), TargetIsa::AArch64).unwrap();
    assert!(matches!(ops[0], Op::Unknown { .. }), "shifted form must be a gap: {ops:?}");
}

#[test]
fn no_decoder_for_encode_only_targets() {
    for t in [TargetIsa::M88k, TargetIsa::Ia64, TargetIsa::I860] {
        assert!(!has_decoder(t), "{t:?} should not have a decoder yet");
        assert!(matches!(decode_ops(&[], t), Err(DecodeError::NoDecoder(_))));
    }
    assert!(has_decoder(TargetIsa::Alpha));
    assert!(has_decoder(TargetIsa::PaRisc));
    assert!(has_decoder(TargetIsa::ColdFire));
}

#[test]
fn truncated_stream_is_reported_with_offset() {
    let r = decode_ops(&[0x00, 0x00, 0x00], TargetIsa::Mips);
    match r {
        Err(e) => {
            assert!(matches!(e, DecodeError::Truncated(_, 0)));
            assert!(e.message().starts_with("unexpected end of stream decoding "));
        },
        Ok(ops) => panic!("expected truncation, got {ops:?}"),
    }
}

#[test]
fn no_decoder_message_names_the_target() {
    match decode_ops(&[0x00], TargetIsa::Ia64) {
        Err(e) => assert_eq!(e.message(), "no decoder for ia64 yet (encode-only target)"),
        Ok(ops) => panic!("expected NoDecoder, got {ops:?}"),
    }
}

#[test]
fn mips_addiu_negative_immediate_decodes_as_sub() {
    let m = lift_x86_32(&[0x83, 0xE8, 0x03, 0xC3], "s").unwrap();
    let enc = encode_module(&m, TargetIsa::Mips).unwrap();
    let ops = decode_ops(&enc, TargetIsa::Mips).unwrap();
    assert_eq!(ops[0], Op::SubImm { dst: VReg(0), imm: 3 });
}

#[test]
fn fixed_width_decoders_fail_exactly_on_a_partial_word() {
    let four = [
        TargetIsa::Mips,
        TargetIsa::Ppc,
        TargetIsa::Alpha,
        TargetIsa::PaRisc,
        TargetIsa::Arm,
        TargetIsa::AArch64,
        TargetIsa::Sparc,
    ];
    for t in four {
        for len in 0..13usize {
            let bytes = vec![0u8; len];
            match decode_ops(&bytes, t) {
                Ok(ops) => {
                    assert_eq!(len % 4, 0, "{t:?} {len}");
                    assert!(ops.len() <= len / 4);
                },
                Err(DecodeError::Truncated(_, k)) => {
                    assert_ne!(len % 4, 0, "{t:?} {len}");
                    assert_eq!(k as usize, len - len % 4);
                },
                Err(e) => panic!("{t:?}: unexpected {e:?}"),
            }
        }
    }
    for len in 0..7usize {
        let r = decode_ops(&vec![0x09u8; len], TargetIsa::SuperH(SuperHFlavor::Sh4));
        assert_eq!(r.is_ok(), len % 2 == 0, "{len}");
        if len % 2 == 1 {
            assert!(matches!(r, Err(DecodeError::Truncated(_, k)) if k as usize == len - 1));
        }
    }
}

#[test]
fn no_decoder_exactly_where_none_exists() {
    for t in TargetIsa::all_canonical() {
        let r = decode_ops(&[0x90, 0xC3, 0x00, 0x00], t);
        assert_eq!(matches!(r, Err(DecodeError::NoDecoder(_))), !has_decoder(t), "{t:?}");
    }
}

#[test]
fn registers_above_the_window_come_back_clamped() {
    let high = vec![Op::AddImm { dst: VReg(9), imm: 3 }, Op::Clear { dst: VReg(40) }];
    let top = vec![Op::AddImm { dst: VReg(7), imm: 3 }, Op::Clear { dst: VReg(7) }];
    let m = |ops: Vec<Op>| base_lib::encode::encode_ops(&ops, TargetIsa::Mips).unwrap();
    let bytes = m(high);
    assert_eq!(bytes, m(top));
    let back = decode_ops(&bytes, TargetIsa::Mips).unwrap();
    assert_eq!(back[0], Op::AddImm { dst: VReg(7), imm: 3 });
    let arm = base_lib::encode::encode_ops(&vec![Op::Inc { dst: VReg(20) }], TargetIsa::Arm).unwrap();
    assert_eq!(decode_ops(&arm, TargetIsa::Arm).unwrap(), vec![Op::Inc { dst: VReg(12) }]);
}
