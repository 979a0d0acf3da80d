use base_lib::encode::{encode_module, encode_ops, EncodeError};
use base_lib::lift::lift_x86_32;
use base_lib::sir::{BasicBlock, Function, Module, Op, VReg};
use base_lib::target::{SuperHFlavor, TargetIsa};

fn module_from_ops(ops: Vec<Op>) -> Module {
    Module {
        name: "t".into(),
        source_isa: "sir".into(),
        functions: vec![Function {
            name: "t".into(),
            blocks: vec![BasicBlock { label: "b0".into(), ops }],
        }],
        lift_gaps: 0,
        source: None,
        text_vma: None,
    }
}

#[test]
fn encode_x86_nop_ret() {
    let m = lift_x86_32(&[0x90, 0xC3], "f").unwrap();
    let b = encode_module(&m, TargetIsa::X86_64).unwrap();
    assert_eq!(b, vec![0x90, 0xC3]);
}

#[test]
fn encode_sh2_add3() {
    let bytes = [0xB8, 0x01, 0x00, 0x00, 0x00, 0x83, 0xC0, 0x02, 0xC3];
    let m = lift_x86_32(&bytes, "add3").unwrap();
    let b = encode_module(&m, TargetIsa::SuperH(SuperHFlavor::Sh2)).unwrap();
    assert_eq!(b, vec![0x01, 0xE0, 0x02, 0x70, 0x0B, 0x00, 0x09, 0x00]);
}

#[test]
fn encode_mips_nop_ret() {
    let m = lift_x86_32(&[0x90, 0xC3], "f").unwrap();
    let b = encode_module(&m, TargetIsa::Mips).unwrap();
    assert!(b.len() >= 4);
}

#[test]
fn encode_alpha_known_bytes() {
    let m = lift_x86_32(&[0x90, 0xC3], "f").unwrap();
    assert_eq!(
        encode_module(&m, TargetIsa::Alpha).unwrap(),
        [0x00, 0x00, 0xFF, 0x23, 0x01, 0x80, 0xFA, 0x6B,]
    );
}

#[test]
fn encode_alpha_add3() {
    let bytes = [0xB8, 0x01, 0x00, 0x00, 0x00, 0x83, 0xC0, 0x02, 0xC3];
    let m = lift_x86_32(&bytes, "add3").unwrap();
    let b = encode_module(&m, TargetIsa::Alpha).unwrap();
    assert_eq!(b, [0x01, 0x00, 0x1F, 0x20, 0x02, 0x00, 0x00, 0x20, 0x01, 0x80, 0xFA, 0x6B]);
}

#[test]
fn encode_parisc_nop_ret() {
    let m = lift_x86_32(&[0x90, 0xC3], "f").unwrap();
    assert_eq!(
        encode_module(&m, TargetIsa::PaRisc).unwrap(),
        [0x08, 0x00, 0x02, 0x40, 0xE8, 0x40, 0xC0, 0x00, 0x08, 0x00, 0x02, 0x40]
    );
}

#[test]
fn encode_coldfire_add3() {
    let bytes = [0xB8, 0x01, 0x00, 0x00, 0x00, 0x83, 0xC0, 0x02, 0xC3];
    let m = lift_x86_32(&bytes, "add3").unwrap();
    let b = encode_module(&m, TargetIsa::ColdFire).unwrap();
    assert_eq!(b, [0x70, 0x01, 0x06, 0x80, 0x00, 0x00, 0x00, 0x02, 0x4E, 0x75]);
}

#[test]
fn encode_coldfire_nonzero_regs() {
    let ops = vec![
        Op::Clear { dst: VReg(3) },
        Op::AddImm { dst: VReg(3), imm: 5 },
        Op::Inc { dst: VReg(3) },
        Op::Dec { dst: VReg(3) },
        Op::Push { src: VReg(3) },
        Op::Pop { dst: VReg(3) },
    ];
    for (op, want) in [
        (&ops[0], vec![0x42, 0x98]),
        (&ops[1], vec![0x06, 0x98, 0x00, 0x00, 0x00, 0x05]),
        (&ops[2], vec![0x52, 0x98]),
        (&ops[3], vec![0x53, 0x98]),
        (&ops[4], vec![0x2F, 0x03]),
        (&ops[5], vec![0x26, 0x1F]),
    ] {
        let m = module_from_ops(vec![op.clone()]);
        assert_eq!(encode_module(&m, TargetIsa::ColdFire).unwrap(), *want, "{op:?}");
    }
}

#[test]
fn encode_coldfire_push_pop_reg_field_capstone_verified() {
    let ops = vec![Op::Push { src: VReg(1) }, Op::Pop { dst: VReg(1) }];
    let m = module_from_ops(ops.clone());
    let bytes = encode_module(&m, TargetIsa::ColdFire).unwrap();
    assert_eq!(bytes, vec![0x2F, 0x01, 0x22, 0x1F]);
    let ops2 = vec![
        Op::LdMem { dst: VReg(3), base: VReg(3), offset: 0, width: 4 },
        Op::StMem { src: VReg(3), base: VReg(3), offset: 0, width: 4 },
    ];
    let m2 = module_from_ops(ops2.clone());
    let b2 = encode_module(&m2, TargetIsa::ColdFire).unwrap();
    assert_eq!(b2, vec![0x26, 0x13, 0x26, 0x83]);
}

#[test]
fn encode_m88k_ia64_i860_pending() {
    let m = lift_x86_32(&[0x90, 0xC3], "f").unwrap();
    for t in [TargetIsa::M88k, TargetIsa::Ia64, TargetIsa::I860] {
        assert!(
            matches!(encode_module(&m, t), Err(EncodeError::Unsupported(isa, _)) if isa == t),
            "expected Unsupported for {t:?}"
        );
    }
}

#[test]
fn unresolved_call_needs_a_symbol() {
    let ops = vec![Op::CallRel { rel: 0, target: None, symbol: None }];
    let r = encode_ops(&ops, TargetIsa::X86_64);
    assert_eq!(r, Err(EncodeError::UnresolvedBranch));
    assert_eq!(
        EncodeError::UnresolvedBranch.message(),
        "cannot encode unresolved call/jmp (need symbol)"
    );
}

#[test]
fn unsupported_message_carries_the_debug_text_of_the_op() {
    let ops = vec![Op::Push { src: VReg(2) }];
    match encode_ops(&ops, TargetIsa::Mips) {
        Err(EncodeError::Unsupported(t, what)) => {
            assert_eq!(t, TargetIsa::Mips);
            assert_eq!(what, "Push { src: VReg(2) }");
        },
        other => panic!("expected Unsupported, got {other:?}"),
    }
}

#[test]
fn empty_op_list_encodes_to_nothing() {
    for t in [TargetIsa::Mips, TargetIsa::Arm, TargetIsa::ColdFire] {
        assert_eq!(encode_ops(&Vec::new(), t), Ok(Vec::new()));
    }
}

#[test]
fn x86_short_immediate_outside_a_signed_byte_is_refused() {
    let add = vec![Op::AddImm { dst: VReg(1), imm: 0x100 }];
    match encode_ops(&add, TargetIsa::X86_64) {
        Err(EncodeError::Unsupported(t, what)) => {
            assert_eq!(t, TargetIsa::X86_64);
            assert_eq!(what, "AddImm { dst: VReg(1), imm: 256 }");
        },
        other => panic!("expected Unsupported, got {other:?}"),
    }
    let sub = vec![Op::SubImm { dst: VReg(3), imm: 0x80 }];
    assert!(matches!(encode_ops(&sub, TargetIsa::X86_64), Err(EncodeError::Unsupported(_, _))));
}

#[test]
fn x86_signed_byte_and_eax_long_forms_still_encode() {
    let ops = vec![
        Op::AddImm { dst: VReg(1), imm: 0xFFFF_FF80 },
        Op::SubImm { dst: VReg(2), imm: 0x7F },
        Op::AddImm { dst: VReg(0), imm: 0x100 },
    ];
    let b = encode_ops(&ops, TargetIsa::X86_64).unwrap();
    assert_eq!(
        b,
        vec![0x83, 0xC1, 0x80, 0x83, 0xEA, 0x7F, 0x05, 0x00, 0x01, 0x00, 0x00]
    );
}

#[test]
fn sixteen_bit_targets_refuse_subtracting_the_minimum() {
    let ops = vec![Op::SubImm { dst: VReg(0), imm: 0xFFFF_8000 }];
    for t in [TargetIsa::Mips, TargetIsa::Ppc, TargetIsa::Alpha] {
        assert!(
            matches!(encode_ops(&ops, t), Err(EncodeError::Unsupported(isa, _)) if isa == t),
            "{t:?}"
        );
    }
    let ok = vec![Op::SubImm { dst: VReg(0), imm: 0xFFFF_8001 }];
    assert_eq!(encode_ops(&ok, TargetIsa::Mips).unwrap(), vec![0x25, 0x08, 0x7F, 0xFF]);
}

#[test]
fn unsupported_text_of_branches_memory_and_gaps() {
    let call = Op::CallRel { rel: -4, target: Some(4096), symbol: Some("f\"x".into()) };
    assert_eq!(call.describe(), format!("{call:?}"));
    let jmp = Op::JmpRel { rel: 0, target: None, symbol: None };
    assert_eq!(jmp.describe(), "JmpRel { rel: 0, target: None, symbol: None }");
    let ld = Op::LdMem { dst: VReg(3), base: VReg(4), offset: -8, width: 4 };
    assert_eq!(ld.describe(), "LdMem { dst: VReg(3), base: VReg(4), offset: -8, width: 4 }");
    let st = Op::StMem { src: VReg(1), base: VReg(2), offset: 16, width: 2 };
    assert_eq!(st.describe(), format!("{st:?}"));
    let gap = Op::Unknown { offset: 7, bytes: vec![102, 0, 255], note: "odd".into() };
    assert_eq!(gap.describe(), "Unknown { offset: 7, bytes: [102, 0, 255], note: \"odd\" }");
    let empty = Op::Unknown { offset: 0, bytes: vec![], note: String::new() };
    assert_eq!(empty.describe(), format!("{empty:?}"));
    for op in [Op::Nop, Op::Ret, Op::Clear { dst: VReg(9) }, Op::MovImm { dst: VReg(0), imm: 5 }] {
        assert_eq!(op.describe(), format!("{op:?}"));
    }
}

#[test]
fn encoding_a_concatenation_concatenates_the_encodings() {
    let a = vec![Op::MovImm { dst: VReg(0), imm: 1 }, Op::Inc { dst: VReg(1) }];
    let b = vec![Op::AddImm { dst: VReg(2), imm: 9 }, Op::Ret];
    for t in [TargetIsa::X86_64, TargetIsa::Mips, TargetIsa::Arm, TargetIsa::ColdFire] {
        let mut ab = a.clone();
        ab.extend(b.clone());
        let mut want = encode_ops(&a, t).unwrap();
        want.extend(encode_ops(&b, t).unwrap());
        assert_eq!(encode_ops(&ab, t).unwrap(), want, "{t:?}");
    }
    let bad = vec![Op::Nop, Op::Push { src: VReg(1) }, Op::Pop { dst: VReg(2) }];
    match encode_ops(&bad, TargetIsa::Mips) {
        Err(EncodeError::Unsupported(_, what)) => assert_eq!(what, "Push { src: VReg(1) }"),
        other => panic!("expected the first failing op, got {other:?}"),
    }
}
