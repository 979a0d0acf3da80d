use base_lib::decode::{decode_ops, has_decoder};
use base_lib::encode::encode_ops;
use base_lib::semexec::{differential_ops, MachineState};
use base_lib::sir::{Op, VReg};
use base_lib::target::{SuperHFlavor, TargetIsa};
use base_lib::verify::{
    all_coverages, coverage, coverage_table, differential_kind, execute_kind, probe_kind,
    semantic_key, semantically_equal, verify_ops, KindProbe, SIR_OP_KINDS, UNMODELED_AXES,
};

#[test]
fn semantic_key_normalizes() {
    assert_eq!(semantic_key(&Op::Clear { dst: VReg(2) }), "movimm(2,0)");
    assert_eq!(semantic_key(&Op::Dec { dst: VReg(2) }), "addimm(2,-1)");
    assert_eq!(semantic_key(&Op::Inc { dst: VReg(2) }), "addimm(2,1)");
    assert_eq!(semantic_key(&Op::SubImm { dst: VReg(2), imm: 7 }), "addimm(2,-7)");
}

#[test]
fn mips_roundtrip_literal() {
    let r = verify_ops(
        vec![Op::MovImm { dst: VReg(0), imm: 1 }, Op::AddImm { dst: VReg(0), imm: 2 }, Op::Ret],
        TargetIsa::Mips,
    );
    assert!(r.literal_match, "{r:?}");
    assert!(r.verified());
}

#[test]
fn sh_clear_roundtrips_semantically() {
    let r = verify_ops(vec![Op::Clear { dst: VReg(0) }, Op::Ret], TargetIsa::SuperH(Default::default()));
    assert!(!r.literal_match, "decoder normalizes clear→mov #0");
    assert!(r.semantic_match, "{r:?}");
    assert!(r.verified());
}

#[test]
fn ppc_addimm_no_r0_collision() {
    let r = verify_ops(vec![Op::AddImm { dst: VReg(0), imm: 5 }, Op::Ret], TargetIsa::Ppc);
    assert!(r.literal_match, "{r:?}");
    assert!(r.verified());
}

#[test]
fn probes_dimensions() {
    assert_eq!(
        probe_kind(TargetIsa::Alpha, "mov_imm"),
        KindProbe { encoder: true, decoder: true, literal: true, semantic: true }
    );
    assert_eq!(
        probe_kind(TargetIsa::Alpha, "push"),
        KindProbe { encoder: false, decoder: false, literal: false, semantic: false }
    );
    assert!(probe_kind(TargetIsa::PaRisc, "ret").semantic);
    assert!(!probe_kind(TargetIsa::PaRisc, "mov_imm").encoder);
    assert!(probe_kind(TargetIsa::ColdFire, "push").literal);
    assert!(probe_kind(TargetIsa::ColdFire, "pop").literal);
    assert!(probe_kind(TargetIsa::Alpha, "add_imm").encoder);
    // SPARC has a decoder (see the decode tests), so only the encoder half is asserted.
    let sp = probe_kind(TargetIsa::Sparc, "mov_imm");
    assert!(sp.encoder);
}

#[test]
fn coverage_dimensions_are_separate() {
    let sh = coverage(TargetIsa::SuperH(SuperHFlavor::Sh4));
    assert_eq!(sh.encoder_pct, sh.decoder_pct);
    assert!(sh.literal_pct < sh.semantic_pct, "{sh:?}");
    assert_eq!(sh.semantic_pct, 67, "{sh:?}");
    assert_eq!(sh.status, "PARTIAL");
    assert!(sh.covered.contains(&"clear"));
}

#[test]
fn coverage_alpha_parisc_coldfire() {
    let a = coverage(TargetIsa::Alpha);
    assert_eq!((a.encoder_pct, a.decoder_pct, a.semantic_pct), (67, 67, 67));
    let p = coverage(TargetIsa::PaRisc);
    assert_eq!((p.encoder_pct, p.decoder_pct, p.semantic_pct), (17, 17, 17));
    let c = coverage(TargetIsa::ColdFire);
    assert_eq!(c.semantic_pct, 83, "{c:?}");
    assert!(c.covered.contains(&"push"));
    assert!(c.covered.contains(&"pop"));
}

#[test]
fn coverage_no_decoder_means_pending_not_full() {
    // The x86-64 decoder exists (see the decode tests); the no-decoder case is M88k.
    let x = coverage(TargetIsa::X86_64);
    assert!(x.encoder_pct > 0, "x86 encoder exists");
    let m88k = coverage(TargetIsa::M88k);
    assert_eq!(m88k.status, "NONE");
    assert!(!m88k.has_decoder);
}

#[test]
fn execute_and_differential_dimensions() {
    for t in TargetIsa::all_canonical().iter() {
        assert_eq!(coverage(*t).execute_pct, 83, "executor kind set differs for {t:?}");
    }
    let cases = [
        (TargetIsa::Mips, 67u32),
        (TargetIsa::Ppc, 67),
        (TargetIsa::SuperH(SuperHFlavor::Sh4), 33),
        (TargetIsa::Alpha, 50),
        (TargetIsa::PaRisc, 17),
        (TargetIsa::ColdFire, 83),
    ];
    for (t, want) in cases {
        let c = coverage(t);
        assert_eq!(c.differential_pct, want, "differential for {t:?}");
    }
    assert_eq!(coverage(TargetIsa::M88k).differential_pct, 0);
}

#[test]
fn differential_detects_alpha_sign_extension() {
    let state = MachineState::new().with_gpr(26, 0x8000);
    let ops = vec![
        Op::MovImm { dst: VReg(0), imm: 0 },
        Op::AddImm { dst: VReg(0), imm: 0xFFFF_FFFF },
        Op::Ret,
    ];
    assert!(!differential_ops(ops.clone(), TargetIsa::Alpha, &state).matched());
    assert!(differential_ops(ops, TargetIsa::Mips, &state).matched());
}

#[test]
fn coverage_table_renders() {
    let t = coverage_table();
    assert!(t.contains("mips"));
    assert!(t.contains("alpha"));
    assert!(t.contains("UNMODELED_AXES") || t.contains("not modeled"));
    assert!(t.lines().count() >= 16);
}

#[test]
fn semantic_equality_ignores_clear_versus_mov_zero() {
    let a = [Op::Clear { dst: VReg(1) }, Op::Ret];
    let b = [Op::MovImm { dst: VReg(1), imm: 0 }, Op::Ret];
    assert!(semantically_equal(&a, &b));
    let c = [Op::MovImm { dst: VReg(1), imm: 1 }, Op::Ret];
    assert!(!semantically_equal(&a, &c));
    assert!(!semantically_equal(&a, &a[..1]));
}

#[test]
fn verify_reports_encode_failure_with_a_note() {
    let r = verify_ops(vec![Op::Push { src: VReg(0) }], TargetIsa::Mips);
    assert!(!r.encode_ok);
    assert!(!r.verified());
    assert!(r.ops_out.is_empty());
    assert!(!r.note.is_empty());
}

#[test]
fn verify_reports_the_first_mismatch() {
    let r = verify_ops(vec![Op::Clear { dst: VReg(0) }, Op::Ret], TargetIsa::SuperH(SuperHFlavor::Sh2));
    assert_eq!(
        r.first_mismatch,
        Some((0, Op::Clear { dst: VReg(0) }, Op::MovImm { dst: VReg(0), imm: 0 }))
    );
}

#[test]
fn every_kind_executes_or_not_by_the_executor_set() {
    assert_eq!(SIR_OP_KINDS.len(), 12);
    assert!(execute_kind(TargetIsa::Mips, "add_imm"));
    assert!(!execute_kind(TargetIsa::Mips, "call"));
    assert!(differential_kind(TargetIsa::ColdFire, "push"));
    assert!(!differential_kind(TargetIsa::M88k, "nop"));
}

#[test]
fn one_coverage_row_per_canonical_target() {
    let all = all_coverages();
    assert_eq!(all.len(), TargetIsa::all_canonical().len());
    assert!(coverage_table().contains(UNMODELED_AXES));
}

#[test]
fn coverage_rows_by_dimension() {
    let rows = [
        (TargetIsa::Mips, [67u32, 67, 67, 67, 83, 67]),
        (TargetIsa::Ppc, [67, 67, 58, 67, 83, 67]),
        (TargetIsa::SuperH(SuperHFlavor::Sh4), [67, 67, 58, 67, 83, 33]),
        (TargetIsa::Alpha, [67, 67, 58, 67, 83, 50]),
        (TargetIsa::PaRisc, [17, 17, 17, 17, 83, 17]),
        (TargetIsa::ColdFire, [83, 83, 83, 83, 83, 83]),
        (TargetIsa::AArch64, [67, 67, 67, 67, 83, 33]),
        (TargetIsa::M88k, [0, 0, 0, 0, 83, 0]),
    ];
    for (t, want) in rows {
        let c = coverage(t);
        let got = [c.encoder_pct, c.decoder_pct, c.literal_pct, c.semantic_pct, c.execute_pct, c.differential_pct];
        assert_eq!(got, want, "{t:?}");
    }
}

#[test]
fn semantic_key_wraps_the_negated_minimum() {
    let d = VReg(4);
    assert_eq!(
        semantic_key(&Op::SubImm { dst: d, imm: 0x8000_0000 }),
        semantic_key(&Op::AddImm { dst: d, imm: 0x8000_0000 })
    );
    assert_eq!(semantic_key(&Op::SubImm { dst: d, imm: 0x8000_0000 }), "addimm(4,-2147483648)");
    for imm in [0u32, 1, 0x7F, 0x8000, 0x7FFF_FFFF, 0xFFFF_FFFF] {
        assert_eq!(
            semantic_key(&Op::SubImm { dst: d, imm }),
            semantic_key(&Op::AddImm { dst: d, imm: imm.wrapping_neg() })
        );
    }
    assert_eq!(semantic_key(&Op::Dec { dst: d }), semantic_key(&Op::AddImm { dst: d, imm: 0xFFFF_FFFF }));
    assert_eq!(semantic_key(&Op::Clear { dst: d }), semantic_key(&Op::MovImm { dst: d, imm: 0 }));
}

#[test]
fn coverage_status_follows_the_percentages_which_are_ordered() {
    for c in all_coverages() {
        let want = if c.semantic_pct == 100 {
            "FULL"
        } else if c.semantic_pct > 0 {
            "PARTIAL"
        } else if c.encoder_pct > 0 {
            "PENDING"
        } else {
            "NONE"
        };
        assert_eq!(c.status, want, "{:?}", c.target);
        assert!(c.literal_pct <= c.semantic_pct, "{:?}", c.target);
        assert!(c.semantic_pct <= c.decoder_pct, "{:?}", c.target);
        assert!(c.decoder_pct <= c.encoder_pct, "{:?}", c.target);
    }
}

#[test]
fn aarch64_movz_round_trips_into_any_register() {
    let r = verify_ops(
        vec![Op::MovImm { dst: VReg(3), imm: 0x1234 }, Op::MovImm { dst: VReg(30), imm: 0xFFFF }, Op::Ret],
        TargetIsa::AArch64,
    );
    assert!(r.literal_match, "{r:?}");
    assert_eq!(r.ops_out, r.ops_in);
}

#[test]
fn x86_eax_long_forms_and_signed_bytes_round_trip() {
    let r = verify_ops(
        vec![
            Op::AddImm { dst: VReg(0), imm: 0x100 },
            Op::SubImm { dst: VReg(0), imm: 0x8000_0000 },
            Op::AddImm { dst: VReg(5), imm: 0xFFFF_FF80 },
            Op::Ret,
        ],
        TargetIsa::X86_64,
    );
    assert!(r.semantic_match, "{r:?}");
    assert!(r.verified());
}

#[test]
fn whatever_an_encoder_accepts_on_carried_registers_round_trips() {
    let candidates = vec![
        Op::Nop,
        Op::MovImm { dst: VReg(3), imm: 0x7F },
        Op::AddImm { dst: VReg(5), imm: 0xFFFF_FF80 },
        Op::SubImm { dst: VReg(2), imm: 0x7F },
        Op::Clear { dst: VReg(7) },
        Op::Inc { dst: VReg(1) },
        Op::Dec { dst: VReg(6) },
        Op::Push { src: VReg(4) },
        Op::Pop { dst: VReg(4) },
        Op::Ret,
    ];
    for t in TargetIsa::all_canonical() {
        if !has_decoder(t) {
            continue;
        }
        let ops: Vec<Op> = candidates
            .iter()
            .filter(|op| encode_ops(&vec![(*op).clone()], t).is_ok())
            .cloned()
            .collect();
        let bytes = encode_ops(&ops, t).unwrap();
        let out = decode_ops(&bytes, t).unwrap();
        assert!(out.iter().all(|o| !matches!(o, Op::Unknown { .. })), "{t:?}: {out:?}");
        assert!(semantically_equal(&ops, &out), "{t:?}: {ops:?} vs {out:?}");
    }
}
