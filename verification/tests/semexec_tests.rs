use base_lib::lift::lift_x86_32;
use base_lib::semexec::{
    differential_ops, differential_sweep, endianness, execute, execute_isa, mask, sweep_programs,
    sweep_states, word_bits, ExecError, MachineState, MemError, LINK, MEM_SIZE, SP,
};
use base_lib::sir::{Op, VReg};
use base_lib::target::{Endianness, SuperHFlavor, TargetIsa};

const ADD3: [u8; 9] = [0xB8, 0x01, 0x00, 0x00, 0x00, 0x83, 0xC0, 0x02, 0xC3];

fn add3_ops() -> Vec<Op> {
    let m = lift_x86_32(&ADD3, "add3").unwrap();
    m.functions[0].blocks[0].ops.clone()
}

#[test]
fn reference_executes_arithmetic() {
    let ops = vec![Op::MovImm { dst: VReg(0), imm: 10 }, Op::AddImm { dst: VReg(0), imm: 5 }, Op::Ret];
    let mut st = MachineState::new().with_gpr(LINK, 0x2000);
    execute(&ops, &mut st, 32, Endianness::Little).unwrap();
    assert_eq!(st.gpr(0), 15);
    assert_eq!(st.pc, 0x2000);
}

#[test]
fn width_changes_wrap_behavior() {
    let ops = vec![Op::MovImm { dst: VReg(0), imm: 0xFFFF_FFFF }, Op::Inc { dst: VReg(0) }];
    let mut s32 = MachineState::new();
    execute(&ops, &mut s32, 32, Endianness::Little).unwrap();
    assert_eq!(s32.gpr(0), 0);
    let mut s64 = MachineState::new();
    execute(&ops, &mut s64, 64, Endianness::Little).unwrap();
    assert_eq!(s64.gpr(0), 0x1_0000_0000);
}

#[test]
fn memory_load_store_endianness() {
    let mut st = MachineState::new();
    st.store(0x100, 4, Endianness::Big, 0x1122_3344).unwrap();
    assert_eq!(&st.mem[0x100..0x104], &[0x11, 0x22, 0x33, 0x44]);
    assert_eq!(st.load(0x100, 4, Endianness::Big).unwrap(), 0x1122_3344);
    assert_eq!(st.load(0x100, 4, Endianness::Little).unwrap(), 0x4433_2211);
    assert_eq!(st.load(0x102, 2, Endianness::Big).unwrap(), 0x3344);
    assert!(matches!(st.load(0xFFFF, 4, Endianness::Big), Err(MemError::OutOfBounds { .. })));
    assert_eq!(st.load(0x100, 3, Endianness::Big), Err(MemError::BadWidth(3)));
}

#[test]
fn push_pop_roundtrip_through_memory() {
    let ops = vec![
        Op::MovImm { dst: VReg(0), imm: 0xDEAD_BEEF },
        Op::Push { src: VReg(0) },
        Op::Clear { dst: VReg(0) },
        Op::Pop { dst: VReg(0) },
    ];
    let mut st = MachineState::new().with_gpr(SP, 0x8000);
    execute(&ops, &mut st, 32, Endianness::Big).unwrap();
    assert_eq!(st.gpr(0), 0xDEAD_BEEF);
    assert_eq!(st.gpr(SP), 0x8000);
    assert_eq!(&st.mem[0x7FFC..0x8000], &[0xDE, 0xAD, 0xBE, 0xEF]);
}

#[test]
fn add3_differential_matches_for_all_decoders() {
    let ops = add3_ops();
    let state = MachineState::new().with_gpr(LINK, 0x8000);
    for t in [
        TargetIsa::Mips,
        TargetIsa::Ppc,
        TargetIsa::SuperH(SuperHFlavor::Sh4),
        TargetIsa::Alpha,
        TargetIsa::ColdFire,
    ] {
        let r = differential_ops(ops.clone(), t, &state);
        assert!(
            r.matched(),
            "add3 differential failed for {t:?}: note={} ref={:?} isa={:?}",
            r.note,
            r.reference,
            r.isa
        );
    }
    let p = differential_ops(ops, TargetIsa::PaRisc, &state);
    assert!(!p.matched());
    assert!(p.note.starts_with("encode:"));
}

#[test]
fn alpha_negative_add_reveals_sign_extension() {
    let ops = vec![
        Op::MovImm { dst: VReg(0), imm: 0 },
        Op::AddImm { dst: VReg(0), imm: 0xFFFF_FFFF },
        Op::Ret,
    ];
    let state = MachineState::new().with_gpr(LINK, 0x8000);
    let r = differential_ops(ops.clone(), TargetIsa::Alpha, &state);
    assert!(!r.matched(), "alpha sign-extension gap must be detected");
    let m32 = differential_ops(ops, TargetIsa::Mips, &state);
    assert!(m32.matched(), "mips 32-bit wrap should agree: {m32:?}");
}

#[test]
fn unsupported_ops_are_gaps_not_passes() {
    let ops = vec![Op::CallRel { rel: 0, target: Some(0), symbol: Some("f".into()) }];
    let state = MachineState::new();
    let r = differential_ops(ops, TargetIsa::Mips, &state);
    assert!(!r.matched());
    assert_eq!(r.exec_error, Some(ExecError::Unsupported("call")));
}

#[test]
fn push_pop_now_execute_on_coldfire() {
    let ops = vec![Op::Push { src: VReg(0) }, Op::Pop { dst: VReg(0) }, Op::Ret];
    let state = MachineState::new().with_gpr(SP, 0x8000).with_gpr(LINK, 0x8000);
    let r = differential_ops(ops.clone(), TargetIsa::ColdFire, &state);
    assert!(r.matched(), "{r:?}");
    assert!(r.exec_error.is_none());
}

#[test]
fn sweep_is_clean_except_documented_alpha_gap() {
    for t in [
        TargetIsa::Mips,
        TargetIsa::Ppc,
        TargetIsa::SuperH(SuperHFlavor::Sh4),
        TargetIsa::ColdFire,
        TargetIsa::AArch64,
        TargetIsa::Arm,
        TargetIsa::Sparc,
        TargetIsa::X86_64,
    ] {
        let s = differential_sweep(t);
        assert!(s.all_match(), "unexpected sweep mismatch for {t:?}: {:?}", s.mismatches.first());
    }
    let a = differential_sweep(TargetIsa::Alpha);
    assert!(!a.all_match());
    let bad_kinds: Vec<&str> =
        a.mismatches.iter().map(|(p, _, _)| p.split(':').next().unwrap()).collect();
    assert!(!bad_kinds.is_empty());
    assert!(
        bad_kinds.iter().all(|k| *k == "add_imm" || *k == "sub_imm"),
        "alpha sweep must fail only on the sign-extension kinds: {bad_kinds:?}"
    );
    assert!(a.applicable > 0, "alpha sweep should have applicable programs");
    assert!(a.matched > 0, "alpha sweep should pass most programs");
}

#[test]
fn store_then_load_gives_back_the_value() {
    for (w, v, e) in [
        (1u8, 0xABu64, Endianness::Little),
        (2, 0xBEEF, Endianness::Big),
        (4, 0xDEAD_BEEF, Endianness::Little),
        (8, 0x0123_4567_89AB_CDEF, Endianness::Big),
    ] {
        let mut st = MachineState::new();
        st.store(0x2000, w, e, v).unwrap();
        assert_eq!(st.load(0x2000, w, e).unwrap(), v);
    }
}

#[test]
fn store_truncates_to_width() {
    let mut st = MachineState::new();
    st.store(0x10, 2, Endianness::Little, 0x1234_5678).unwrap();
    assert_eq!(st.load(0x10, 2, Endianness::Little).unwrap(), 0x5678);
    assert_eq!(&st.mem[0x10..0x13], &[0x78, 0x56, 0x00]);
}

#[test]
fn out_of_bounds_store_leaves_memory_alone() {
    let mut st = MachineState::new();
    let before = st.mem.clone();
    let last = (MEM_SIZE - 2) as u64;
    assert_eq!(
        st.store(last, 4, Endianness::Big, 7),
        Err(MemError::OutOfBounds { address: last, size: 4 })
    );
    assert_eq!(st.store(0, 5, Endianness::Big, 7), Err(MemError::BadWidth(5)));
    assert_eq!(st.mem, before);
}

#[test]
fn isa_widths_and_byte_orders() {
    assert_eq!(word_bits(TargetIsa::Alpha), 64);
    assert_eq!(word_bits(TargetIsa::Mips), 32);
    assert_eq!(endianness(TargetIsa::Mips), Endianness::Big);
    assert_eq!(endianness(TargetIsa::X86_64), Endianness::Little);
    assert_eq!(mask(8), 0xFF);
    assert_eq!(mask(32), 0xFFFF_FFFF);
    assert_eq!(mask(64), u64::MAX);
}

#[test]
fn sub_and_dec_wrap_at_word_width() {
    let ops = vec![Op::Clear { dst: VReg(1) }, Op::Dec { dst: VReg(1) }, Op::SubImm { dst: VReg(1), imm: 1 }];
    let mut st = MachineState::new();
    execute_isa(&ops, &mut st, TargetIsa::Mips).unwrap();
    assert_eq!(st.gpr(1), 0xFFFF_FFFE);
    let mut st64 = MachineState::new();
    execute_isa(&ops, &mut st64, TargetIsa::Alpha).unwrap();
    assert_eq!(st64.gpr(1), u64::MAX - 1);
}

#[test]
fn gap_stops_execution_with_unsupported() {
    let ops = vec![
        Op::MovImm { dst: VReg(0), imm: 3 },
        Op::Unknown { offset: 0, bytes: vec![0x66], note: "x".into() },
        Op::MovImm { dst: VReg(0), imm: 9 },
    ];
    let mut st = MachineState::new();
    assert_eq!(execute(&ops, &mut st, 32, Endianness::Little), Err(ExecError::Unsupported("gap")));
    assert_eq!(st.gpr(0), 3);
}

#[test]
fn pop_from_the_top_of_memory_is_out_of_bounds() {
    let ops = vec![Op::Pop { dst: VReg(0) }];
    let mut st = MachineState::new().with_gpr(SP, MEM_SIZE as u64);
    let r = execute(&ops, &mut st, 32, Endianness::Little);
    assert!(matches!(r, Err(ExecError::Memory(MemError::OutOfBounds { .. }))));
}

#[test]
fn sweep_inputs_are_what_the_matrix_promises() {
    let programs = sweep_programs();
    assert!(!programs.is_empty());
    assert!(programs.iter().any(|(label, _)| label.starts_with("add_imm:")));
    let states = sweep_states();
    assert_eq!(states.len(), 4);
    assert_eq!(states[3].gpr(0), 0xFFFF_FFFF);
    assert_eq!(states[0].gpr(LINK), states[1].gpr(LINK));
}

#[test]
fn sweep_counts_per_target() {
    for (t, applicable, matched) in [
        (TargetIsa::ColdFire, 256usize, 256usize),
        (TargetIsa::Mips, 176, 176),
        (TargetIsa::AArch64, 136, 136),
        (TargetIsa::Alpha, 176, 160),
    ] {
        let s = differential_sweep(t);
        assert_eq!((s.applicable, s.matched), (applicable, matched), "{t:?}");
        assert_eq!(s.mismatches.len(), applicable - matched, "{t:?}");
    }
}

#[test]
fn store_past_the_address_space_is_out_of_bounds() {
    let mut st = MachineState::new();
    let r = st.store(u64::MAX - 3, 4, Endianness::Big, 0);
    assert_eq!(r, Err(MemError::OutOfBounds { address: u64::MAX - 3, size: 4 }));
    assert!(st.same_state(&MachineState::new()));
    assert_eq!(
        st.load(u64::MAX - 1, 8, Endianness::Little),
        Err(MemError::OutOfBounds { address: u64::MAX - 1, size: 8 })
    );
}

#[test]
fn add_immediate_wraps_at_the_width() {
    let ops = vec![Op::AddImm { dst: VReg(0), imm: 1 }];
    let mut st = MachineState::new().with_gpr(0, u64::MAX);
    assert_eq!(execute(&ops, &mut st, 64, Endianness::Little), Ok(()));
    assert_eq!(st.gpr(0), 0);
    let mut s32 = MachineState::new().with_gpr(0, 0xFFFF_FFFF);
    execute(&[Op::AddImm { dst: VReg(0), imm: 2 }], &mut s32, 32, Endianness::Little).unwrap();
    assert_eq!(s32.gpr(0), 1);
}

#[test]
fn push_below_four_fails_with_a_memory_error() {
    let ops = vec![Op::Push { src: VReg(0) }];
    let mut st = MachineState::new().with_gpr(SP, 2);
    let r = execute(&ops, &mut st, 32, Endianness::Little);
    assert!(matches!(r, Err(ExecError::Memory(MemError::OutOfBounds { size: 4, .. }))), "{r:?}");
    assert_eq!(st.gpr(SP), 2);
    let mut top = MachineState::new().with_gpr(SP, u64::MAX - 1);
    let r = execute(&[Op::Pop { dst: VReg(1) }], &mut top, 64, Endianness::Little);
    assert_eq!(r, Err(ExecError::Memory(MemError::OutOfBounds { address: u64::MAX - 1, size: 4 })));
}

#[test]
fn store_leaves_disjoint_ranges_and_reads_back_reversed_in_the_other_order() {
    let mut st = MachineState::new();
    st.store(0x100, 4, Endianness::Little, 0xAABB_CCDD).unwrap();
    let before = st.load(0x104, 4, Endianness::Big).unwrap();
    st.store(0x100, 4, Endianness::Big, 0x1122_3344).unwrap();
    assert_eq!(st.load(0x104, 4, Endianness::Big).unwrap(), before);
    assert_eq!(st.load(0x100, 4, Endianness::Little).unwrap(), 0x4433_2211);
    assert_eq!(st.load(0x100, 4, Endianness::Big).unwrap(), 0x1122_3344);
}
