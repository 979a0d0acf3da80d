use base_lib::elf::{arch_ok, lift_elf_text, load_elf_text, select_text, ElfError, ElfText, SectionInfo};
use base_lib::emit::{emit_module, BANNER};
use base_lib::lift::{lift_x86_32, lift_x86_32_at, LiftError};
use base_lib::sir::{Op, VReg};
use base_lib::target::{Endianness, SuperHFlavor, TargetIsa};
use base_lib::text::{dec_string, push_dec, push_hex, push_hex_alt, push_hex_w, push_sdec};

#[test]
fn emit_all_targets_nop_ret() {
    let m = lift_x86_32(&[0x90, 0xC3], "demo").unwrap();
    for t in TargetIsa::all_canonical().iter() {
        let listing = emit_module(&m, *t);
        assert!(listing.contains("demo"), "missing label for {t:?}");
        assert!(listing.contains("static_recomp_complete"), "honesty banner missing for {t:?}");
    }
}

#[test]
fn emit_clear_x86_64() {
    let m = lift_x86_32(&[0x31, 0xC0, 0xC3], "z").unwrap();
    let a = emit_module(&m, TargetIsa::X86_64);
    assert!(a.contains("xor %eax, %eax"));
}

#[test]
fn emitted_text_starts_with_the_banner() {
    let m = lift_x86_32(&[0x90, 0xC3], "f").unwrap();
    for t in TargetIsa::all_canonical().iter() {
        let listing = emit_module(&m, *t);
        assert!(listing.contains(BANNER), "{t:?}");
    }
}

#[test]
fn lift_maps_the_x86_subset() {
    let m = lift_x86_32(
        &[0x90, 0xB9, 0x07, 0x00, 0x00, 0x00, 0x83, 0xC1, 0xFF, 0x31, 0xDB, 0x41, 0x4A, 0x53, 0x5E, 0xC3],
        "f",
    )
    .unwrap();
    assert_eq!(m.name, "f");
    assert_eq!(m.source_isa, "x86_32");
    assert_eq!(m.functions.len(), 1);
    assert_eq!(m.functions[0].blocks[0].label, "entry");
    assert_eq!(
        m.functions[0].blocks[0].ops,
        vec![
            Op::Nop,
            Op::MovImm { dst: VReg(1), imm: 7 },
            Op::AddImm { dst: VReg(1), imm: 0xFFFF_FFFF },
            Op::Clear { dst: VReg(3) },
            Op::Inc { dst: VReg(1) },
            Op::Dec { dst: VReg(2) },
            Op::Push { src: VReg(3) },
            Op::Pop { dst: VReg(6) },
            Op::Ret,
        ]
    );
    assert_eq!(m.lift_gaps, 0);
}

#[test]
fn lift_errors_on_empty_and_truncated_input() {
    assert_eq!(lift_x86_32(&[], "f"), Err(LiftError::Empty));
    assert_eq!(lift_x86_32(&[0x90, 0xB8, 0x01], "f"), Err(LiftError::Truncated { offset: 1 }));
    assert_eq!(LiftError::Empty.message(), "empty input: nothing to lift");
    assert_eq!(LiftError::Truncated { offset: 26 }.message(), "truncated instruction at 0x1a");
}

#[test]
fn lift_records_unknown_bytes_as_gaps() {
    let m = lift_x86_32(&[0x0F, 0x0B, 0xC3], "g").unwrap();
    assert_eq!(m.lift_gaps, 2);
    assert!(matches!(m.functions[0].blocks[0].ops[0], Op::Unknown { offset: 0, .. }));
    assert_eq!(m.count_gaps(), 2);
}

#[test]
fn lift_resolves_branch_targets_from_the_load_address() {
    let m = lift_x86_32_at(&[0xE8, 0x10, 0x00, 0x00, 0x00, 0xC3], "b", 0x1000).unwrap();
    assert_eq!(
        m.functions[0].blocks[0].ops[0],
        Op::CallRel { rel: 0x10, target: Some(0x1015), symbol: None }
    );
}

fn section(name: &str, executable: bool, data: Result<Vec<u8>, String>, address: u64) -> SectionInfo {
    let elf_flags = Some(if executable { 0x6 } else { 0x2 });
    SectionInfo { name: Some(name.into()), elf_flags, data, address }
}

#[test]
fn elf_text_prefers_dot_text_then_executable_sections() {
    let secs = vec![
        section(".init", true, Ok(vec![0x90]), 0x100),
        section(".text", true, Ok(vec![0x90, 0xC3]), 0x200),
    ];
    let t = select_text("I386".into(), false, &secs, "a.o".into()).unwrap();
    assert_eq!(t.section_name, ".text");
    assert_eq!(t.vma, 0x200);
    assert_eq!(t.bytes, vec![0x90, 0xC3]);
    assert_eq!(t.path, "a.o");
    assert!(!t.is_64);

    let secs = vec![
        section(".text", true, Ok(vec![]), 0x200),
        section(".data", false, Ok(vec![1]), 0x300),
        section(".code", true, Ok(vec![0xC3]), 0x400),
    ];
    let t = select_text("X86_64".into(), true, &secs, "b.o".into()).unwrap();
    assert_eq!(t.section_name, ".code");
    assert_eq!(t.vma, 0x400);
}

#[test]
fn elf_errors_name_their_cause() {
    let secs = vec![section(".text", true, Ok(vec![0x90]), 0)];
    assert!(matches!(
        select_text("Aarch64".into(), true, &secs, "c.o".into()),
        Err(ElfError::UnsupportedArch(a)) if a == "Aarch64"
    ));
    let none = vec![section(".data", false, Ok(vec![1]), 0)];
    assert!(matches!(select_text("I386".into(), false, &none, "c.o".into()), Err(ElfError::NoText)));
    let bad = vec![section(".text", true, Err("compressed".into()), 0)];
    assert!(matches!(
        select_text("I386".into(), false, &bad, "c.o".into()),
        Err(ElfError::Object(m)) if m == "compressed"
    ));
    let not_elf = [section(".code", true, Ok(vec![0xC3]), 0)];
    let mut other = vec![];
    other.extend(not_elf);
    other[0].elf_flags = None;
    assert!(matches!(select_text("I386".into(), false, &other, "c.o".into()), Err(ElfError::NoText)));
    assert!(arch_ok("X86_64"));
    assert!(!arch_ok("x86_64"));
}

#[test]
fn elf_lift_records_provenance() {
    let text = ElfText {
        bytes: vec![0x90, 0xC3],
        vma: 0x8000,
        section_name: ".text".into(),
        is_64: false,
        path: "p.o".into(),
        architecture: "I386".into(),
    };
    let (t, m) = lift_elf_text(text, "main").unwrap();
    assert_eq!(t.vma, 0x8000);
    assert_eq!(m.source, Some("p.o:.text".to_string()));
    assert_eq!(m.text_vma, Some(0x8000));
    assert_eq!(m.functions[0].blocks[0].ops, vec![Op::Nop, Op::Ret]);
    let empty = ElfText {
        bytes: vec![],
        vma: 0,
        section_name: ".text".into(),
        is_64: false,
        path: "e.o".into(),
        architecture: "I386".into(),
    };
    assert!(matches!(lift_elf_text(empty, "main"), Err(ElfError::Lift(LiftError::Empty))));
}

#[test]
fn number_text_matches_std_formatting() {
    for n in [0u64, 7, 10, 255, 4096, u64::MAX] {
        let mut s = String::new();
        push_dec(&mut s, n);
        assert_eq!(s, format!("{n}"));
        assert_eq!(dec_string(n), format!("{n}"));
        let mut h = String::new();
        push_hex(&mut h, n);
        assert_eq!(h, format!("{n:x}"));
        let mut w = String::new();
        push_hex_w(&mut w, n, 8);
        assert_eq!(w, format!("{n:08x}"));
        let mut a = String::new();
        push_hex_alt(&mut a, n, 4);
        assert_eq!(a, format!("{n:#06x}"));
    }
    for v in [0i64, -1, 42, i64::MIN, i64::MAX] {
        let mut s = String::from("k=");
        push_sdec(&mut s, v);
        assert_eq!(s, format!("k={v}"));
    }
}

#[test]
fn target_names_and_byte_orders() {
    let all = TargetIsa::all_canonical();
    assert_eq!(all.len(), 14);
    assert_eq!(TargetIsa::SuperH(SuperHFlavor::Sh4).name(), "sh4");
    assert_eq!(TargetIsa::PaRisc.name(), "parisc");
    assert_eq!(SuperHFlavor::default(), SuperHFlavor::Sh2);
    assert_eq!(TargetIsa::X86_64.catalog_byte_order(), None);
    assert_eq!(TargetIsa::ColdFire.catalog_byte_order(), Some(Endianness::Big));
    assert_eq!(TargetIsa::Alpha.catalog_byte_order(), Some(Endianness::Little));
}

#[test]
fn bytes_that_are_not_an_object_file_are_refused_by_the_parser() {
    assert!(matches!(load_elf_text(b"not an elf file", "x".into()), Err(ElfError::Object(_))));
    assert!(matches!(load_elf_text(&[], "x".into()), Err(ElfError::Object(_))));
}

/// A relocatable i386 ELF with one `.text` section (`nop; ret`) at 0x1000.
fn tiny_elf32() -> Vec<u8> {
    let mut f: Vec<u8> = Vec::new();
    let u16le = |f: &mut Vec<u8>, v: u16| f.extend_from_slice(&v.to_le_bytes());
    let u32le = |f: &mut Vec<u8>, v: u32| f.extend_from_slice(&v.to_le_bytes());
    f.extend_from_slice(&[0x7f, b'E', b'L', b'F', 1, 1, 1, 0, 0, 0, 0, 0, 0, 0, 0, 0]);
    u16le(&mut f, 1); // ET_REL
    u16le(&mut f, 3); // EM_386
    u32le(&mut f, 1);
    u32le(&mut f, 0); // entry
    u32le(&mut f, 0); // phoff
    u32le(&mut f, 72); // shoff
    u32le(&mut f, 0); // flags
    u16le(&mut f, 52);
    u16le(&mut f, 0);
    u16le(&mut f, 0);
    u16le(&mut f, 40);
    u16le(&mut f, 3);
    u16le(&mut f, 2);
    f.extend_from_slice(&[0x90, 0xC3]); // .text at 52
    f.extend_from_slice(b"\0.text\0.shstrtab\0"); // at 54, 17 bytes
    f.push(0); // pad to 72
    let mut sh = |f: &mut Vec<u8>, vals: [u32; 10]| {
        for v in vals {
            f.extend_from_slice(&v.to_le_bytes());
        }
    };
    sh(&mut f, [0; 10]);
    sh(&mut f, [1, 1, 6, 0x1000, 52, 2, 0, 0, 1, 0]);
    sh(&mut f, [7, 3, 0, 0, 54, 17, 0, 0, 1, 0]);
    f
}

#[test]
fn a_tiny_i386_object_yields_its_text() {
    let t = load_elf_text(&tiny_elf32(), "tiny.o".into()).unwrap();
    assert_eq!(t.bytes, vec![0x90, 0xC3]);
    assert_eq!(t.vma, 0x1000);
    assert_eq!(t.section_name, ".text");
    assert_eq!(t.architecture, "I386");
    assert!(!t.is_64);
    let (_, m) = lift_elf_text(t, "f").unwrap();
    assert_eq!(m.functions[0].blocks[0].ops, vec![Op::Nop, Op::Ret]);
    assert_eq!(m.source, Some("tiny.o:.text".to_string()));
}

#[test]
fn an_executable_section_without_a_readable_name_is_called_exec() {
    let secs = vec![
        SectionInfo { name: None, elf_flags: Some(0x6), data: Ok(vec![0x90, 0xC3]), address: 0x400 },
        section(".data", false, Ok(vec![1, 2]), 0x800),
    ];
    let t = select_text("X86_64".into(), true, &secs, "b.o".into()).unwrap();
    assert_eq!(t.section_name, "exec");
    assert_eq!(t.vma, 0x400);
    assert_eq!(t.bytes, vec![0x90, 0xC3]);
}
