use base_lib::classify::{
    apply_classify_override, parse_block_kind_name, parse_classify_address_map,
    parse_classify_kind_labels, parse_u64_addr, parse_u64_radix, prefix_mmio_by_classify, trim,
};
use base_lib::hw::{BlockKind, FunctionalBlock, HardwareSpec, TimingProfile};
use base_lib::mmio::{
    accesses_from_disasm, heuristic_scan, is_likely_mmio, mock_mmio_from_binary, strip_headers,
    unique_accesses, MmioAccess, MmioAccessType, MmioCandidate,
};

fn unknown_block(id: &str, base_address: u64) -> FunctionalBlock {
    FunctionalBlock {
        id: id.into(),
        kind: BlockKind::Unknown,
        base_address,
        size: 0x1000,
        registers: vec![],
        timing: TimingProfile { activation: None, processing: None },
    }
}

#[test]
fn classify_map_parses_uart_spi_pages() {
    let map = parse_classify_address_map("0x40034000=uart,0x4003c000=spi").unwrap();
    assert_eq!(map.get(&0x40034000), Some(&BlockKind::Uart));
    assert_eq!(map.get(&0x4003c000), Some(&BlockKind::Spi));
}

#[test]
fn classify_global_uart_still_all_blocks() {
    let mut spec = HardwareSpec::empty();
    spec.blocks.push(unknown_block("a", 0x40034000));
    spec.blocks.push(unknown_block("b", 0x4003c000));
    apply_classify_override(&mut spec, "uart");
    assert!(spec.blocks.iter().all(|b| b.kind == BlockKind::Uart));
}

#[test]
fn classify_map_assigns_per_page() {
    let mut spec = HardwareSpec::empty();
    for (id, addr) in [("u", 0x40034000u64), ("s", 0x4003c000u64)] {
        spec.blocks.push(unknown_block(id, addr));
    }
    apply_classify_override(&mut spec, "0x40034000=uart,0x4003c000=spi");
    assert_eq!(spec.blocks[0].kind, BlockKind::Uart);
    assert_eq!(spec.blocks[1].kind, BlockKind::Spi);
}

#[test]
fn test_is_likely_mmio() {
    assert!(is_likely_mmio(0x10000000));
    assert!(is_likely_mmio(0xA9BF0000));
    assert!(is_likely_mmio(0x1C52D000));
    assert!(!is_likely_mmio(0x00000000));
    assert!(!is_likely_mmio(0xFFFFFFFF));
    assert!(!is_likely_mmio(0x20000001));
}

#[test]
fn page_map_uses_4k_pages_and_later_entries_win() {
    let map = parse_classify_address_map(" 0x40034abc = UART , ,0x40034000=dma").unwrap();
    assert_eq!(map.len(), 1);
    assert_eq!(map.get(&0x40034000), Some(&BlockKind::Dma));
    let dec = parse_classify_address_map("4096=gpu").unwrap();
    assert_eq!(dec.get(&4096), Some(&BlockKind::Gpu));
}

#[test]
fn malformed_page_maps_are_refused() {
    assert!(parse_classify_address_map("uart").is_none());
    assert!(parse_classify_address_map("0x1000=modem").is_none());
    assert!(parse_classify_address_map("0x1000=uart,junk").is_none());
    assert!(parse_classify_address_map("0xZZ=uart").is_none());
    assert!(parse_classify_address_map(",,=").is_none());
}

#[test]
fn kind_names_are_case_insensitive() {
    assert_eq!(parse_block_kind_name("Ethernet"), Some(BlockKind::Ethernet));
    assert_eq!(parse_block_kind_name("I2C"), Some(BlockKind::I2c));
    assert_eq!(parse_block_kind_name("timer"), None);
}

#[test]
fn numbers_parse_like_std() {
    assert_eq!(parse_u64_radix("+42", 10), Some(42));
    assert_eq!(parse_u64_radix("18446744073709551615", 10), Some(u64::MAX));
    assert_eq!(parse_u64_radix("18446744073709551616", 10), None);
    assert_eq!(parse_u64_radix("ffffffffffffffff", 16), Some(u64::MAX));
    assert_eq!(parse_u64_radix("1ffffffffffffffff", 16), None);
    assert_eq!(parse_u64_radix("", 10), None);
    assert_eq!(parse_u64_radix("+", 10), None);
    assert_eq!(parse_u64_radix("-1", 10), None);
    assert_eq!(parse_u64_radix("1a", 10), None);
    assert_eq!(parse_u64_addr("  0X1F "), Some(31));
    assert_eq!(parse_u64_addr("0x"), None);
    assert_eq!(trim("\t a b \n"), "a b");
}

#[test]
fn unknown_kind_leaves_blocks_alone() {
    let mut spec = HardwareSpec::empty();
    spec.blocks.push(unknown_block("a", 0x1000));
    apply_classify_override(&mut spec, "modem");
    assert_eq!(spec.blocks[0].kind, BlockKind::Unknown);
    apply_classify_override(&mut spec, "0x2000=gpu");
    assert_eq!(spec.blocks[0].kind, BlockKind::Unknown);
}

fn access(address: u64, name: &str) -> MmioAccess {
    MmioAccess {
        address,
        value: Some(1),
        access_type: MmioAccessType::Write,
        function_name: name.into(),
        instruction_addr: 0,
    }
}

#[test]
fn access_labels_follow_the_classification() {
    let labels = parse_classify_kind_labels("0x40034000=UART").unwrap();
    assert_eq!(labels.get(&0x40034000).map(|s| s.as_str()), Some("uart"));
    let mut v = vec![access(0x40034010, "f"), access(0x50000000, "g")];
    prefix_mmio_by_classify(&mut v, "0x40034000=UART");
    assert_eq!(v[0].function_name, "uart_f");
    assert_eq!(v[1].function_name, "g");
    let mut w = vec![access(0x1, "h")];
    prefix_mmio_by_classify(&mut w, "spi");
    assert_eq!(w[0].function_name, "spi_h");
}

#[test]
fn heuristic_scan_reads_little_endian_words() {
    let mut data = Vec::new();
    for w in [0x1000_0000u32, 0x1000_0000, 0x0000_0001, 0xA9BF_0000, 0x1000_0000] {
        data.extend_from_slice(&w.to_le_bytes());
    }
    data.push(0x10);
    let found: Vec<u64> = heuristic_scan(&data).iter().map(|a| a.address).collect();
    assert_eq!(found, vec![0x1000_0000, 0xA9BF_0000, 0x1000_0000]);
    let all = heuristic_scan(&data);
    assert!(all.iter().all(|a| a.function_name == "heuristic" && a.access_type == MmioAccessType::Write));
    let mock: Vec<u64> = mock_mmio_from_binary(&data).iter().map(|a| a.address).collect();
    assert_eq!(mock, vec![0x1000_0000, 0x1000_0000, 0xA9BF_0000, 0x1000_0000]);
}

#[test]
fn scans_are_capped() {
    let mut data = Vec::new();
    for i in 0..600u32 {
        data.extend_from_slice(&(0x1000_0000 + i).to_le_bytes());
    }
    assert_eq!(heuristic_scan(&data).len(), 500);
    assert_eq!(mock_mmio_from_binary(&data).len(), 100);
}

#[test]
fn known_boot_headers_are_stripped() {
    let mut dhtb = b"DHTB".to_vec();
    dhtb.resize(0x200, 0);
    dhtb.extend_from_slice(&[1, 2, 3]);
    assert_eq!(strip_headers(&dhtb), vec![1, 2, 3]);
    let mut mtk = vec![0xA0, 0x0A, 0x1A, 0x00];
    mtk.resize(32, 0);
    mtk.push(9);
    assert_eq!(strip_headers(&mtk), vec![9]);
    let mut android = b"ANDROID!".to_vec();
    android.resize(1648, 0);
    android.push(7);
    assert_eq!(strip_headers(&android), vec![7]);
    assert_eq!(strip_headers(&[0x1F, 0x8B, 0x08]), vec![0x1F, 0x8B, 0x08]);
}

fn candidate(address: u64, kind: &str, function: &str) -> MmioCandidate {
    MmioCandidate { address, access_type: kind.into(), function: function.into(), instruction_addr: address + 1 }
}

#[test]
fn disassembled_candidates_sorted_first_of_each_address() {
    let cs = vec![
        candidate(0x3000, "write", "a"),
        candidate(0x1000, "read", "b"),
        candidate(0x3000, "read", "c"),
        candidate(0x2000, "write", "d"),
        candidate(0x1000, "write", "e"),
    ];
    let out = unique_accesses(&cs);
    let summary: Vec<(u64, MmioAccessType, &str)> =
        out.iter().map(|a| (a.address, a.access_type, a.function_name.as_str())).collect();
    assert_eq!(
        summary,
        vec![
            (0x1000, MmioAccessType::Read, "b"),
            (0x2000, MmioAccessType::Write, "d"),
            (0x3000, MmioAccessType::Write, "a"),
        ]
    );
    assert!(out.iter().all(|a| a.value == Some(1) && a.instruction_addr == a.address + 1));
}

#[test]
fn disassembly_without_candidates_falls_back_to_the_scan() {
    let data = 0x1000_0000u32.to_le_bytes();
    let v = accesses_from_disasm(&data, true, &vec![]);
    assert_eq!(v.len(), 1);
    assert_eq!(v[0].function_name, "heuristic");
    let w = accesses_from_disasm(&data, false, &vec![candidate(5, "write", "f")]);
    assert_eq!(w[0].address, 0x1000_0000);
    let x = accesses_from_disasm(&data, true, &vec![candidate(5, "write", "f")]);
    assert_eq!(x[0].address, 5);
}
