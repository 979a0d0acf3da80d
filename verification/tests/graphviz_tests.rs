use base_lib::graphviz::{escape_dot, generate_dot, sanitize_dot_id};
use base_lib::hw::{
    AccessType, BlockKind, FunctionalBlock, HardwareSpec, MemoryRegion, Register, TimingProfile,
};

fn gpu_block() -> FunctionalBlock {
    FunctionalBlock {
        id: "gpu_0".into(),
        kind: BlockKind::Gpu,
        base_address: 0x10000000,
        size: 0x1000,
        registers: vec![Register {
            offset: 0,
            name: Some("control".into()),
            width: 32,
            access: AccessType::ReadWrite,
            reset_value: None,
            bitfields: vec![],
        }],
        timing: TimingProfile { activation: None, processing: None },
    }
}

#[test]
fn test_generate_dot_empty() {
    let spec = HardwareSpec::empty();
    let dot = generate_dot(&spec, "test", "0.0");
    assert!(dot.contains("digraph"));
    assert!(dot.contains("CPU"));
    assert!(dot.contains("Memory"));
}

#[test]
fn test_generate_dot_with_blocks() {
    let mut spec = HardwareSpec::empty();
    spec.blocks.push(gpu_block());
    let dot = generate_dot(&spec, "GPU Test", "0.0");
    assert!(dot.contains("gpu_0"));
    assert!(dot.contains("GPU"));
    assert!(dot.contains("control"));
    assert!(dot.contains("0x10000000"));
}

#[test]
fn dot_lines_for_block_register_and_irq() {
    let mut spec = HardwareSpec::empty();
    spec.cpu.architecture = "Arm".into();
    spec.cpu.clock_mhz = 400;
    spec.memory.regions.push(MemoryRegion { region_type: "Dram".into(), base: 0x80000000, size: 1 << 20 });
    spec.memory.regions.push(MemoryRegion { region_type: "Sram".into(), base: 0x1000, size: 4096 });
    let mut b = gpu_block();
    b.registers[0].offset = 0x1c;
    spec.blocks.push(b);
    let mut irq = gpu_block();
    irq.id = "gic-0".into();
    irq.kind = BlockKind::InterruptController;
    irq.registers.clear();
    spec.blocks.push(irq);
    let dot = generate_dot(&spec, "say \"hi\"", "85.0");
    assert!(dot.starts_with("// B.A.S.E. Behavioral Graph\ndigraph \"say \\\"hi\\\"\" {\n"));
    assert!(dot.contains("Arm @ 400MHz"));
    assert!(dot.contains("Dram@80000000,<br/>Sram@00001000</font>"));
    assert!(dot.contains("  gpu_0_1c [label=\"\"control\"\", shape=note"));
    assert!(dot.contains("  gpu_0 -> gpu_0_1c [label=\"+0x1c\", arrowhead=none];\n"));
    assert!(dot.contains("  gic_0 [label=<IRQ Ctrl<br/>"));
    assert!(dot.contains("  gic_0 -> cpu [label=\"IRQ\", style=dashed, color=\"#fcc419\"];\n"));
    assert!(dot.ends_with("\n  // Confidence: 85.0%\n}\n"));
}

#[test]
fn identifiers_and_titles_are_made_safe() {
    assert_eq!(sanitize_dot_id("uart.0-a"), "uart_0_a");
    assert_eq!(sanitize_dot_id("ok_1"), "ok_1");
    assert_eq!(escape_dot("a\"b"), "a\\\"b");
}
