use base_lib::fw::{
    BootloaderGenerator, DriverGenerator, HalGenerator, IrqGenerator, TimingCompensation,
};
use base_lib::hw::{
    AccessType, BlockKind, ComponentAssignment, FunctionalBlock, HardwareSpec, InterruptSpec,
    IrqPolarity, IrqType, LatencyRange, MemoryRegion, Register, SynthesizedSpec, TimingProfile,
};

fn no_timing() -> TimingProfile {
    TimingProfile { activation: None, processing: None }
}

fn synthesized(original: HardwareSpec) -> SynthesizedSpec {
    SynthesizedSpec { original, assignments: vec![] }
}

fn gpu_block() -> FunctionalBlock {
    FunctionalBlock {
        id: "gpu_0".into(),
        kind: BlockKind::Gpu,
        base_address: 0x10000000,
        size: 0x1000,
        registers: vec![Register {
            offset: 0,
            name: Some("control".into()),
            width: 32,
            access: AccessType::ReadWrite,
            reset_value: None,
            bitfields: vec![],
        }],
        timing: no_timing(),
    }
}

#[test]
fn test_bootloader_generation() {
    let gen = BootloaderGenerator;
    let spec = synthesized(HardwareSpec::empty());
    let code = gen.generate(&spec);
    assert!(code.contains("bootloader_main"), "Should have main entry");
    assert!(code.contains("system_clock_init"), "Should have clock init");
    assert!(code.contains("dram_init"), "Should have DRAM init");
    assert!(code.contains("mmu_init"), "Should have MMU init");
    assert!(code.contains("jump_to_entry"), "Should have jump");
    assert!(code.contains("MMIO Translation Table"), "Should have MMIO table");
}

#[test]
fn test_hal_generation() {
    let gen = HalGenerator;
    let mut hw = HardwareSpec::empty();
    hw.blocks.push(gpu_block());
    let code = gen.generate(&synthesized(hw), "rp2350");
    assert!(code.contains("mmio_read"), "Should have read handler");
    assert!(code.contains("mmio_write"), "Should have write handler");
    assert!(code.contains("MMIO Translation Table"), "Should have table");
    assert!(code.contains("gpu_0"), "Should have GPU handler");
}

#[test]
fn test_irq_generation() {
    let gen = IrqGenerator;
    let mut hw = HardwareSpec::empty();
    hw.interrupts.push(InterruptSpec {
        vector: 16,
        owner: "gpu_0".into(),
        irq_type: IrqType::Level,
        polarity: IrqPolarity::High,
    });
    hw.interrupts.push(InterruptSpec {
        vector: 32,
        owner: "audio_0".into(),
        irq_type: IrqType::Edge,
        polarity: IrqPolarity::High,
    });
    let code = gen.generate(&synthesized(hw));
    assert!(code.contains("irq_translation"), "Should have translation table");
    assert!(code.contains("irq_handler"), "Should have handler");
    assert!(code.contains("irq_init"), "Should have init");
    assert!(code.contains("gpu_0"), "Should have GPU IRQ");
    assert!(code.contains("audio_0"), "Should have Audio IRQ");
    assert!(code.contains("    { 16, 16, \"gpu_0\", true },\n"));
    assert!(code.contains("    { 32, 32, \"audio_0\", false },\n"));
}

#[test]
fn test_timing_generation() {
    let gen = TimingCompensation;
    let mut hw = HardwareSpec::empty();
    let mut block = gpu_block();
    block.registers.clear();
    block.timing = TimingProfile {
        activation: Some(LatencyRange::new(1000, 5000, 2000)),
        processing: Some(LatencyRange::new(2000, 10000, 4500)),
    };
    hw.blocks.push(block);
    let code = gen.generate(&synthesized(hw));
    assert!(code.contains("timing_compensate"), "Should have compensation function");
    assert!(code.contains("gpu_0"), "Should have gpu block timing");
    assert!(code.contains("original_timing"), "Should have timing table");
    assert!(code.contains("4500"), "Should have avg latency");
    assert!(code.contains("    delay_us(4);\n"));
    assert!(code.contains("    { \"gpu_0\", 1000, 5000, 2000 },\n"));
}

fn driver_spec() -> SynthesizedSpec {
    let a = |block: &str, component: &str, interface: &str| ComponentAssignment {
        block_id: block.into(),
        component: component.into(),
        interface: interface.into(),
    };
    SynthesizedSpec {
        original: HardwareSpec::empty(),
        assignments: vec![
            a("spi_dev", "W5500", "spi"),
            a("i2c_dev", "PCM5102A", "i2c"),
            a("uart_debug", "CP2102N", "uart"),
        ],
    }
}

#[test]
fn test_driver_generation() {
    let gen = DriverGenerator;
    let code = gen.generate_baremetal(&driver_spec());
    assert!(code.contains("SPI Driver"), "Should have SPI driver");
    assert!(code.contains("I2C Driver"), "Should have I2C driver");
    assert!(code.contains("UART Driver"), "Should have UART driver");
}

#[test]
fn test_build_system() {
    let gen = DriverGenerator;
    let mk = gen.generate_build_system(&driver_spec());
    assert!(mk.contains("Makefile"), "Should have Makefile");
    assert!(mk.contains("firmware.elf"), "Should have firmware target");
}

#[test]
fn test_linker_script() {
    let gen = DriverGenerator;
    let ld = gen.generate_linker_script(&driver_spec());
    assert!(ld.contains("MEMORY"), "Should have memory sections");
    assert!(ld.contains("FLASH"), "Should have FLASH section");
    assert!(ld.contains("SRAM"), "Should have SRAM section");
}

#[test]
fn bootloader_relocates_each_block_by_four_kib() {
    let mut hw = HardwareSpec::empty();
    hw.cpu.clock_mhz = 240;
    hw.memory.regions.push(MemoryRegion { region_type: "Dram".into(), base: 0x8000_0000, size: 64 << 20 });
    hw.blocks.push(gpu_block());
    let code = BootloaderGenerator.generate(&synthesized(hw));
    assert!(code.contains("    { 0x10000000, 0x10001000, 0x1000 }, // gpu_0\n"));
    assert!(code.contains("// Original clock: 240 MHz"));
    assert!(code.contains("// Target memory: 64 MB at 0x80000000\n"));
    assert!(code.contains("#\x69nclude <stdint.h>"));
    assert!(code.contains("\x65xtern uint8_t _fw_load_addr;"));
}

#[test]
fn hal_strategy_and_handlers_follow_the_block_kind() {
    let mut hw = HardwareSpec::empty();
    hw.blocks.push(gpu_block());
    let mut dma = gpu_block();
    dma.id = "dma_0".into();
    dma.kind = BlockKind::Dma;
    dma.base_address = 0x20000000;
    dma.size = 0x100;
    hw.blocks.push(dma);
    let code = HalGenerator.generate(&synthesized(hw), "rp2350");
    assert!(code.starts_with("/* B.A.S.E. Generated HAL \u{2014} MMIO Translation Layer */\n/* Target: rp2350 */\n"));
    assert!(code.contains("    { 0x10000000, 0x1000, 0x10100000, 1 }, // gpu_0\n"));
    assert!(code.contains("    { 0x20000000, 0x0100, 0x20100000, 0 }, // dma_0\n"));
    assert!(code.contains("// GPU Handler (gpu_0) @ 0x10000000\n"));
    assert!(code.contains("        case 0x0000: /* control */\n"));
    assert!(code.contains("// DMA Handler (dma_0) \u{2014} RP2350 DMA channel\n"));
}

#[test]
fn unknown_interfaces_get_no_driver() {
    let spec = SynthesizedSpec {
        original: HardwareSpec::empty(),
        assignments: vec![ComponentAssignment {
            block_id: "x".into(),
            component: "Y".into(),
            interface: "can".into(),
        }],
    };
    let code = DriverGenerator.generate_baremetal(&spec);
    assert_eq!(code, "/* B.A.S.E. Generated Bare-metal Drivers */\n\n#\x69nclude <stdint.h>\n#\x69nclude <stdbool.h>\n\n");
}
