use base_lib::bir::{from_legacy, to_legacy, BirAccess, BirDevice, BirLatencyRange, BirTimingEntry};
use base_lib::hw::{
    AccessType, BlockKind, FunctionalBlock, HardwareSpec, InterruptSpec, IrqPolarity, IrqType,
    LatencyRange, Register, TimingProfile,
};

fn gpu_spec() -> HardwareSpec {
    let mut spec = HardwareSpec::empty();
    spec.blocks.push(FunctionalBlock {
        id: "gpu_0".into(),
        kind: BlockKind::Gpu,
        base_address: 0x10000000,
        size: 0x1000,
        registers: vec![Register {
            offset: 0,
            name: Some("control".into()),
            width: 32,
            access: AccessType::ReadWrite,
            reset_value: None,
            bitfields: vec![],
        }],
        timing: TimingProfile { activation: None, processing: None },
    });
    spec
}

#[test]
fn test_from_legacy_empty() {
    let spec = HardwareSpec::empty();
    let devices = from_legacy(&spec);
    assert!(devices.is_empty());
}

#[test]
fn test_roundtrip() {
    let spec = gpu_spec();
    let devices = from_legacy(&spec);
    assert_eq!(devices.len(), 1);
    assert_eq!(devices[0].name, "gpu_0");
}

#[test]
fn devices_carry_registers_interrupts_and_timing() {
    let mut spec = gpu_spec();
    spec.blocks[0].registers.push(Register {
        offset: 0x2c,
        name: None,
        width: 16,
        access: AccessType::Read,
        reset_value: Some(7),
        bitfields: vec![],
    });
    spec.blocks[0].timing.processing = Some(LatencyRange::new(100, 300, 200));
    spec.interrupts.push(InterruptSpec { vector: 16, owner: "gpu_0".into(), irq_type: IrqType::Edge, polarity: IrqPolarity::Low });
    spec.interrupts.push(InterruptSpec { vector: 17, owner: "uart_0".into(), irq_type: IrqType::Level, polarity: IrqPolarity::High });
    let d = &from_legacy(&spec)[0];
    assert_eq!(d.base_address, Some(0x10000000));
    assert_eq!(d.registers[1].name, "REG_2c");
    assert_eq!(d.registers[1].access, BirAccess::Read);
    assert_eq!(d.interrupts.len(), 1);
    assert_eq!(d.interrupts[0].name, "IRQ_16");
    assert_eq!(d.timing[0].latency, BirLatencyRange::new(100, 300));
}

#[test]
fn back_to_blocks_keeps_names_bases_and_registers() {
    let mut dev = BirDevice::new("Audio_Codec");
    dev.timing.push(BirTimingEntry { name: "processing".into(), latency: BirLatencyRange::new(100, 301) });
    let spec = to_legacy(&[from_legacy(&gpu_spec()).remove(0), dev]);
    assert_eq!(spec.blocks.len(), 2);
    assert_eq!(spec.blocks[0].id, "gpu_0");
    assert_eq!(spec.blocks[0].kind, BlockKind::Gpu);
    assert_eq!(spec.blocks[0].base_address, 0x10000000);
    assert_eq!(spec.blocks[0].registers[0].name.as_deref(), Some("control"));
    assert_eq!(spec.blocks[1].kind, BlockKind::Audio);
    assert_eq!(spec.blocks[1].base_address, 0);
    assert_eq!(spec.blocks[1].timing.processing, Some(LatencyRange::new(100, 301, 200)));
    assert!(spec.interrupts.is_empty());
}

#[test]
fn legacy_round_trip_keeps_blocks_and_names_unnamed_registers() {
    let mut spec = gpu_spec();
    spec.blocks[0].registers.push(Register {
        offset: 0x10,
        name: None,
        width: 8,
        access: AccessType::Write,
        reset_value: Some(3),
        bitfields: vec![],
    });
    let back = to_legacy(&from_legacy(&spec));
    assert_eq!(back.blocks.len(), spec.blocks.len());
    let (g, b) = (&back.blocks[0], &spec.blocks[0]);
    assert_eq!(g.id, b.id);
    assert_eq!(g.base_address, b.base_address);
    assert_eq!(g.registers.len(), 2);
    assert_eq!(g.registers[0].name.as_deref(), Some("control"));
    assert_eq!(g.registers[1].name.as_deref(), Some("REG_10"));
    assert_eq!(g.registers[1].access, AccessType::Write);
    assert_eq!(g.registers[1].reset_value, Some(3));
    assert_eq!(g.registers[1].width, 8);
}
