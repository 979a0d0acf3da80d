//! The inferred hardware model: CPU, memory map, functional blocks with their
//! registers and timing, interrupts, and the components a synthesis assigned
//! to the blocks. Fields hold what the generators read; architecture and
//! memory-region kinds are kept by name.

use vstd::prelude::*;

verus! {

/// Kind of a functional block.
#[derive(Clone, Copy, Debug, PartialEq, Eq, Hash, Structural)]
pub enum BlockKind {
    Gpu,
    Audio,
    Dma,
    Usb,
    Ethernet,
    Spi,
    I2c,
    Uart,
    Timer,
    InterruptController,
    MemoryController,
    Crypto,
    VideoCodec,
    Isp,
    Npu,
    Unknown,
}

/// How software accesses a register.
#[derive(Clone, Copy, Debug, PartialEq, Eq, Structural)]
pub enum AccessType {
    Read,
    Write,
    ReadWrite,
}

/// A named bit range of a register.
#[derive(Clone, Debug, PartialEq, Eq)]
pub struct Bitfield {
    /// Lowest bit.
    pub offset: u8,
    pub width: u8,
    pub name: String,
}

/// One memory-mapped register of a block.
#[derive(Clone, Debug, PartialEq, Eq)]
pub struct Register {
    /// Offset from the block's base address.
    pub offset: u64,
    pub name: Option<String>,
    /// Width in bits.
    pub width: u8,
    pub access: AccessType,
    pub reset_value: Option<u64>,
    pub bitfields: Vec<Bitfield>,
}

/// A latency measurement, in nanoseconds.
#[derive(Clone, Copy, Debug, PartialEq, Eq, Structural)]
pub struct LatencyRange {
    pub min_ns: u64,
    pub max_ns: u64,
    pub avg_ns: u64,
}

impl LatencyRange {
    /// A range from its minimum, maximum and average.
    pub fn new(min_ns: u64, max_ns: u64, avg_ns: u64) -> (r: LatencyRange)
        ensures
            r == (LatencyRange { min_ns, max_ns, avg_ns }),
    {
        LatencyRange { min_ns, max_ns, avg_ns }
    }
}

/// Timing of a block's operations.
#[derive(Clone, Copy, Debug, PartialEq, Eq, Structural)]
pub struct TimingProfile {
    /// From the trigger write to the block starting.
    pub activation: Option<LatencyRange>,
    /// Duration of one operation.
    pub processing: Option<LatencyRange>,
}

/// A functional block found in the MMIO traffic.
#[derive(Clone, Debug, PartialEq, Eq)]
pub struct FunctionalBlock {
    pub id: String,
    pub kind: BlockKind,
    pub base_address: u64,
    pub size: u64,
    pub registers: Vec<Register>,
    pub timing: TimingProfile,
}

/// Trigger of an interrupt line.
#[derive(Clone, Copy, Debug, PartialEq, Eq, Structural)]
pub enum IrqType {
    Level,
    Edge,
}

/// Active level of an interrupt line.
#[derive(Clone, Copy, Debug, PartialEq, Eq, Structural)]
pub enum IrqPolarity {
    High,
    Low,
}

/// One interrupt line and the block that owns it.
#[derive(Clone, Debug, PartialEq, Eq)]
pub struct InterruptSpec {
    pub vector: u32,
    pub owner: String,
    pub irq_type: IrqType,
    pub polarity: IrqPolarity,
}

/// The CPU of the original machine.
#[derive(Clone, Debug, PartialEq, Eq)]
pub struct CpuSpec {
    /// Architecture name ("Arm", "Mips", ...).
    pub architecture: String,
    pub clock_mhz: u32,
}

/// One region of the memory map.
#[derive(Clone, Debug, PartialEq, Eq)]
pub struct MemoryRegion {
    /// Region kind name ("Dram", "Sram", "Flash", ...).
    pub region_type: String,
    pub base: u64,
    pub size: u64,
}

/// The memory map.
#[derive(Clone, Debug, PartialEq, Eq)]
pub struct MemoryMap {
    pub regions: Vec<MemoryRegion>,
}

/// The inferred hardware specification.
#[derive(Clone, Debug, PartialEq, Eq)]
pub struct HardwareSpec {
    /// Where the observations came from.
    pub source: String,
    pub cpu: CpuSpec,
    pub memory: MemoryMap,
    pub blocks: Vec<FunctionalBlock>,
    pub interrupts: Vec<InterruptSpec>,
}

impl HardwareSpec {
    /// A specification with nothing inferred yet.
    pub open spec fn is_empty_spec(self) -> bool {
        &&& self.source@ == Seq::<char>::empty()
        &&& self.cpu.architecture@ == "Unknown"@
        &&& self.cpu.clock_mhz == 0
        &&& self.memory.regions@.len() == 0
        &&& self.blocks@.len() == 0
        &&& self.interrupts@.len() == 0
    }

    /// A specification with nothing inferred yet: unknown CPU at 0 MHz, no
    /// memory regions, blocks or interrupts.
    pub fn empty() -> (s: HardwareSpec)
        ensures
            s.is_empty_spec(),
    {
        let mut arch = String::new();
        arch.append("Unknown");
        HardwareSpec {
            source: String::new(),
            cpu: CpuSpec { architecture: arch, clock_mhz: 0 },
            memory: MemoryMap { regions: Vec::new() },
            blocks: Vec::new(),
            interrupts: Vec::new(),
        }
    }
}

/// A component chosen for a block, and the interface it is driven through.
#[derive(Clone, Debug, PartialEq, Eq)]
pub struct ComponentAssignment {
    pub block_id: String,
    pub component: String,
    /// "spi", "i2c", "uart", "usb", "gpio", ...
    pub interface: String,
}

/// A specification together with the components assigned to its blocks.
#[derive(Clone, Debug, PartialEq, Eq)]
pub struct SynthesizedSpec {
    pub original: HardwareSpec,
    pub assignments: Vec<ComponentAssignment>,
}

} // verus!
