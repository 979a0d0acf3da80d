//! The device-level intermediate representation (BIR) and its bridge to the
//! hardware specification: devices with registers, bit fields, interrupts and
//! timing entries.

use vstd::prelude::*;
use crate::hw::{
    AccessType, Bitfield, BlockKind, FunctionalBlock, HardwareSpec, InterruptSpec, LatencyRange,
    Register, TimingProfile,
};
use crate::text::{dec, hex, push_dec, push_hex, str_eq, text};
use crate::classify::{lowercase_text, to_lowercase};

verus! {

/// Access of a BIR register.
#[derive(Clone, Copy, Debug, PartialEq, Eq, Structural)]
pub enum BirAccess {
    Read,
    Write,
    ReadWrite,
}

/// Trigger of a BIR interrupt.
#[derive(Clone, Copy, Debug, PartialEq, Eq, Structural)]
pub enum IrqType {
    Level,
    Edge,
}

/// Active level of a BIR interrupt.
#[derive(Clone, Copy, Debug, PartialEq, Eq, Structural)]
pub enum IrqPolarity {
    High,
    Low,
}

/// A named bit range of a register.
#[derive(Clone, Debug, PartialEq, Eq)]
pub struct BirBitfield {
    pub offset: u8,
    pub width: u8,
    pub name: String,
}

/// A device register.
#[derive(Clone, Debug, PartialEq, Eq)]
pub struct BirRegister {
    pub name: String,
    pub offset: u64,
    pub access: BirAccess,
    pub width: u8,
    pub reset_value: Option<u64>,
    pub bitfields: Vec<BirBitfield>,
}

/// A device interrupt.
#[derive(Clone, Debug, PartialEq, Eq)]
pub struct BirInterrupt {
    pub name: String,
    pub vector: u32,
    pub irq_type: IrqType,
    pub polarity: IrqPolarity,
}

/// A latency bound, in nanoseconds.
#[derive(Clone, Copy, Debug, PartialEq, Eq, Structural)]
pub struct BirLatencyRange {
    pub min_ns: u64,
    pub max_ns: u64,
}

impl BirLatencyRange {
    /// A range from its bounds.
    pub fn new(min_ns: u64, max_ns: u64) -> (r: BirLatencyRange)
        ensures
            r == (BirLatencyRange { min_ns, max_ns }),
    {
        BirLatencyRange { min_ns, max_ns }
    }
}

/// A named timing of a device.
#[derive(Clone, Debug, PartialEq, Eq)]
pub struct BirTimingEntry {
    pub name: String,
    pub latency: BirLatencyRange,
}

/// A device of the BIR.
#[derive(Clone, Debug, PartialEq, Eq)]
pub struct BirDevice {
    pub name: String,
    pub base_address: Option<u64>,
    pub registers: Vec<BirRegister>,
    pub interrupts: Vec<BirInterrupt>,
    pub timing: Vec<BirTimingEntry>,
}

impl BirDevice {
    /// A device with a name and nothing else.
    pub fn new(name: &str) -> (d: BirDevice)
        ensures
            d.name@ == name@,
            d.base_address is None,
            d.registers@.len() == 0,
            d.interrupts@.len() == 0,
            d.timing@.len() == 0,
    {
        let mut n = String::new();
        n.append(name);
        BirDevice {
            name: n,
            base_address: None,
            registers: Vec::new(),
            interrupts: Vec::new(),
            timing: Vec::new(),
        }
    }
}

// ---------------------------------------------------------------------------
// Models
// ---------------------------------------------------------------------------

/// A bit field as plain values.
pub type FieldModel = (u8, u8, Seq<char>);

/// A register as plain values: name, offset, access, width, reset value,
/// bit fields.
pub type RegModel = (Seq<char>, u64, BirAccess, u8, Option<u64>, Seq<FieldModel>);

/// An interrupt as plain values.
pub type IrqModel = (Seq<char>, u32, IrqType, IrqPolarity);

/// A device as plain values: name, base, registers, interrupts, timing
/// entries (name, min, max).
pub type DeviceModel = (Seq<char>, Option<u64>, Seq<RegModel>, Seq<IrqModel>, Seq<(Seq<char>, u64, u64)>);

/// Model of a BIR register.
pub open spec fn reg_model(r: BirRegister) -> RegModel {
    (
        r.name@,
        r.offset,
        r.access,
        r.width,
        r.reset_value,
        Seq::new(
            r.bitfields@.len(),
            |j: int| (r.bitfields@[j].offset, r.bitfields@[j].width, r.bitfields@[j].name@),
        ),
    )
}

/// Model of a BIR interrupt.
pub open spec fn irq_model(q: BirInterrupt) -> IrqModel {
    (q.name@, q.vector, q.irq_type, q.polarity)
}

/// Model of a BIR device.
pub open spec fn device_model(d: BirDevice) -> DeviceModel {
    (
        d.name@,
        d.base_address,
        Seq::new(d.registers@.len(), |i: int| reg_model(d.registers@[i])),
        Seq::new(d.interrupts@.len(), |i: int| irq_model(d.interrupts@[i])),
        Seq::new(
            d.timing@.len(),
            |i: int| (d.timing@[i].name@, d.timing@[i].latency.min_ns, d.timing@[i].latency.max_ns),
        ),
    )
}

// ---------------------------------------------------------------------------
// From the hardware specification
// ---------------------------------------------------------------------------

/// The BIR register of a specification register: unnamed registers are
/// called `REG_<offset in hex>`.
pub open spec fn bir_register(r: Register) -> RegModel {
    (
        match r.name {
            Some(n) => n@,
            None => "REG_"@ + hex(r.offset as nat),
        },
        r.offset,
        match r.access {
            AccessType::Read => BirAccess::Read,
            AccessType::Write => BirAccess::Write,
            AccessType::ReadWrite => BirAccess::ReadWrite,
        },
        r.width,
        r.reset_value,
        Seq::new(
            r.bitfields@.len(),
            |j: int| (r.bitfields@[j].offset, r.bitfields@[j].width, r.bitfields@[j].name@),
        ),
    )
}

/// The BIR interrupt of an interrupt line.
pub open spec fn bir_irq(q: InterruptSpec) -> IrqModel {
    (
        "IRQ_"@ + dec(q.vector as nat),
        q.vector,
        match q.irq_type {
            crate::hw::IrqType::Level => IrqType::Level,
            crate::hw::IrqType::Edge => IrqType::Edge,
        },
        match q.polarity {
            crate::hw::IrqPolarity::High => IrqPolarity::High,
            crate::hw::IrqPolarity::Low => IrqPolarity::Low,
        },
    )
}

/// The BIR interrupts of the lines `irqs` owned by `owner`, in order.
pub open spec fn owned_irqs(irqs: Seq<InterruptSpec>, owner: Seq<char>) -> Seq<IrqModel>
    decreases irqs.len(),
{
    if irqs.len() == 0 {
        Seq::empty()
    } else {
        let rest = owned_irqs(irqs.drop_last(), owner);
        if irqs.last().owner@ == owner {
            rest.push(bir_irq(irqs.last()))
        } else {
            rest
        }
    }
}

/// The BIR device of a block whose specification has the lines `irqs`.
pub open spec fn bir_device(b: FunctionalBlock, irqs: Seq<InterruptSpec>) -> DeviceModel {
    (
        b.id@,
        Some(b.base_address),
        Seq::new(b.registers@.len(), |i: int| bir_register(b.registers@[i])),
        owned_irqs(irqs, b.id@),
        match b.timing.processing {
            Some(p) => seq![("processing"@, p.min_ns, p.max_ns)],
            None => Seq::empty(),
        },
    )
}

fn copy_bitfields(fs: &Vec<Bitfield>) -> (v: Vec<BirBitfield>)
    ensures
        v@.len() == fs@.len(),
        forall|j: int|
            0 <= j < fs@.len() ==> ((#[trigger] v@[j]).offset, v@[j].width, v@[j].name@) == (
                fs@[j].offset,
                fs@[j].width,
                fs@[j].name@,
            ),
{
    let mut v: Vec<BirBitfield> = Vec::new();
    let mut j: usize = 0;
    while j < fs.len()
        invariant
            j <= fs@.len(),
            v@.len() == j,
            forall|k: int|
                0 <= k < j ==> ((#[trigger] v@[k]).offset, v@[k].width, v@[k].name@) == (
                    fs@[k].offset,
                    fs@[k].width,
                    fs@[k].name@,
                ),
        decreases fs@.len() - j,
    {
        let f = &fs[j];
        v.push(BirBitfield { offset: f.offset, width: f.width, name: text(f.name.as_str()) });
        j = j + 1;
    }
    v
}

fn register_to_bir(r: &Register) -> (b: BirRegister)
    ensures
        reg_model(b) == bir_register(*r),
{
    let name = match &r.name {
        Some(n) => text(n.as_str()),
        None => {
            let mut s = text("REG_");
            push_hex(&mut s, r.offset);
            s
        },
    };
    let access = match r.access {
        AccessType::Read => BirAccess::Read,
        AccessType::Write => BirAccess::Write,
        AccessType::ReadWrite => BirAccess::ReadWrite,
    };
    let bitfields = copy_bitfields(&r.bitfields);
    let b = BirRegister { name, offset: r.offset, access, width: r.width, reset_value: r.reset_value, bitfields };
    assert(reg_model(b).5 =~= bir_register(*r).5);
    b
}

fn irq_to_bir(q: &InterruptSpec) -> (b: BirInterrupt)
    ensures
        irq_model(b) == bir_irq(*q),
{
    let mut name = text("IRQ_");
    push_dec(&mut name, q.vector as u64);
    BirInterrupt {
        name,
        vector: q.vector,
        irq_type: match q.irq_type {
            crate::hw::IrqType::Level => IrqType::Level,
            crate::hw::IrqType::Edge => IrqType::Edge,
        },
        polarity: match q.polarity {
            crate::hw::IrqPolarity::High => IrqPolarity::High,
            crate::hw::IrqPolarity::Low => IrqPolarity::Low,
        },
    }
}

fn device_of(b: &FunctionalBlock, irqs: &Vec<InterruptSpec>) -> (d: BirDevice)
    ensures
        device_model(d) == bir_device(*b, irqs@),
{
    let mut registers: Vec<BirRegister> = Vec::new();
    let mut i: usize = 0;
    while i < b.registers.len()
        invariant
            i <= b.registers@.len(),
            registers@.len() == i,
            forall|k: int| 0 <= k < i ==> reg_model(#[trigger] registers@[k]) == bir_register(b.registers@[k]),
        decreases b.registers@.len() - i,
    {
        registers.push(register_to_bir(&b.registers[i]));
        i = i + 1;
    }
    let mut interrupts: Vec<BirInterrupt> = Vec::new();
    let mut j: usize = 0;
    assert(irqs@.subrange(0, 0) =~= Seq::<InterruptSpec>::empty());
    while j < irqs.len()
        invariant
            j <= irqs@.len(),
            Seq::new(interrupts@.len(), |k: int| irq_model(interrupts@[k])) == owned_irqs(
                irqs@.subrange(0, j as int),
                b.id@,
            ),
        decreases irqs@.len() - j,
    {
        let ghost before = interrupts@;
        proof {
            let sub = irqs@.subrange(0, j as int + 1);
            assert(sub.drop_last() =~= irqs@.subrange(0, j as int));
            assert(sub.last() == irqs@[j as int]);
        }
        if str_eq(irqs[j].owner.as_str(), b.id.as_str()) {
            interrupts.push(irq_to_bir(&irqs[j]));
            assert(Seq::new(interrupts@.len(), |k: int| irq_model(interrupts@[k])) =~= Seq::new(
                before.len(),
                |k: int| irq_model(before[k]),
            ).push(bir_irq(irqs@[j as int])));
        }
        j = j + 1;
    }
    assert(irqs@.subrange(0, j as int) =~= irqs@);
    let mut timing: Vec<BirTimingEntry> = Vec::new();
    match &b.timing.processing {
        Some(p) => {
            timing.push(
                BirTimingEntry { name: text("processing"), latency: BirLatencyRange::new(p.min_ns, p.max_ns) },
            );
        },
        None => {},
    }
    let d = BirDevice {
        name: text(b.id.as_str()),
        base_address: Some(b.base_address),
        registers,
        interrupts,
        timing,
    };
    assert(device_model(d).2 =~= bir_device(*b, irqs@).2);
    assert(device_model(d).4 =~= bir_device(*b, irqs@).4);
    d
}

/// The BIR devices of a specification: one per block, in order, with its
/// registers, the interrupts it owns, and its processing latency.
pub fn from_legacy(spec: &HardwareSpec) -> (devices: Vec<BirDevice>)
    ensures
        devices@.len() == spec.blocks@.len(),
        forall|i: int|
            0 <= i < spec.blocks@.len() ==> device_model(#[trigger] devices@[i]) == bir_device(
                spec.blocks@[i],
                spec.interrupts@,
            ),
{
    let mut devices: Vec<BirDevice> = Vec::new();
    let mut i: usize = 0;
    while i < spec.blocks.len()
        invariant
            i <= spec.blocks@.len(),
            devices@.len() == i,
            forall|k: int|
                0 <= k < i ==> device_model(#[trigger] devices@[k]) == bir_device(
                    spec.blocks@[k],
                    spec.interrupts@,
                ),
        decreases spec.blocks@.len() - i,
    {
        devices.push(device_of(&spec.blocks[i], &spec.interrupts));
        i = i + 1;
    }
    devices
}

// ---------------------------------------------------------------------------
// Back to the hardware specification
// ---------------------------------------------------------------------------

/// `p` occurs in `s`.
pub open spec fn has_sub(s: Seq<char>, p: Seq<char>) -> bool {
    exists|i: int| 0 <= i && i + p.len() <= s.len() && #[trigger] s.subrange(i, i + p.len()) == p
}

fn contains_text(s: &str, p: &str) -> (r: bool)
    ensures
        r == has_sub(s@, p@),
{
    let n = s.unicode_len();
    let m = p.unicode_len();
    if m > n {
        return false;
    }
    if m == 0 {
        assert(s@.subrange(0int, 0int + p@.len()) =~= p@);
        return true;
    }
    let mut i: usize = 0;
    while i <= n - m
        invariant
            i <= n - m + 1,
            1 <= m <= n,
            n == s@.len(),
            m == p@.len(),
            forall|k: int| 0 <= k < i ==> #[trigger] s@.subrange(k, k + m) != p@,
        decreases n - m + 1 - i,
    {
        if str_eq(s.substring_char(i, i + m), p) {
            return true;
        }
        i = i + 1;
    }
    false
}

/// The kind a device name suggests (by a lowercase "gpu", "audio" or "dma").
pub open spec fn kind_from_name(name: Seq<char>) -> BlockKind {
    let l = lowercase_text(name);
    if has_sub(l, "gpu"@) {
        BlockKind::Gpu
    } else if has_sub(l, "audio"@) {
        BlockKind::Audio
    } else if has_sub(l, "dma"@) {
        BlockKind::Dma
    } else {
        BlockKind::Unknown
    }
}

/// The specification register of a BIR register.
pub open spec fn legacy_register_of(r: BirRegister, g: Register) -> bool {
    &&& g.offset == r.offset
    &&& g.name matches Some(n) && n@ == r.name@
    &&& g.width == r.width
    &&& g.access == match r.access {
        BirAccess::Read => AccessType::Read,
        BirAccess::Write => AccessType::Write,
        BirAccess::ReadWrite => AccessType::ReadWrite,
    }
    &&& g.reset_value == r.reset_value
    &&& g.bitfields@.len() == 0
}

/// A device's latencies fit the average computation.
pub open spec fn timing_fits(d: BirDevice) -> bool {
    d.timing@.len() > 0 ==> d.timing@[0].latency.min_ns + d.timing@[0].latency.max_ns <= u64::MAX
}

/// The block of a device: kind by name, base (0 when unknown), a 4 KiB
/// window, its registers, and the first timing entry as processing latency.
pub open spec fn legacy_block_of(d: BirDevice, b: FunctionalBlock) -> bool {
    &&& b.id@ == d.name@
    &&& b.kind == kind_from_name(d.name@)
    &&& b.base_address == match d.base_address {
        Some(a) => a,
        None => 0,
    }
    &&& b.size == 0x1000
    &&& b.registers@.len() == d.registers@.len()
    &&& forall|j: int|
        0 <= j < d.registers@.len() ==> legacy_register_of(d.registers@[j], #[trigger] b.registers@[j])
    &&& b.timing.activation is None
    &&& b.timing.processing == if d.timing@.len() > 0 {
        let l = d.timing@[0].latency;
        Some(LatencyRange { min_ns: l.min_ns, max_ns: l.max_ns, avg_ns: ((l.min_ns + l.max_ns) / 2) as u64 })
    } else {
        None::<LatencyRange>
    }
}

fn block_of(d: &BirDevice) -> (b: FunctionalBlock)
    requires
        timing_fits(*d),
    ensures
        legacy_block_of(*d, b),
{
    let lower = to_lowercase(d.name.as_str());
    let kind = if contains_text(lower.as_str(), "gpu") {
        BlockKind::Gpu
    } else if contains_text(lower.as_str(), "audio") {
        BlockKind::Audio
    } else if contains_text(lower.as_str(), "dma") {
        BlockKind::Dma
    } else {
        BlockKind::Unknown
    };
    let mut registers: Vec<Register> = Vec::new();
    let mut j: usize = 0;
    while j < d.registers.len()
        invariant
            j <= d.registers@.len(),
            registers@.len() == j,
            forall|k: int| 0 <= k < j ==> legacy_register_of(d.registers@[k], #[trigger] registers@[k]),
        decreases d.registers@.len() - j,
    {
        let r = &d.registers[j];
        registers.push(
            Register {
                offset: r.offset,
                name: Some(text(r.name.as_str())),
                width: r.width,
                access: match r.access {
                    BirAccess::Read => AccessType::Read,
                    BirAccess::Write => AccessType::Write,
                    BirAccess::ReadWrite => AccessType::ReadWrite,
                },
                reset_value: r.reset_value,
                bitfields: Vec::new(),
            },
        );
        j = j + 1;
    }
    let processing = if d.timing.len() > 0 {
        let l = d.timing[0].latency;
        Some(LatencyRange { min_ns: l.min_ns, max_ns: l.max_ns, avg_ns: (l.min_ns + l.max_ns) / 2 })
    } else {
        None
    };
    FunctionalBlock {
        id: text(d.name.as_str()),
        kind,
        base_address: match d.base_address {
            Some(a) => a,
            None => 0,
        },
        size: 0x1000,
        registers,
        timing: TimingProfile { activation: None, processing },
    }
}

/// A hardware specification with one block per device, in order; nothing
/// else is inferred.
pub fn to_legacy(devices: &[BirDevice]) -> (spec: HardwareSpec)
    requires
        forall|i: int| 0 <= i < devices@.len() ==> timing_fits(#[trigger] devices@[i]),
    ensures
        spec.source@ == Seq::<char>::empty(),
        spec.cpu.architecture@ == "Unknown"@,
        spec.cpu.clock_mhz == 0,
        spec.memory.regions@.len() == 0,
        spec.interrupts@.len() == 0,
        spec.blocks@.len() == devices@.len(),
        forall|i: int| 0 <= i < devices@.len() ==> legacy_block_of(devices@[i], #[trigger] spec.blocks@[i]),
{
    let mut spec = HardwareSpec::empty();
    let mut i: usize = 0;
    while i < devices.len()
        invariant
            i <= devices@.len(),
            forall|k: int| 0 <= k < devices@.len() ==> timing_fits(#[trigger] devices@[k]),
            spec.source@ == Seq::<char>::empty(),
            spec.cpu.architecture@ == "Unknown"@,
            spec.cpu.clock_mhz == 0,
            spec.memory.regions@.len() == 0,
            spec.interrupts@.len() == 0,
            spec.blocks@.len() == i,
            forall|k: int| 0 <= k < i ==> legacy_block_of(devices@[k], #[trigger] spec.blocks@[k]),
        decreases devices@.len() - i,
    {
        let b = block_of(&devices[i]);
        spec.blocks.push(b);
        i = i + 1;
    }
    spec
}

/// Going to the BIR and back keeps what both sides model of a block: its
/// name, base address, processing latency bounds, and each register's offset,
/// width, access, reset value and name, an unnamed register coming back as
/// `REG_<offset in hex>`.
pub proof fn lemma_bridge_round_trip(
    b: FunctionalBlock,
    irqs: Seq<InterruptSpec>,
    d: BirDevice,
    g: FunctionalBlock,
)
    requires
        device_model(d) == bir_device(b, irqs),
        legacy_block_of(d, g),
    ensures
        g.id@ == b.id@,
        g.base_address == b.base_address,
        g.registers@.len() == b.registers@.len(),
        forall|j: int|
            0 <= j < b.registers@.len() ==> {
                let (r, q) = (#[trigger] g.registers@[j], b.registers@[j]);
                &&& r.offset == q.offset
                &&& r.width == q.width
                &&& r.access == q.access
                &&& r.reset_value == q.reset_value
                &&& r.name matches Some(m) && m@ == match q.name {
                    Some(n) => n@,
                    None => "REG_"@ + hex(q.offset as nat),
                }
            },
        (g.timing.processing is Some) == (b.timing.processing is Some),
        g.timing.processing matches Some(p) ==> b.timing.processing matches Some(o) && p.min_ns
            == o.min_ns && p.max_ns == o.max_ns,
{
    let dm = device_model(d);
    let bm = bir_device(b, irqs);
    assert(dm.2 == bm.2);
    assert(dm.4 == bm.4);
    assert(dm.2.len() == d.registers@.len());
    assert(bm.2.len() == b.registers@.len());
    assert forall|j: int| 0 <= j < b.registers@.len() implies {
        let (r, q) = (#[trigger] g.registers@[j], b.registers@[j]);
        &&& r.offset == q.offset
        &&& r.width == q.width
        &&& r.access == q.access
        &&& r.reset_value == q.reset_value
        &&& r.name matches Some(m) && m@ == match q.name {
            Some(n) => n@,
            None => "REG_"@ + hex(q.offset as nat),
        }
    } by {
        assert(dm.2[j] == bm.2[j]);
        assert(dm.2[j] == reg_model(d.registers@[j]));
        assert(bm.2[j] == bir_register(b.registers@[j]));
        assert(legacy_register_of(d.registers@[j], g.registers@[j]));
    }
    assert(dm.4.len() == d.timing@.len());
    if d.timing@.len() > 0 {
        assert(dm.4[0] == bm.4[0]);
        assert(b.timing.processing is Some);
    } else {
        assert(bm.4.len() == 0);
    }
}

/// A whole specification through the BIR and back: as many blocks, in order,
/// each keeping what [`lemma_bridge_round_trip`] states of a block.
pub proof fn lemma_spec_round_trip(spec: HardwareSpec, devices: Seq<BirDevice>, back: HardwareSpec)
    requires
        devices.len() == spec.blocks@.len(),
        forall|i: int|
            0 <= i < spec.blocks@.len() ==> device_model(#[trigger] devices[i]) == bir_device(
                spec.blocks@[i],
                spec.interrupts@,
            ),
        back.blocks@.len() == devices.len(),
        forall|i: int| 0 <= i < devices.len() ==> legacy_block_of(devices[i], #[trigger] back.blocks@[i]),
    ensures
        back.blocks@.len() == spec.blocks@.len(),
        forall|i: int|
            0 <= i < spec.blocks@.len() ==> {
                let (g, b) = (#[trigger] back.blocks@[i], spec.blocks@[i]);
                &&& g.id@ == b.id@
                &&& g.base_address == b.base_address
                &&& g.registers@.len() == b.registers@.len()
                &&& forall|j: int|
                    0 <= j < b.registers@.len() ==> {
                        let (r, q) = (#[trigger] g.registers@[j], b.registers@[j]);
                        &&& r.offset == q.offset
                        &&& r.width == q.width
                        &&& r.access == q.access
                        &&& r.reset_value == q.reset_value
                        &&& r.name matches Some(m) && m@ == match q.name {
                            Some(n) => n@,
                            None => "REG_"@ + hex(q.offset as nat),
                        }
                    }
            },
{
    assert forall|i: int| 0 <= i < spec.blocks@.len() implies {
        let (g, b) = (#[trigger] back.blocks@[i], spec.blocks@[i]);
        &&& g.id@ == b.id@
        &&& g.base_address == b.base_address
        &&& g.registers@.len() == b.registers@.len()
        &&& forall|j: int|
            0 <= j < b.registers@.len() ==> {
                let (r, q) = (#[trigger] g.registers@[j], b.registers@[j]);
                &&& r.offset == q.offset
                &&& r.width == q.width
                &&& r.access == q.access
                &&& r.reset_value == q.reset_value
                &&& r.name matches Some(m) && m@ == match q.name {
                    Some(n) => n@,
                    None => "REG_"@ + hex(q.offset as nat),
                }
            }
    } by {
        lemma_bridge_round_trip(spec.blocks@[i], spec.interrupts@, devices[i], back.blocks@[i]);
    }
}

} // verus!
