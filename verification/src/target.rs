//! Target instruction-set architectures and their memory byte order.

use vstd::prelude::*;

verus! {

/// SuperH generation: SH-2 (Saturn class) or SH-4 (Dreamcast class).
#[derive(Clone, Copy, Debug, PartialEq, Eq, Hash, Structural)]
pub enum SuperHFlavor {
    Sh2,
    Sh4,
}

impl Default for SuperHFlavor {
    fn default() -> (r: SuperHFlavor)
        ensures
            r == SuperHFlavor::Sh2,
    {
        SuperHFlavor::Sh2
    }
}

/// A recompilation target.
#[derive(Clone, Copy, Debug, PartialEq, Eq, Hash, Structural)]
pub enum TargetIsa {
    X86_64,
    Arm,
    AArch64,
    Mips,
    Ppc,
    Sparc,
    SuperH(SuperHFlavor),
    Alpha,
    PaRisc,
    M88k,
    Ia64,
    I860,
    ColdFire,
}

/// Byte order of an architecture's memory.
#[derive(Clone, Copy, Debug, PartialEq, Eq, Hash, Structural)]
pub enum Endianness {
    Little,
    Big,
}

impl TargetIsa {
    /// The short name of the target ("x86_64", "sh2", "coldfire", ...).
    pub open spec fn label(self) -> Seq<char> {
        match self {
            TargetIsa::X86_64 => "x86_64"@,
            TargetIsa::Arm => "arm"@,
            TargetIsa::AArch64 => "aarch64"@,
            TargetIsa::Mips => "mips"@,
            TargetIsa::Ppc => "ppc"@,
            TargetIsa::Sparc => "sparc"@,
            TargetIsa::SuperH(SuperHFlavor::Sh2) => "sh2"@,
            TargetIsa::SuperH(SuperHFlavor::Sh4) => "sh4"@,
            TargetIsa::Alpha => "alpha"@,
            TargetIsa::PaRisc => "parisc"@,
            TargetIsa::M88k => "m88k"@,
            TargetIsa::Ia64 => "ia64"@,
            TargetIsa::I860 => "i860"@,
            TargetIsa::ColdFire => "coldfire"@,
        }
    }

    /// The short name of the target.
    pub fn name(&self) -> (s: &'static str)
        ensures
            s@ == self.label(),
    {
        match self {
            TargetIsa::X86_64 => "x86_64",
            TargetIsa::Arm => "arm",
            TargetIsa::AArch64 => "aarch64",
            TargetIsa::Mips => "mips",
            TargetIsa::Ppc => "ppc",
            TargetIsa::Sparc => "sparc",
            TargetIsa::SuperH(SuperHFlavor::Sh2) => "sh2",
            TargetIsa::SuperH(SuperHFlavor::Sh4) => "sh4",
            TargetIsa::Alpha => "alpha",
            TargetIsa::PaRisc => "parisc",
            TargetIsa::M88k => "m88k",
            TargetIsa::Ia64 => "ia64",
            TargetIsa::I860 => "i860",
            TargetIsa::ColdFire => "coldfire",
        }
    }

    /// The fourteen canonical targets, in catalog order.
    pub open spec fn canonical() -> Seq<TargetIsa> {
        seq![
            TargetIsa::X86_64,
            TargetIsa::Arm,
            TargetIsa::AArch64,
            TargetIsa::Mips,
            TargetIsa::Ppc,
            TargetIsa::Sparc,
            TargetIsa::SuperH(SuperHFlavor::Sh2),
            TargetIsa::SuperH(SuperHFlavor::Sh4),
            TargetIsa::Alpha,
            TargetIsa::PaRisc,
            TargetIsa::M88k,
            TargetIsa::Ia64,
            TargetIsa::I860,
            TargetIsa::ColdFire,
        ]
    }

    /// All canonical targets.
    pub fn all_canonical() -> (v: Vec<TargetIsa>)
        ensures
            v@ == Self::canonical(),
    {
        let v = vec![
            TargetIsa::X86_64,
            TargetIsa::Arm,
            TargetIsa::AArch64,
            TargetIsa::Mips,
            TargetIsa::Ppc,
            TargetIsa::Sparc,
            TargetIsa::SuperH(SuperHFlavor::Sh2),
            TargetIsa::SuperH(SuperHFlavor::Sh4),
            TargetIsa::Alpha,
            TargetIsa::PaRisc,
            TargetIsa::M88k,
            TargetIsa::Ia64,
            TargetIsa::I860,
            TargetIsa::ColdFire,
        ];
        assert(v@ =~= Self::canonical());
        v
    }

    /// Byte order recorded in the semantic catalog (x86_64 and aarch64 have no
    /// catalog entry).
    pub open spec fn catalog_endianness(self) -> Option<Endianness> {
        match self {
            TargetIsa::X86_64 | TargetIsa::AArch64 => None,
            TargetIsa::Arm | TargetIsa::SuperH(_) | TargetIsa::Alpha | TargetIsa::Ia64
            | TargetIsa::I860 => Some(Endianness::Little),
            TargetIsa::Mips | TargetIsa::Ppc | TargetIsa::Sparc | TargetIsa::PaRisc
            | TargetIsa::M88k | TargetIsa::ColdFire => Some(Endianness::Big),
        }
    }

    /// Byte order recorded in the semantic catalog, if the target has an entry.
    pub fn catalog_byte_order(&self) -> (r: Option<Endianness>)
        ensures
            r == self.catalog_endianness(),
    {
        match self {
            TargetIsa::X86_64 | TargetIsa::AArch64 => None,
            TargetIsa::Arm | TargetIsa::SuperH(_) | TargetIsa::Alpha | TargetIsa::Ia64
            | TargetIsa::I860 => Some(Endianness::Little),
            TargetIsa::Mips | TargetIsa::Ppc | TargetIsa::Sparc | TargetIsa::PaRisc
            | TargetIsa::M88k | TargetIsa::ColdFire => Some(Endianness::Big),
        }
    }
}

} // verus!
