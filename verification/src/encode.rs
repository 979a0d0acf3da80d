//! Encode SIR → machine bytes, for the subset of operations each target covers.
//! Unsupported operations are reported as errors, never silently dropped.

use vstd::prelude::*;

use crate::sir::{Module, Op, OpModel, ops_model, op_text};
use crate::target::{SuperHFlavor, TargetIsa};

verus! {

/// Why an operation could not be encoded.
#[derive(Debug, Clone, PartialEq, Eq)]
pub enum EncodeError {
    /// Call/jump without a resolved target: needs a linker.
    UnresolvedBranch,
    /// The target's encoder does not cover the operation.
    Unsupported(TargetIsa, String),
}

/// Model of an [`EncodeError`].
pub enum EncodeErrorModel {
    UnresolvedBranch,
    Unsupported(TargetIsa, Seq<char>),
}

impl View for EncodeError {
    type V = EncodeErrorModel;

    open spec fn view(&self) -> EncodeErrorModel {
        match self {
            EncodeError::UnresolvedBranch => EncodeErrorModel::UnresolvedBranch,
            EncodeError::Unsupported(t, s) => EncodeErrorModel::Unsupported(*t, s@),
        }
    }
}

/// Text of an encode error.
pub open spec fn encode_error_text(e: EncodeErrorModel) -> Seq<char> {
    match e {
        EncodeErrorModel::UnresolvedBranch => "cannot encode unresolved call/jmp (need symbol)"@,
        EncodeErrorModel::Unsupported(t, s) => "unsupported op for encode on "@ + t.label() + ": "@
            + s,
    }
}

impl EncodeError {
    /// Human-readable message.
    pub fn message(&self) -> (s: String)
        ensures
            s@ == encode_error_text(self@),
    {
        match self {
            EncodeError::UnresolvedBranch => {
                let mut s = String::new();
                s.append("cannot encode unresolved call/jmp (need symbol)");
                s
            },
            EncodeError::Unsupported(t, what) => {
                let mut s = String::new();
                s.append("unsupported op for encode on ");
                s.append(t.name());
                s.append(": ");
                s.append(what.as_str());
                s
            },
        }
    }
}

/// Little-endian bytes of a 32-bit word.
pub open spec fn le32(w: u32) -> Seq<u8> {
    seq![w as u8, (w >> 8u32) as u8, (w >> 16u32) as u8, (w >> 24u32) as u8]
}

/// Big-endian bytes of a 32-bit word.
pub open spec fn be32(w: u32) -> Seq<u8> {
    seq![(w >> 24u32) as u8, (w >> 16u32) as u8, (w >> 8u32) as u8, w as u8]
}

/// Little-endian bytes of a 16-bit halfword.
pub open spec fn le16(h: u16) -> Seq<u8> {
    seq![h as u8, (h >> 8u16) as u8]
}

/// Big-endian bytes of a 16-bit halfword.
pub open spec fn be16(h: u16) -> Seq<u8> {
    seq![(h >> 8u16) as u8, h as u8]
}

fn le32_bytes(w: u32) -> (v: Vec<u8>)
    ensures
        v@ == le32(w),
{
    let v = vec![w as u8, (w >> 8u32) as u8, (w >> 16u32) as u8, (w >> 24u32) as u8];
    assert(v@ =~= le32(w));
    v
}

fn be32_bytes(w: u32) -> (v: Vec<u8>)
    ensures
        v@ == be32(w),
{
    let v = vec![(w >> 24u32) as u8, (w >> 16u32) as u8, (w >> 8u32) as u8, w as u8];
    assert(v@ =~= be32(w));
    v
}

fn le16_bytes(h: u16) -> (v: Vec<u8>)
    ensures
        v@ == le16(h),
{
    let v = vec![h as u8, (h >> 8u16) as u8];
    assert(v@ =~= le16(h));
    v
}

fn be16_bytes(h: u16) -> (v: Vec<u8>)
    ensures
        v@ == be16(h),
{
    let v = vec![(h >> 8u16) as u8, h as u8];
    assert(v@ =~= be16(h));
    v
}

/// `r` clamped to at most `hi`.
pub open spec fn clamp(r: u32, hi: u32) -> u32 {
    if r <= hi { r } else { hi }
}

fn clamp_reg(r: u32, hi: u32) -> (c: u32)
    ensures
        c == clamp(r, hi),
{
    if r <= hi { r } else { hi }
}

/// `imm` read as a signed 32-bit value lies in `[lo, hi]`.
pub open spec fn simm_in(imm: u32, lo: int, hi: int) -> bool {
    lo <= (imm as i32) && (imm as i32) <= hi
}

/// The 16-bit two's-complement field of `-(imm as i32)` (for `imm` in i16 range).
pub open spec fn neg16(imm: u32) -> u32 {
    ((-(imm as i32)) as u16) as u32
}

fn neg16_exec(imm: u32) -> (r: u32)
    requires
        simm_in(imm, -32768, 32767),
    ensures
        r == neg16(imm),
{
    let s = imm as i32;
    let n: i32 = -s;
    (n as u16) as u32
}

/// The low three bits of a register number (x86 register field).
pub open spec fn reg3(r: u32) -> u8 {
    ((r as u8) & 7u8) as u8
}

fn reg3_exec(r: u32) -> (b: u8)
    ensures
        b == reg3(r),
        b < 8,
{
    let t: u8 = #[verifier::truncate] (r as u8);
    let b = t & 7u8;
    assert(b < 8) by (bit_vector)
        requires
            b == t & 7u8,
    ;
    b
}

fn unsupported(op: &Op, t: TargetIsa) -> (e: EncodeError)
    ensures
        e@ == EncodeErrorModel::Unsupported(t, op_text(op@)),
{
    EncodeError::Unsupported(t, op.describe())
}

// ---------------------------------------------------------------------------
// x86-64 (32-bit register subset, little-endian, variable length)
// ---------------------------------------------------------------------------

/// x86 encoding of an operation.
pub open spec fn enc_x86(op: OpModel) -> Result<Seq<u8>, EncodeErrorModel> {
    match op {
        OpModel::Nop => Ok(seq![0x90u8]),
        OpModel::Ret => Ok(seq![0xC3u8]),
        OpModel::MovImm { dst, imm } => Ok(seq![(0xB8u8 + reg3(dst)) as u8] + le32(imm)),
        OpModel::AddImm { dst, imm } => if dst == 0 && imm > 0x7f {
            Ok(seq![0x05u8] + le32(imm))
        } else if simm_in(imm, -128, 127) {
            Ok(seq![0x83u8, (0xC0u8 | reg3(dst)) as u8, imm as u8])
        } else {
            unsup(TargetIsa::X86_64, op)
        },
        OpModel::SubImm { dst, imm } => if dst == 0 && imm > 0x7f {
            Ok(seq![0x2Du8] + le32(imm))
        } else if simm_in(imm, -128, 127) {
            Ok(seq![0x83u8, (0xE8u8 | reg3(dst)) as u8, imm as u8])
        } else {
            unsup(TargetIsa::X86_64, op)
        },
        OpModel::Clear { dst } => Ok(
            seq![0x31u8, (0xC0u8 | ((reg3(dst) << 3u8) as u8) | reg3(dst)) as u8],
        ),
        OpModel::Inc { dst } => Ok(seq![(0x40u8 + reg3(dst)) as u8]),
        OpModel::Dec { dst } => Ok(seq![(0x48u8 + reg3(dst)) as u8]),
        OpModel::Push { src } => Ok(seq![(0x50u8 + reg3(src)) as u8]),
        OpModel::Pop { dst } => Ok(seq![(0x58u8 + reg3(dst)) as u8]),
        OpModel::LdMem { .. } | OpModel::StMem { .. } => Err(
            EncodeErrorModel::Unsupported(
                TargetIsa::X86_64,
                "LdMem/StMem encoder pending (x86 addressing)"@,
            ),
        ),
        OpModel::CallRel { .. } | OpModel::JmpRel { .. } => Err(EncodeErrorModel::UnresolvedBranch),
        OpModel::Unknown { .. } => Err(EncodeErrorModel::Unsupported(TargetIsa::X86_64, "Unknown"@)),
    }
}

fn encode_x86(op: &Op) -> (r: Result<Vec<u8>, EncodeError>)
    ensures
        match r {
            Ok(b) => enc_x86(op@) == Ok::<Seq<u8>, EncodeErrorModel>(b@),
            Err(e) => enc_x86(op@) == Err::<Seq<u8>, EncodeErrorModel>(e@),
        },
{
    match op {
        Op::Nop => {
            let v = vec![0x90u8];
            assert(v@ =~= seq![0x90u8]);
            Ok(v)
        },
        Op::Ret => {
            let v = vec![0xC3u8];
            assert(v@ =~= seq![0xC3u8]);
            Ok(v)
        },
        Op::MovImm { dst, imm } => {
            let r = reg3_exec(dst.0);
            let mut v = vec![0xB8u8 + r];
            let mut w = le32_bytes(*imm);
            v.append(&mut w);
            assert(v@ =~= seq![(0xB8u8 + reg3(dst.0)) as u8] + le32(*imm));
            Ok(v)
        },
        Op::AddImm { dst, imm } => {
            if dst.0 == 0 && *imm > 0x7f {
                let mut v = vec![0x05u8];
                let mut w = le32_bytes(*imm);
                v.append(&mut w);
                assert(v@ =~= seq![0x05u8] + le32(*imm));
                Ok(v)
            } else if (*imm as i32) >= -128 && (*imm as i32) <= 127 {
                let r = reg3_exec(dst.0);
                let v = vec![0x83u8, 0xC0u8 | r, *imm as u8];
                assert(v@ =~= seq![0x83u8, (0xC0u8 | reg3(dst.0)) as u8, *imm as u8]);
                Ok(v)
            } else {
                Err(unsupported(op, TargetIsa::X86_64))
            }
        },
        Op::SubImm { dst, imm } => {
            if dst.0 == 0 && *imm > 0x7f {
                let mut v = vec![0x2Du8];
                let mut w = le32_bytes(*imm);
                v.append(&mut w);
                assert(v@ =~= seq![0x2Du8] + le32(*imm));
                Ok(v)
            } else if (*imm as i32) >= -128 && (*imm as i32) <= 127 {
                let r = reg3_exec(dst.0);
                let v = vec![0x83u8, 0xE8u8 | r, *imm as u8];
                assert(v@ =~= seq![0x83u8, (0xE8u8 | reg3(dst.0)) as u8, *imm as u8]);
                Ok(v)
            } else {
                Err(unsupported(op, TargetIsa::X86_64))
            }
        },
        Op::Clear { dst } => {
            let r = reg3_exec(dst.0);
            let v = vec![0x31u8, 0xC0u8 | (r << 3u8) | r];
            assert(v@ =~= seq![0x31u8, (0xC0u8 | ((reg3(dst.0) << 3u8) as u8) | reg3(dst.0)) as u8]);
            Ok(v)
        },
        Op::Inc { dst } => {
            let r = reg3_exec(dst.0);
            let v = vec![0x40u8 + r];
            assert(v@ =~= seq![(0x40u8 + reg3(dst.0)) as u8]);
            Ok(v)
        },
        Op::Dec { dst } => {
            let r = reg3_exec(dst.0);
            let v = vec![0x48u8 + r];
            assert(v@ =~= seq![(0x48u8 + reg3(dst.0)) as u8]);
            Ok(v)
        },
        Op::Push { src } => {
            let r = reg3_exec(src.0);
            let v = vec![0x50u8 + r];
            assert(v@ =~= seq![(0x50u8 + reg3(src.0)) as u8]);
            Ok(v)
        },
        Op::Pop { dst } => {
            let r = reg3_exec(dst.0);
            let v = vec![0x58u8 + r];
            assert(v@ =~= seq![(0x58u8 + reg3(dst.0)) as u8]);
            Ok(v)
        },
        Op::LdMem { .. } | Op::StMem { .. } => {
            let mut s = String::new();
            s.append("LdMem/StMem encoder pending (x86 addressing)");
            Err(EncodeError::Unsupported(TargetIsa::X86_64, s))
        },
        Op::CallRel { .. } | Op::JmpRel { .. } => Err(EncodeError::UnresolvedBranch),
        Op::Unknown { .. } => {
            let mut s = String::new();
            s.append("Unknown");
            Err(EncodeError::Unsupported(TargetIsa::X86_64, s))
        },
    }
}


/// The error for an operation outside a target's encoder subset.
pub open spec fn unsup(t: TargetIsa, op: OpModel) -> Result<Seq<u8>, EncodeErrorModel> {
    Err(EncodeErrorModel::Unsupported(t, op_text(op)))
}

// ---------------------------------------------------------------------------
// ARM (A32, condition AL, little-endian words; VReg → r0..r12)
// ---------------------------------------------------------------------------

/// ARM encoding of an operation.
pub open spec fn enc_arm(op: OpModel) -> Result<Seq<u8>, EncodeErrorModel> {
    match op {
        OpModel::Nop => Ok(le32(0xE320F000u32)),
        OpModel::Ret => Ok(le32(0xE12FFF1Eu32)),
        OpModel::Clear { dst } => Ok(le32(0xE3A00000u32 | (clamp(dst, 12) << 12u32))),
        OpModel::MovImm { dst, imm } => if imm <= 0xff {
            Ok(le32(0xE3A00000u32 | (clamp(dst, 12) << 12u32) | (imm & 0xffu32)))
        } else {
            unsup(TargetIsa::Arm, op)
        },
        OpModel::AddImm { dst, imm } => if imm <= 0xff {
            Ok(le32(0xE2800000u32 | (clamp(dst, 12) << 12u32) | (clamp(dst, 12) << 16u32) | (imm & 0xffu32)))
        } else {
            unsup(TargetIsa::Arm, op)
        },
        OpModel::SubImm { dst, imm } => if imm <= 0xff {
            Ok(le32(0xE2400000u32 | (clamp(dst, 12) << 12u32) | (clamp(dst, 12) << 16u32) | (imm & 0xffu32)))
        } else {
            unsup(TargetIsa::Arm, op)
        },
        OpModel::Inc { dst } => Ok(le32(0xE2800000u32 | (clamp(dst, 12) << 12u32) | (clamp(dst, 12) << 16u32) | 1u32)),
        OpModel::Dec { dst } => Ok(le32(0xE2400000u32 | (clamp(dst, 12) << 12u32) | (clamp(dst, 12) << 16u32) | 1u32)),
        _ => unsup(TargetIsa::Arm, op),
    }
}

fn encode_arm(op: &Op) -> (r: Result<Vec<u8>, EncodeError>)
    ensures
        match r {
            Ok(b) => enc_arm(op@) == Ok::<Seq<u8>, EncodeErrorModel>(b@),
            Err(e) => enc_arm(op@) == Err::<Seq<u8>, EncodeErrorModel>(e@),
        },
{
    match op {
        Op::Nop => Ok(le32_bytes(0xE320F000u32)),
        Op::Ret => Ok(le32_bytes(0xE12FFF1Eu32)),
        Op::Clear { dst } => {
            let rd = clamp_reg(dst.0, 12);
            Ok(le32_bytes(0xE3A00000u32 | (rd << 12u32)))
        },
        Op::MovImm { dst, imm } if *imm <= 0xff => {
            let rd = clamp_reg(dst.0, 12);
            Ok(le32_bytes(0xE3A00000u32 | (rd << 12u32) | (*imm & 0xffu32)))
        },
        Op::AddImm { dst, imm } if *imm <= 0xff => {
            let rd = clamp_reg(dst.0, 12);
            Ok(le32_bytes(0xE2800000u32 | (rd << 12u32) | (rd << 16u32) | (*imm & 0xffu32)))
        },
        Op::SubImm { dst, imm } if *imm <= 0xff => {
            let rd = clamp_reg(dst.0, 12);
            Ok(le32_bytes(0xE2400000u32 | (rd << 12u32) | (rd << 16u32) | (*imm & 0xffu32)))
        },
        Op::Inc { dst } => {
            let rd = clamp_reg(dst.0, 12);
            Ok(le32_bytes(0xE2800000u32 | (rd << 12u32) | (rd << 16u32) | 1u32))
        },
        Op::Dec { dst } => {
            let rd = clamp_reg(dst.0, 12);
            Ok(le32_bytes(0xE2400000u32 | (rd << 12u32) | (rd << 16u32) | 1u32))
        },
        _ => Err(unsupported(op, TargetIsa::Arm)),
    }
}

// ---------------------------------------------------------------------------
// AArch64 (W registers, little-endian words; VReg → w0..w30)
// ---------------------------------------------------------------------------

/// AArch64 encoding of an operation.
pub open spec fn enc_aarch64(op: OpModel) -> Result<Seq<u8>, EncodeErrorModel> {
    match op {
        OpModel::Nop => Ok(le32(0xD503201Fu32)),
        OpModel::Ret => Ok(le32(0xD65F03C0u32)),
        OpModel::Clear { dst } => Ok(le32(0x2A1F03E0u32 | clamp(dst, 30))),
        OpModel::MovImm { dst, imm } => if imm <= 0xffff {
            Ok(le32(0x52800000u32 | ((imm & 0xffffu32) << 5u32) | clamp(dst, 30)))
        } else {
            unsup(TargetIsa::AArch64, op)
        },
        OpModel::AddImm { dst, imm } => if imm <= 0xfff {
            Ok(le32(0x11000000u32 | ((imm & 0xfffu32) << 10u32) | (clamp(dst, 30) << 5u32) | clamp(dst, 30)))
        } else {
            unsup(TargetIsa::AArch64, op)
        },
        OpModel::SubImm { dst, imm } => if imm <= 0xfff {
            Ok(le32(0x51000000u32 | ((imm & 0xfffu32) << 10u32) | (clamp(dst, 30) << 5u32) | clamp(dst, 30)))
        } else {
            unsup(TargetIsa::AArch64, op)
        },
        OpModel::Inc { dst } => Ok(le32(0x11000400u32 | (clamp(dst, 30) << 5u32) | clamp(dst, 30))),
        OpModel::Dec { dst } => Ok(le32(0x51000400u32 | (clamp(dst, 30) << 5u32) | clamp(dst, 30))),
        _ => unsup(TargetIsa::AArch64, op),
    }
}

fn encode_aarch64(op: &Op) -> (r: Result<Vec<u8>, EncodeError>)
    ensures
        match r {
            Ok(b) => enc_aarch64(op@) == Ok::<Seq<u8>, EncodeErrorModel>(b@),
            Err(e) => enc_aarch64(op@) == Err::<Seq<u8>, EncodeErrorModel>(e@),
        },
{
    match op {
        Op::Nop => Ok(le32_bytes(0xD503201Fu32)),
        Op::Ret => Ok(le32_bytes(0xD65F03C0u32)),
        Op::Clear { dst } => {
            let wd = clamp_reg(dst.0, 30);
            Ok(le32_bytes(0x2A1F03E0u32 | wd))
        },
        Op::MovImm { dst, imm } if *imm <= 0xffff => {
            let wd = clamp_reg(dst.0, 30);
            Ok(le32_bytes(0x52800000u32 | ((*imm & 0xffffu32) << 5u32) | wd))
        },
        Op::AddImm { dst, imm } if *imm <= 0xfff => {
            let wd = clamp_reg(dst.0, 30);
            Ok(le32_bytes(0x11000000u32 | ((*imm & 0xfffu32) << 10u32) | (wd << 5u32) | wd))
        },
        Op::SubImm { dst, imm } if *imm <= 0xfff => {
            let wd = clamp_reg(dst.0, 30);
            Ok(le32_bytes(0x51000000u32 | ((*imm & 0xfffu32) << 10u32) | (wd << 5u32) | wd))
        },
        Op::Inc { dst } => {
            let wd = clamp_reg(dst.0, 30);
            Ok(le32_bytes(0x11000400u32 | (wd << 5u32) | wd))
        },
        Op::Dec { dst } => {
            let wd = clamp_reg(dst.0, 30);
            Ok(le32_bytes(0x51000400u32 | (wd << 5u32) | wd))
        },
        _ => Err(unsupported(op, TargetIsa::AArch64)),
    }
}

// ---------------------------------------------------------------------------
// MIPS (big-endian words; VReg → $t0..$t7, i.e. r8..r15)
// ---------------------------------------------------------------------------

/// MIPS temporary register for a virtual register.
pub open spec fn mips_treg(d: u32) -> u32 {
    (8 + clamp(d, 7)) as u32
}

/// MIPS encoding of an operation.
pub open spec fn enc_mips(op: OpModel) -> Result<Seq<u8>, EncodeErrorModel> {
    match op {
        OpModel::Nop => Ok(be32(0u32)),
        OpModel::Ret => Ok(be32(0x03E00008u32) + be32(0u32)),
        OpModel::Clear { dst } => Ok(be32(0x00000025u32 | (mips_treg(dst) << 11u32))),
        OpModel::MovImm { dst, imm } => if simm_in(imm, -32768, 32767) {
            Ok(be32(0x24000000u32 | (mips_treg(dst) << 16u32) | ((imm as u16) as u32)))
        } else {
            unsup(TargetIsa::Mips, op)
        },
        OpModel::AddImm { dst, imm } => if simm_in(imm, -32768, 32767) {
            Ok(be32(0x24000000u32 | (mips_treg(dst) << 21u32) | (mips_treg(dst) << 16u32) | ((imm as u16) as u32)))
        } else {
            unsup(TargetIsa::Mips, op)
        },
        OpModel::SubImm { dst, imm } => if simm_in(imm, -32767, 32767) {
            Ok(be32(0x24000000u32 | (mips_treg(dst) << 21u32) | (mips_treg(dst) << 16u32) | neg16(imm)))
        } else {
            unsup(TargetIsa::Mips, op)
        },
        OpModel::Inc { dst } => Ok(be32(0x24000000u32 | (mips_treg(dst) << 21u32) | (mips_treg(dst) << 16u32) | 1u32)),
        OpModel::Dec { dst } => Ok(be32(0x24000000u32 | (mips_treg(dst) << 21u32) | (mips_treg(dst) << 16u32) | 0xffffu32)),
        _ => unsup(TargetIsa::Mips, op),
    }
}

fn encode_mips(op: &Op) -> (r: Result<Vec<u8>, EncodeError>)
    ensures
        match r {
            Ok(b) => enc_mips(op@) == Ok::<Seq<u8>, EncodeErrorModel>(b@),
            Err(e) => enc_mips(op@) == Err::<Seq<u8>, EncodeErrorModel>(e@),
        },
{
    match op {
        Op::Nop => Ok(be32_bytes(0u32)),
        Op::Ret => {
            let mut v = be32_bytes(0x03E00008u32);
            let mut d = be32_bytes(0u32);
            v.append(&mut d);
            Ok(v)
        },
        Op::Clear { dst } => {
            let t = 8 + clamp_reg(dst.0, 7);
            Ok(be32_bytes(0x00000025u32 | (t << 11u32)))
        },
        Op::MovImm { dst, imm } if (*imm as i32) >= -32768 && (*imm as i32) <= 32767 => {
            let t = 8 + clamp_reg(dst.0, 7);
            Ok(be32_bytes(0x24000000u32 | (t << 16u32) | ((*imm as u16) as u32)))
        },
        Op::AddImm { dst, imm } if (*imm as i32) >= -32768 && (*imm as i32) <= 32767 => {
            let t = 8 + clamp_reg(dst.0, 7);
            Ok(be32_bytes(0x24000000u32 | (t << 21u32) | (t << 16u32) | ((*imm as u16) as u32)))
        },
        Op::SubImm { dst, imm } if (*imm as i32) >= -32767 && (*imm as i32) <= 32767 => {
            let t = 8 + clamp_reg(dst.0, 7);
            let neg = neg16_exec(*imm);
            Ok(be32_bytes(0x24000000u32 | (t << 21u32) | (t << 16u32) | neg))
        },
        Op::Inc { dst } => {
            let t = 8 + clamp_reg(dst.0, 7);
            Ok(be32_bytes(0x24000000u32 | (t << 21u32) | (t << 16u32) | 1u32))
        },
        Op::Dec { dst } => {
            let t = 8 + clamp_reg(dst.0, 7);
            Ok(be32_bytes(0x24000000u32 | (t << 21u32) | (t << 16u32) | 0xffffu32))
        },
        _ => Err(unsupported(op, TargetIsa::Mips)),
    }
}

// ---------------------------------------------------------------------------
// PowerPC (big-endian words; VReg → r3..r31)
// ---------------------------------------------------------------------------

/// PowerPC register for a virtual register (r0 reads as zero in `addi`, r1/r2
/// are reserved by the ABI).
pub open spec fn ppc_reg(d: u32) -> u32 {
    (3 + clamp(d, 28)) as u32
}

/// PowerPC encoding of an operation.
pub open spec fn enc_ppc(op: OpModel) -> Result<Seq<u8>, EncodeErrorModel> {
    match op {
        OpModel::Nop => Ok(be32(0x60000000u32)),
        OpModel::Ret => Ok(be32(0x4E800020u32)),
        OpModel::Clear { dst } => Ok(be32(0x38000000u32 | (ppc_reg(dst) << 21u32))),
        OpModel::MovImm { dst, imm } => if simm_in(imm, -32768, 32767) {
            Ok(be32(0x38000000u32 | (ppc_reg(dst) << 21u32) | ((imm as u16) as u32)))
        } else {
            unsup(TargetIsa::Ppc, op)
        },
        OpModel::AddImm { dst, imm } => if simm_in(imm, -32768, 32767) {
            Ok(be32(0x38000000u32 | (ppc_reg(dst) << 21u32) | (ppc_reg(dst) << 16u32) | ((imm as u16) as u32)))
        } else {
            unsup(TargetIsa::Ppc, op)
        },
        OpModel::SubImm { dst, imm } => if simm_in(imm, -32767, 32767) {
            Ok(be32(0x38000000u32 | (ppc_reg(dst) << 21u32) | (ppc_reg(dst) << 16u32) | neg16(imm)))
        } else {
            unsup(TargetIsa::Ppc, op)
        },
        OpModel::Inc { dst } => Ok(be32(0x38000000u32 | (ppc_reg(dst) << 21u32) | (ppc_reg(dst) << 16u32) | 1u32)),
        OpModel::Dec { dst } => Ok(be32(0x38000000u32 | (ppc_reg(dst) << 21u32) | (ppc_reg(dst) << 16u32) | 0xffffu32)),
        _ => unsup(TargetIsa::Ppc, op),
    }
}

fn encode_ppc(op: &Op) -> (r: Result<Vec<u8>, EncodeError>)
    ensures
        match r {
            Ok(b) => enc_ppc(op@) == Ok::<Seq<u8>, EncodeErrorModel>(b@),
            Err(e) => enc_ppc(op@) == Err::<Seq<u8>, EncodeErrorModel>(e@),
        },
{
    match op {
        Op::Nop => Ok(be32_bytes(0x60000000u32)),
        Op::Ret => Ok(be32_bytes(0x4E800020u32)),
        Op::Clear { dst } => {
            let rr = 3 + clamp_reg(dst.0, 28);
            Ok(be32_bytes(0x38000000u32 | (rr << 21u32)))
        },
        Op::MovImm { dst, imm } if (*imm as i32) >= -32768 && (*imm as i32) <= 32767 => {
            let rr = 3 + clamp_reg(dst.0, 28);
            Ok(be32_bytes(0x38000000u32 | (rr << 21u32) | ((*imm as u16) as u32)))
        },
        Op::AddImm { dst, imm } if (*imm as i32) >= -32768 && (*imm as i32) <= 32767 => {
            let rr = 3 + clamp_reg(dst.0, 28);
            Ok(be32_bytes(0x38000000u32 | (rr << 21u32) | (rr << 16u32) | ((*imm as u16) as u32)))
        },
        Op::SubImm { dst, imm } if (*imm as i32) >= -32767 && (*imm as i32) <= 32767 => {
            let rr = 3 + clamp_reg(dst.0, 28);
            let neg = neg16_exec(*imm);
            Ok(be32_bytes(0x38000000u32 | (rr << 21u32) | (rr << 16u32) | neg))
        },
        Op::Inc { dst } => {
            let rr = 3 + clamp_reg(dst.0, 28);
            Ok(be32_bytes(0x38000000u32 | (rr << 21u32) | (rr << 16u32) | 1u32))
        },
        Op::Dec { dst } => {
            let rr = 3 + clamp_reg(dst.0, 28);
            Ok(be32_bytes(0x38000000u32 | (rr << 21u32) | (rr << 16u32) | 0xffffu32))
        },
        _ => Err(unsupported(op, TargetIsa::Ppc)),
    }
}

// ---------------------------------------------------------------------------
// SPARC (big-endian words; VReg → %l0..%l7, i.e. r16..r23)
// ---------------------------------------------------------------------------

/// SPARC local register for a virtual register.
pub open spec fn sparc_reg(d: u32) -> u32 {
    (16 + clamp(d, 7)) as u32
}

/// SPARC encoding of an operation.
pub open spec fn enc_sparc(op: OpModel) -> Result<Seq<u8>, EncodeErrorModel> {
    match op {
        OpModel::Nop => Ok(be32(0x01000000u32)),
        OpModel::Ret => Ok(be32(0x81C3E008u32) + be32(0x01000000u32)),
        OpModel::Clear { dst } => Ok(be32(0x80100000u32 | (sparc_reg(dst) << 25u32))),
        OpModel::MovImm { dst, imm } => if simm_in(imm, -4096, 4095) {
            Ok(be32(0x80102000u32 | (sparc_reg(dst) << 25u32) | (imm & 0x1fffu32)))
        } else {
            unsup(TargetIsa::Sparc, op)
        },
        _ => unsup(TargetIsa::Sparc, op),
    }
}

fn encode_sparc(op: &Op) -> (r: Result<Vec<u8>, EncodeError>)
    ensures
        match r {
            Ok(b) => enc_sparc(op@) == Ok::<Seq<u8>, EncodeErrorModel>(b@),
            Err(e) => enc_sparc(op@) == Err::<Seq<u8>, EncodeErrorModel>(e@),
        },
{
    match op {
        Op::Nop => Ok(be32_bytes(0x01000000u32)),
        Op::Ret => {
            let mut v = be32_bytes(0x81C3E008u32);
            let mut d = be32_bytes(0x01000000u32);
            v.append(&mut d);
            Ok(v)
        },
        Op::Clear { dst } => {
            let r = 16 + clamp_reg(dst.0, 7);
            Ok(be32_bytes(0x80100000u32 | (r << 25u32)))
        },
        Op::MovImm { dst, imm } if (*imm as i32) >= -4096 && (*imm as i32) <= 4095 => {
            let r = 16 + clamp_reg(dst.0, 7);
            Ok(be32_bytes(0x80102000u32 | (r << 25u32) | (*imm & 0x1fffu32)))
        },
        _ => Err(unsupported(op, TargetIsa::Sparc)),
    }
}

// ---------------------------------------------------------------------------
// SuperH (SH-2 / SH-4: little-endian halfwords; VReg → r0..r15)
// ---------------------------------------------------------------------------

/// SuperH register field for a virtual register.
pub open spec fn sh_reg(d: u32) -> u16 {
    clamp(d, 15) as u16
}

/// The 8-bit two's-complement field of `-imm` (for `imm <= 0x7f`).
pub open spec fn neg8(imm: u32) -> u16 {
    ((-(imm as i8)) as u8) as u16
}

fn neg8_exec(imm: u32) -> (r: u16)
    requires
        imm <= 0x7f,
    ensures
        r == neg8(imm),
{
    let s = imm as i8;
    let n: i8 = -s;
    (n as u8) as u16
}

/// SuperH encoding of an operation.
pub open spec fn enc_superh(op: OpModel) -> Result<Seq<u8>, EncodeErrorModel> {
    match op {
        OpModel::Nop => Ok(le16(0x0009u16)),
        OpModel::Ret => Ok(le16(0x000Bu16) + le16(0x0009u16)),
        OpModel::MovImm { dst, imm } => if imm <= 0x7f {
            Ok(le16(0xE000u16 | (sh_reg(dst) << 8u16) | ((imm as u16) & 0xffu16)))
        } else {
            unsup(TargetIsa::SuperH(SuperHFlavor::Sh2), op)
        },
        OpModel::AddImm { dst, imm } => if imm <= 0x7f {
            Ok(le16(0x7000u16 | (sh_reg(dst) << 8u16) | ((imm as u16) & 0xffu16)))
        } else {
            unsup(TargetIsa::SuperH(SuperHFlavor::Sh2), op)
        },
        OpModel::SubImm { dst, imm } => if imm <= 0x7f {
            Ok(le16(0x7000u16 | (sh_reg(dst) << 8u16) | neg8(imm)))
        } else {
            unsup(TargetIsa::SuperH(SuperHFlavor::Sh2), op)
        },
        OpModel::Clear { dst } => Ok(le16(0xE000u16 | (sh_reg(dst) << 8u16))),
        OpModel::Inc { dst } => Ok(le16(0x7000u16 | (sh_reg(dst) << 8u16) | 1u16)),
        OpModel::Dec { dst } => Ok(le16(0x7000u16 | (sh_reg(dst) << 8u16) | 0xffu16)),
        _ => unsup(TargetIsa::SuperH(SuperHFlavor::Sh2), op),
    }
}

fn encode_superh(op: &Op) -> (r: Result<Vec<u8>, EncodeError>)
    ensures
        match r {
            Ok(b) => enc_superh(op@) == Ok::<Seq<u8>, EncodeErrorModel>(b@),
            Err(e) => enc_superh(op@) == Err::<Seq<u8>, EncodeErrorModel>(e@),
        },
{
    match op {
        Op::Nop => Ok(le16_bytes(0x0009u16)),
        Op::Ret => {
            let mut v = le16_bytes(0x000Bu16);
            let mut d = le16_bytes(0x0009u16);
            v.append(&mut d);
            Ok(v)
        },
        Op::MovImm { dst, imm } if *imm <= 0x7f => {
            let n = clamp_reg(dst.0, 15) as u16;
            Ok(le16_bytes(0xE000u16 | (n << 8u16) | ((*imm as u16) & 0xffu16)))
        },
        Op::AddImm { dst, imm } if *imm <= 0x7f => {
            let n = clamp_reg(dst.0, 15) as u16;
            Ok(le16_bytes(0x7000u16 | (n << 8u16) | ((*imm as u16) & 0xffu16)))
        },
        Op::SubImm { dst, imm } if *imm <= 0x7f => {
            let n = clamp_reg(dst.0, 15) as u16;
            let neg = neg8_exec(*imm);
            Ok(le16_bytes(0x7000u16 | (n << 8u16) | neg))
        },
        Op::Clear { dst } => {
            let n = clamp_reg(dst.0, 15) as u16;
            Ok(le16_bytes(0xE000u16 | (n << 8u16)))
        },
        Op::Inc { dst } => {
            let n = clamp_reg(dst.0, 15) as u16;
            Ok(le16_bytes(0x7000u16 | (n << 8u16) | 1u16))
        },
        Op::Dec { dst } => {
            let n = clamp_reg(dst.0, 15) as u16;
            Ok(le16_bytes(0x7000u16 | (n << 8u16) | 0xffu16))
        },
        _ => Err(unsupported(op, TargetIsa::SuperH(SuperHFlavor::Sh2))),
    }
}

// ---------------------------------------------------------------------------
// DEC Alpha (little-endian words; immediates through LDA; VReg → r0..r31)
// ---------------------------------------------------------------------------

/// `lda rd, disp(rb)`.
pub open spec fn lda(rd: u32, disp: u32, rb: u32) -> u32 {
    0x20000000u32 | (rd << 21u32) | (rb << 16u32) | disp
}

fn lda_exec(rd: u32, disp: u32, rb: u32) -> (w: u32)
    ensures
        w == lda(rd, disp, rb),
{
    0x20000000u32 | (rd << 21u32) | (rb << 16u32) | disp
}

/// Alpha encoding of an operation.
pub open spec fn enc_alpha(op: OpModel) -> Result<Seq<u8>, EncodeErrorModel> {
    match op {
        OpModel::Nop => Ok(le32(0x23FF0000u32)),
        OpModel::Ret => Ok(le32(0x6BFA8001u32)),
        OpModel::Clear { dst } => Ok(le32(lda(clamp(dst, 31), 0, 31))),
        OpModel::MovImm { dst, imm } => if simm_in(imm, -32768, 32767) {
            Ok(le32(lda(clamp(dst, 31), (imm as u16) as u32, 31)))
        } else {
            unsup(TargetIsa::Alpha, op)
        },
        OpModel::AddImm { dst, imm } => if simm_in(imm, -32768, 32767) {
            Ok(le32(lda(clamp(dst, 31), (imm as u16) as u32, clamp(dst, 31))))
        } else {
            unsup(TargetIsa::Alpha, op)
        },
        OpModel::SubImm { dst, imm } => if simm_in(imm, -32767, 32767) {
            Ok(le32(lda(clamp(dst, 31), neg16(imm), clamp(dst, 31))))
        } else {
            unsup(TargetIsa::Alpha, op)
        },
        OpModel::Inc { dst } => Ok(le32(lda(clamp(dst, 31), 1, clamp(dst, 31)))),
        OpModel::Dec { dst } => Ok(le32(lda(clamp(dst, 31), 0xFFFF, clamp(dst, 31)))),
        _ => unsup(TargetIsa::Alpha, op),
    }
}

fn encode_alpha(op: &Op) -> (r: Result<Vec<u8>, EncodeError>)
    ensures
        match r {
            Ok(b) => enc_alpha(op@) == Ok::<Seq<u8>, EncodeErrorModel>(b@),
            Err(e) => enc_alpha(op@) == Err::<Seq<u8>, EncodeErrorModel>(e@),
        },
{
    match op {
        Op::Nop => Ok(le32_bytes(0x23FF0000u32)),
        Op::Ret => Ok(le32_bytes(0x6BFA8001u32)),
        Op::Clear { dst } => {
            let rd = clamp_reg(dst.0, 31);
            Ok(le32_bytes(lda_exec(rd, 0, 31)))
        },
        Op::MovImm { dst, imm } if (*imm as i32) >= -32768 && (*imm as i32) <= 32767 => {
            let rd = clamp_reg(dst.0, 31);
            Ok(le32_bytes(lda_exec(rd, (*imm as u16) as u32, 31)))
        },
        Op::AddImm { dst, imm } if (*imm as i32) >= -32768 && (*imm as i32) <= 32767 => {
            let rd = clamp_reg(dst.0, 31);
            Ok(le32_bytes(lda_exec(rd, (*imm as u16) as u32, rd)))
        },
        Op::SubImm { dst, imm } if (*imm as i32) >= -32767 && (*imm as i32) <= 32767 => {
            let rd = clamp_reg(dst.0, 31);
            let neg = neg16_exec(*imm);
            Ok(le32_bytes(lda_exec(rd, neg, rd)))
        },
        Op::Inc { dst } => {
            let rd = clamp_reg(dst.0, 31);
            Ok(le32_bytes(lda_exec(rd, 1, rd)))
        },
        Op::Dec { dst } => {
            let rd = clamp_reg(dst.0, 31);
            Ok(le32_bytes(lda_exec(rd, 0xFFFF, rd)))
        },
        _ => Err(unsupported(op, TargetIsa::Alpha)),
    }
}

// ---------------------------------------------------------------------------
// PA-RISC (big-endian words, one branch delay slot)
// ---------------------------------------------------------------------------

/// PA-RISC encoding of an operation.
pub open spec fn enc_parisc(op: OpModel) -> Result<Seq<u8>, EncodeErrorModel> {
    match op {
        OpModel::Nop => Ok(be32(0x08000240u32)),
        OpModel::Ret => Ok(be32(0xE840C000u32) + be32(0x08000240u32)),
        _ => unsup(TargetIsa::PaRisc, op),
    }
}

fn encode_parisc(op: &Op) -> (r: Result<Vec<u8>, EncodeError>)
    ensures
        match r {
            Ok(b) => enc_parisc(op@) == Ok::<Seq<u8>, EncodeErrorModel>(b@),
            Err(e) => enc_parisc(op@) == Err::<Seq<u8>, EncodeErrorModel>(e@),
        },
{
    match op {
        Op::Nop => Ok(be32_bytes(0x08000240u32)),
        Op::Ret => {
            let mut v = be32_bytes(0xE840C000u32);
            let mut d = be32_bytes(0x08000240u32);
            v.append(&mut d);
            Ok(v)
        },
        _ => Err(unsupported(op, TargetIsa::PaRisc)),
    }
}

// ---------------------------------------------------------------------------
// Targets with a semantic catalog entry but no encoder yet
// ---------------------------------------------------------------------------

/// Message of the encoders that are not written yet.
pub open spec fn pending_note(t: TargetIsa) -> Seq<char> {
    if t == TargetIsa::Ia64 {
        "EPIC bundle encoder pending \u{2014} semantic catalog only"@
    } else {
        "encoder pending \u{2014} semantic catalog only"@
    }
}

fn encode_pending(t: TargetIsa) -> (e: EncodeError)
    ensures
        e@ == EncodeErrorModel::Unsupported(t, pending_note(t)),
{
    let mut s = String::new();
    if t == TargetIsa::Ia64 {
        s.append("EPIC bundle encoder pending \u{2014} semantic catalog only");
    } else {
        s.append("encoder pending \u{2014} semantic catalog only");
    }
    EncodeError::Unsupported(t, s)
}

// ---------------------------------------------------------------------------
// ColdFire (68k-derived: big-endian, variable length; VReg → D0..D7)
// ---------------------------------------------------------------------------

/// ColdFire data (or address) register number for a virtual register.
pub open spec fn cf_reg(d: u32) -> u16 {
    clamp(d, 7) as u16
}

/// ColdFire encoding of an operation.
pub open spec fn enc_coldfire(op: OpModel) -> Result<Seq<u8>, EncodeErrorModel> {
    match op {
        OpModel::Nop => Ok(be16(0x4E71u16)),
        OpModel::Ret => Ok(be16(0x4E75u16)),
        OpModel::Clear { dst } => Ok(be16(0x4280u16 | (cf_reg(dst) << 3u16))),
        OpModel::MovImm { dst, imm } => if simm_in(imm, -128, 127) {
            Ok(be16(0x7000u16 | (cf_reg(dst) << 9u16) | ((imm as u8) as u16)))
        } else {
            Ok(be16(0x203Cu16 | (cf_reg(dst) << 6u16)) + be32(imm))
        },
        OpModel::AddImm { dst, imm } => Ok(be16(0x0680u16 | (cf_reg(dst) << 3u16)) + be32(imm)),
        OpModel::SubImm { dst, imm } => Ok(be16(0x0480u16 | (cf_reg(dst) << 3u16)) + be32(imm)),
        OpModel::Inc { dst } => Ok(be16(0x5280u16 | (cf_reg(dst) << 3u16))),
        OpModel::Dec { dst } => Ok(be16(0x5380u16 | (cf_reg(dst) << 3u16))),
        OpModel::Push { src } => Ok(be16(0x2F00u16 | cf_reg(src))),
        OpModel::Pop { dst } => Ok(be16(0x201Fu16 | (cf_reg(dst) << 9u16))),
        OpModel::LdMem { dst, base, offset, width } => if offset == 0 && width == 4 {
            Ok(be16(0x2010u16 | (cf_reg(dst) << 9u16) | cf_reg(base)))
        } else {
            unsup(TargetIsa::ColdFire, op)
        },
        OpModel::StMem { src, base, offset, width } => if offset == 0 && width == 4 {
            Ok(be16(0x2080u16 | (cf_reg(base) << 9u16) | cf_reg(src)))
        } else {
            unsup(TargetIsa::ColdFire, op)
        },
        _ => unsup(TargetIsa::ColdFire, op),
    }
}

fn encode_coldfire(op: &Op) -> (r: Result<Vec<u8>, EncodeError>)
    ensures
        match r {
            Ok(b) => enc_coldfire(op@) == Ok::<Seq<u8>, EncodeErrorModel>(b@),
            Err(e) => enc_coldfire(op@) == Err::<Seq<u8>, EncodeErrorModel>(e@),
        },
{
    match op {
        Op::Nop => Ok(be16_bytes(0x4E71u16)),
        Op::Ret => Ok(be16_bytes(0x4E75u16)),
        Op::Clear { dst } => {
            let dn = clamp_reg(dst.0, 7) as u16;
            Ok(be16_bytes(0x4280u16 | (dn << 3u16)))
        },
        Op::MovImm { dst, imm } => {
            let dn = clamp_reg(dst.0, 7) as u16;
            if (*imm as i32) >= -128 && (*imm as i32) <= 127 {
                Ok(be16_bytes(0x7000u16 | (dn << 9u16) | ((*imm as u8) as u16)))
            } else {
                let mut v = be16_bytes(0x203Cu16 | (dn << 6u16));
                let mut w = be32_bytes(*imm);
                v.append(&mut w);
                Ok(v)
            }
        },
        Op::AddImm { dst, imm } => {
            let dn = clamp_reg(dst.0, 7) as u16;
            let mut v = be16_bytes(0x0680u16 | (dn << 3u16));
            let mut w = be32_bytes(*imm);
            v.append(&mut w);
            Ok(v)
        },
        Op::SubImm { dst, imm } => {
            let dn = clamp_reg(dst.0, 7) as u16;
            let mut v = be16_bytes(0x0480u16 | (dn << 3u16));
            let mut w = be32_bytes(*imm);
            v.append(&mut w);
            Ok(v)
        },
        Op::Inc { dst } => {
            let dn = clamp_reg(dst.0, 7) as u16;
            Ok(be16_bytes(0x5280u16 | (dn << 3u16)))
        },
        Op::Dec { dst } => {
            let dn = clamp_reg(dst.0, 7) as u16;
            Ok(be16_bytes(0x5380u16 | (dn << 3u16)))
        },
        Op::Push { src } => {
            let dn = clamp_reg(src.0, 7) as u16;
            Ok(be16_bytes(0x2F00u16 | dn))
        },
        Op::Pop { dst } => {
            let dn = clamp_reg(dst.0, 7) as u16;
            Ok(be16_bytes(0x201Fu16 | (dn << 9u16)))
        },
        Op::LdMem { dst, base, offset, width } if *offset == 0 && *width == 4 => {
            let an = clamp_reg(base.0, 7) as u16;
            let dn = clamp_reg(dst.0, 7) as u16;
            Ok(be16_bytes(0x2010u16 | (dn << 9u16) | an))
        },
        Op::StMem { src, base, offset, width } if *offset == 0 && *width == 4 => {
            let an = clamp_reg(base.0, 7) as u16;
            let dn = clamp_reg(src.0, 7) as u16;
            Ok(be16_bytes(0x2080u16 | (an << 9u16) | dn))
        },
        _ => Err(unsupported(op, TargetIsa::ColdFire)),
    }
}

// ---------------------------------------------------------------------------
// Dispatch
// ---------------------------------------------------------------------------

/// Encoding of one operation for `t`.
pub open spec fn enc_op(op: OpModel, t: TargetIsa) -> Result<Seq<u8>, EncodeErrorModel> {
    match t {
        TargetIsa::X86_64 => enc_x86(op),
        TargetIsa::Arm => enc_arm(op),
        TargetIsa::AArch64 => enc_aarch64(op),
        TargetIsa::Mips => enc_mips(op),
        TargetIsa::Ppc => enc_ppc(op),
        TargetIsa::Sparc => enc_sparc(op),
        TargetIsa::SuperH(_) => enc_superh(op),
        TargetIsa::Alpha => enc_alpha(op),
        TargetIsa::PaRisc => enc_parisc(op),
        TargetIsa::M88k | TargetIsa::Ia64 | TargetIsa::I860 => Err(
            EncodeErrorModel::Unsupported(t, pending_note(t)),
        ),
        TargetIsa::ColdFire => enc_coldfire(op),
    }
}

/// Concatenated encodings of `ops` for `t`; the first operation that cannot be
/// encoded decides the error.
pub open spec fn enc_ops(ops: Seq<OpModel>, t: TargetIsa) -> Result<Seq<u8>, EncodeErrorModel>
    decreases ops.len(),
{
    if ops.len() == 0 {
        Ok(Seq::empty())
    } else {
        match enc_ops(ops.drop_last(), t) {
            Err(e) => Err(e),
            Ok(b) => match enc_op(ops.last(), t) {
                Ok(c) => Ok(b + c),
                Err(e) => Err(e),
            },
        }
    }
}

/// Once a prefix fails to encode, so does the whole sequence, with the same error.
proof fn lemma_enc_ops_prefix_err(s: Seq<OpModel>, k: int, t: TargetIsa)
    requires
        0 <= k <= s.len(),
        enc_ops(s.subrange(0, k), t) is Err,
    ensures
        enc_ops(s, t) == enc_ops(s.subrange(0, k), t),
    decreases s.len(),
{
    if k < s.len() {
        assert(s.drop_last().subrange(0, k) =~= s.subrange(0, k));
        lemma_enc_ops_prefix_err(s.drop_last(), k, t);
    } else {
        assert(s.subrange(0, k) =~= s);
    }
}

fn encode_op(op: &Op, target: TargetIsa) -> (r: Result<Vec<u8>, EncodeError>)
    ensures
        match r {
            Ok(b) => enc_op(op@, target) == Ok::<Seq<u8>, EncodeErrorModel>(b@),
            Err(e) => enc_op(op@, target) == Err::<Seq<u8>, EncodeErrorModel>(e@),
        },
{
    match target {
        TargetIsa::X86_64 => encode_x86(op),
        TargetIsa::Arm => encode_arm(op),
        TargetIsa::AArch64 => encode_aarch64(op),
        TargetIsa::Mips => encode_mips(op),
        TargetIsa::Ppc => encode_ppc(op),
        TargetIsa::Sparc => encode_sparc(op),
        TargetIsa::SuperH(_) => encode_superh(op),
        TargetIsa::Alpha => encode_alpha(op),
        TargetIsa::PaRisc => encode_parisc(op),
        TargetIsa::M88k | TargetIsa::Ia64 | TargetIsa::I860 => Err(encode_pending(target)),
        TargetIsa::ColdFire => encode_coldfire(op),
    }
}

/// Encodes a sequence of operations for `target`, stopping at the first error.
pub fn encode_ops(ops: &Vec<Op>, target: TargetIsa) -> (r: Result<Vec<u8>, EncodeError>)
    ensures
        match r {
            Ok(b) => enc_ops(ops_model(ops@), target) == Ok::<Seq<u8>, EncodeErrorModel>(b@),
            Err(e) => enc_ops(ops_model(ops@), target) == Err::<Seq<u8>, EncodeErrorModel>(e@),
        },
{
    let mut out: Vec<u8> = Vec::new();
    let mut i: usize = 0;
    while i < ops.len()
        invariant
            i <= ops.len(),
            enc_ops(ops_model(ops@).subrange(0, i as int), target)
                == Ok::<Seq<u8>, EncodeErrorModel>(out@),
        decreases ops.len() - i,
    {
        let ghost prefix = ops_model(ops@).subrange(0, i as int + 1);
        proof {
            assert(prefix.drop_last() =~= ops_model(ops@).subrange(0, i as int));
            assert(prefix.last() == ops@[i as int]@);
        }
        match encode_op(&ops[i], target) {
            Ok(b) => {
                let mut b = b;
                out.append(&mut b);
            },
            Err(e) => {
                proof {
                    lemma_enc_ops_prefix_err(ops_model(ops@), i as int + 1, target);
                }
                return Err(e);
            },
        }
        i = i + 1;
    }
    assert(ops_model(ops@).subrange(0, ops.len() as int) =~= ops_model(ops@));
    Ok(out)
}

/// The operations that [`encode_module`] encodes: the entry block of the first
/// function.
pub open spec fn entry_ops(m: Module) -> Seq<OpModel> {
    ops_model(m.functions@[0].blocks@[0].ops@)
}

/// Encodes the entry block of the module's first function to raw machine code
/// for `target`.
pub fn encode_module(module: &Module, target: TargetIsa) -> (r: Result<Vec<u8>, EncodeError>)
    requires
        module.functions.len() > 0,
        module.functions@[0].blocks.len() > 0,
    ensures
        match r {
            Ok(b) => enc_ops(entry_ops(*module), target) == Ok::<Seq<u8>, EncodeErrorModel>(b@),
            Err(e) => enc_ops(entry_ops(*module), target) == Err::<Seq<u8>, EncodeErrorModel>(e@),
        },
{
    encode_ops(&module.functions[0].blocks[0].ops, target)
}

/// Encoding a concatenation: `a + b` encodes exactly when both parts do, to
/// the concatenation of their encodings; otherwise it fails with the error of
/// `a` when `a` fails, else with that of `b`.
pub proof fn lemma_enc_ops_concat(a: Seq<OpModel>, b: Seq<OpModel>, t: TargetIsa)
    ensures
        enc_ops(a + b, t) == match enc_ops(a, t) {
            Err(e) => Err(e),
            Ok(x) => match enc_ops(b, t) {
                Ok(y) => Ok(x + y),
                Err(e) => Err(e),
            },
        },
    decreases b.len(),
{
    if b.len() == 0 {
        assert(a + b =~= a);
        if let Ok(x) = enc_ops(a, t) {
            assert(x + Seq::<u8>::empty() =~= x);
        }
    } else {
        lemma_enc_ops_concat(a, b.drop_last(), t);
        assert((a + b).drop_last() =~= a + b.drop_last());
        assert((a + b).last() == b.last());
        if let Ok(x) = enc_ops(a, t) {
            if let Ok(y) = enc_ops(b.drop_last(), t) {
                if let Ok(c) = enc_op(b.last(), t) {
                    assert(x + y + c =~= x + (y + c));
                }
            }
        }
    }
}

/// A sequence fails to encode exactly when one of its operations does, and
/// then with the error of the first operation that fails.
pub proof fn lemma_enc_ops_first_error(ops: Seq<OpModel>, t: TargetIsa)
    ensures
        enc_ops(ops, t) is Err <==> exists|i: int| 0 <= i < ops.len() && #[trigger] enc_op(ops[i], t) is Err,
        enc_ops(ops, t) matches Err(e) ==> exists|i: int|
            0 <= i < ops.len() && #[trigger] enc_op(ops[i], t) == Err::<Seq<u8>, EncodeErrorModel>(e)
                && forall|j: int| 0 <= j < i ==> #[trigger] enc_op(ops[j], t) is Ok,
    decreases ops.len(),
{
    if ops.len() > 0 {
        let init = ops.drop_last();
        let n = ops.len() - 1;
        lemma_enc_ops_first_error(init, t);
        assert forall|i: int| 0 <= i < init.len() implies #[trigger] init[i] == ops[i] by {}
        match enc_ops(init, t) {
            Err(e) => {
                let i = choose|i: int|
                    0 <= i < init.len() && #[trigger] enc_op(init[i], t) == Err::<Seq<u8>, EncodeErrorModel>(e)
                        && forall|j: int| 0 <= j < i ==> #[trigger] enc_op(init[j], t) is Ok;
                assert(enc_op(ops[i], t) == Err::<Seq<u8>, EncodeErrorModel>(e));
                assert forall|j: int| 0 <= j < i implies #[trigger] enc_op(ops[j], t) is Ok by {
                    assert(enc_op(init[j], t) is Ok);
                }
            },
            Ok(_) => {
                assert forall|j: int| 0 <= j < n implies #[trigger] enc_op(ops[j], t) is Ok by {
                    if enc_op(ops[j], t) is Err {
                        assert(enc_op(init[j], t) is Err);
                    }
                }
                if enc_op(ops[n], t) is Err {
                    assert(enc_op(ops[n], t) is Err);
                } else {
                    assert forall|i: int| 0 <= i < ops.len() implies !(#[trigger] enc_op(ops[i], t) is Err) by {
                        if i < n {
                            assert(enc_op(ops[i], t) is Ok);
                        }
                    }
                }
            },
        }
    }
}

} // verus!
