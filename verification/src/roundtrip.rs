//! The codec round trip: encoding an operation and decoding the bytes gives
//! back an operation of the same meaning, for the operations each target
//! encodes faithfully.

use vstd::prelude::*;

use crate::sir::OpModel;
use crate::target::TargetIsa;
use crate::lift::{LiftError, LiftStep, lift_step, lift_from, lift_spec};
use crate::encode::{enc_op, enc_ops};
use crate::decode::{dec_step, decode_from, decode_spec, decodable, lemma_step_advances, prepend};
use crate::encode::{
    be16, be32, le16, le32, enc_mips, mips_treg, neg16, neg8, simm_in, clamp, enc_ppc, ppc_reg,
    enc_superh, sh_reg, enc_alpha, lda, enc_parisc, enc_coldfire, cf_reg, enc_arm, enc_aarch64,
    enc_sparc, sparc_reg, enc_x86, reg3,
};
use crate::decode::{
    be_at, be_word, le_at, be_half_at, le_half_at, arith, sext16, sat_sub, mips_step, mips_op,
    DecStep, delay_gap, ppc_step, ppc_op, superh_step, superh_op, alpha_step, alpha_op,
    parisc_step, coldfire_step, arm_step, arm_op, aarch64_step, aarch64_op, sparc_step, sparc_op,
    x86_step, x86_83_op,
};

verus! {

/// The meaning of an operation as the semantic round trip compares it:
/// clearing is moving zero, and increments, decrements and subtractions are
/// additions of a signed 32-bit amount.
pub enum SemOp {
    Nop,
    Ret,
    MovImm { dst: u32, val: int },
    AddImm { dst: u32, val: int },
    Push { src: u32 },
    Pop { dst: u32 },
    Call { name: Seq<char> },
    Jmp { name: Seq<char> },
    LdMem { dst: u32, base: u32, offset: i32, width: u8 },
    StMem { src: u32, base: u32, offset: i32, width: u8 },
    Gap,
}

/// The name a branch is compared by: its symbol, or `?` when unresolved.
pub open spec fn symbol_name(s: Option<Seq<char>>) -> Seq<char> {
    match s {
        Some(t) => t,
        None => "?"@,
    }
}

/// The signed 32-bit negation of `imm` read as `i32`, wrapping at the minimum
/// (as `imm.wrapping_neg()` read as `i32`).
pub open spec fn neg_i32(imm: u32) -> int {
    let v = (imm as i32) as int;
    if v == i32::MIN {
        v
    } else {
        -v
    }
}

/// The meaning of an operation.
pub open spec fn sem(op: OpModel) -> SemOp {
    match op {
        OpModel::Nop => SemOp::Nop,
        OpModel::Ret => SemOp::Ret,
        OpModel::MovImm { dst, imm } => SemOp::MovImm { dst, val: (imm as i32) as int },
        OpModel::AddImm { dst, imm } => SemOp::AddImm { dst, val: (imm as i32) as int },
        OpModel::SubImm { dst, imm } => SemOp::AddImm { dst, val: neg_i32(imm) },
        OpModel::Clear { dst } => SemOp::MovImm { dst, val: 0 },
        OpModel::Inc { dst } => SemOp::AddImm { dst, val: 1 },
        OpModel::Dec { dst } => SemOp::AddImm { dst, val: -1 },
        OpModel::Push { src } => SemOp::Push { src },
        OpModel::Pop { dst } => SemOp::Pop { dst },
        OpModel::CallRel { symbol, .. } => SemOp::Call { name: symbol_name(symbol) },
        OpModel::JmpRel { symbol, .. } => SemOp::Jmp { name: symbol_name(symbol) },
        OpModel::LdMem { dst, base, offset, width } => SemOp::LdMem { dst, base, offset, width },
        OpModel::StMem { src, base, offset, width } => SemOp::StMem { src, base, offset, width },
        OpModel::Unknown { .. } => SemOp::Gap,
    }
}

proof fn lemma_sem_arith(dst: u32, v: int)
    requires
        -0x7fffffff <= v <= 0x7fffffff,
    ensures
        sem(arith(dst, v)) == (SemOp::AddImm { dst, val: v }),
        !(arith(dst, v) is Unknown),
{
}

// ---------------------------------------------------------------------------
// Reading back the bytes the encoders write
// ---------------------------------------------------------------------------

proof fn lemma_word(w: u32)
    by (bit_vector)
    ensures
        be_word((w >> 24u32) as u8, (w >> 16u32) as u8, (w >> 8u32) as u8, w as u8) == w,
{
}

proof fn lemma_half(h: u16)
    by (bit_vector)
    ensures
        ((((h >> 8u16) as u8) as u16) << 8u16) | ((h as u8) as u16) == h,
{
}

proof fn lemma_be_at(pre: Seq<u8>, w: u32, rest: Seq<u8>)
    ensures
        be_at(pre + be32(w) + rest, pre.len() as int) == w,
{
    let b = pre + be32(w) + rest;
    let i = pre.len() as int;
    assert(b[i] == be32(w)[0]);
    assert(b[i + 1] == be32(w)[1]);
    assert(b[i + 2] == be32(w)[2]);
    assert(b[i + 3] == be32(w)[3]);
    lemma_word(w);
}

proof fn lemma_le_at(pre: Seq<u8>, w: u32, rest: Seq<u8>)
    ensures
        le_at(pre + le32(w) + rest, pre.len() as int) == w,
{
    let b = pre + le32(w) + rest;
    let i = pre.len() as int;
    assert(b[i] == le32(w)[0]);
    assert(b[i + 1] == le32(w)[1]);
    assert(b[i + 2] == le32(w)[2]);
    assert(b[i + 3] == le32(w)[3]);
    lemma_word(w);
}

proof fn lemma_be_half_at(pre: Seq<u8>, h: u16, rest: Seq<u8>)
    ensures
        be_half_at(pre + be16(h) + rest, pre.len() as int) == h,
{
    let b = pre + be16(h) + rest;
    let i = pre.len() as int;
    assert(b[i] == be16(h)[0]);
    assert(b[i + 1] == be16(h)[1]);
    lemma_half(h);
}

proof fn lemma_le_half_at(pre: Seq<u8>, h: u16, rest: Seq<u8>)
    ensures
        le_half_at(pre + le16(h) + rest, pre.len() as int) == h,
{
    let b = pre + le16(h) + rest;
    let i = pre.len() as int;
    assert(b[i] == le16(h)[0]);
    assert(b[i + 1] == le16(h)[1]);
    lemma_half(h);
}

/// Sign extension of the 16-bit field the encoders write.
proof fn lemma_sext16_field(imm: u32)
    by (bit_vector)
    requires
        (imm as i32) >= -32768i32,
        (imm as i32) <= 32767i32,
    ensures
        ((((imm as u16) as u32) as u16) as i16) as i32 == imm as i32,
        (((((imm as u16) as u32) as u16) as i16) as i32) as u32 == imm,
        ((0xffffu32 as u16) as i16) as i32 == -1i32,
{
}

/// Sign extension of the negated 16-bit field.
proof fn lemma_sext16_neg(imm: u32)
    by (bit_vector)
    requires
        (imm as i32) >= -32767i32,
        (imm as i32) <= 32767i32,
    ensures
        (((((-(imm as i32)) as u16) as u32) as u16) as i16) as i32 == -(imm as i32),
{
}

// ---------------------------------------------------------------------------
// MIPS
// ---------------------------------------------------------------------------

proof fn lemma_mips_words(s: u32, t: u32, f: u32)
    by (bit_vector)
    requires
        s < 32,
        t < 32,
        f < 0x10000,
    ensures
        (0x24000000u32 | (t << 16u32) | f) >> 26u32 == 9,
        ((0x24000000u32 | (t << 16u32) | f) >> 21u32) & 0x1fu32 == 0,
        ((0x24000000u32 | (t << 16u32) | f) >> 16u32) & 0x1fu32 == t,
        (0x24000000u32 | (t << 16u32) | f) & 0xffffu32 == f,
        (0x24000000u32 | (t << 16u32) | f) != 0,
        (0x24000000u32 | (t << 16u32) | f) != 0x03E00008,
        (0x24000000u32 | (s << 21u32) | (s << 16u32) | f) >> 26u32 == 9,
        ((0x24000000u32 | (s << 21u32) | (s << 16u32) | f) >> 21u32) & 0x1fu32 == s,
        ((0x24000000u32 | (s << 21u32) | (s << 16u32) | f) >> 16u32) & 0x1fu32 == s,
        (0x24000000u32 | (s << 21u32) | (s << 16u32) | f) & 0xffffu32 == f,
        (0x24000000u32 | (s << 21u32) | (s << 16u32) | f) != 0,
        (0x24000000u32 | (s << 21u32) | (s << 16u32) | f) != 0x03E00008,
        (0x00000025u32 | (t << 11u32)) >> 26u32 == 0,
        (0x00000025u32 | (t << 11u32)) & 0x3fu32 == 0x25,
        ((0x00000025u32 | (t << 11u32)) >> 21u32) & 0x1fu32 == 0,
        ((0x00000025u32 | (t << 11u32)) >> 16u32) & 0x1fu32 == 0,
        ((0x00000025u32 | (t << 11u32)) >> 11u32) & 0x1fu32 == t,
        (0x00000025u32 | (t << 11u32)) != 0,
        (0x00000025u32 | (t << 11u32)) != 0x03E00008,
{
}

/// What decoding gives back for an operation of a register-immediate ISA:
/// additions and subtractions come back in canonical form.
pub open spec fn arith_form(op: OpModel) -> OpModel {
    match op {
        OpModel::AddImm { dst, imm } => arith(dst, (imm as i32) as int),
        OpModel::SubImm { dst, imm } => arith(dst, -((imm as i32) as int)),
        _ => op,
    }
}

proof fn lemma_mips(op: OpModel, pre: Seq<u8>, rest: Seq<u8>)
    requires
        reg_imm16_faithful(op, 7),
    ensures
        enc_mips(op) is Ok,
        mips_step(pre + enc_mips(op)->Ok_0 + rest, pre.len()) == DecStep::Emit(
            seq![arith_form(op)],
            enc_mips(op)->Ok_0.len(),
        ),
{
    let i = pre.len();
    match op {
        OpModel::Ret => {
            let b = pre + enc_mips(op)->Ok_0 + rest;
            assert(b =~= pre + be32(0x03E00008u32) + (be32(0u32) + rest));
            lemma_be_at(pre, 0x03E00008u32, be32(0u32) + rest);
            assert(b =~= (pre + be32(0x03E00008u32)) + be32(0u32) + rest);
            lemma_be_at(pre + be32(0x03E00008u32), 0u32, rest);
            assert(seq![OpModel::Ret] + delay_gap(false, i + 4, be32(0u32), "jr $ra delay slot is not a nop"@)
                =~= seq![OpModel::Ret]);
            assert(be_at(b, i as int) == 0x03E00008u32);
            assert(be_at(b, i + 4int) == 0u32);
            assert(i + 8 <= b.len());
            assert(enc_mips(op)->Ok_0.len() == 8);
            let d = be_at(b, i + 4int);
            assert(delay_gap(d != 0, i + 4, be32(d), "jr $ra delay slot is not a nop"@) =~= Seq::<OpModel>::empty());
            assert(mips_step(b, i) == DecStep::Emit(seq![OpModel::Ret], 8));
            assert(seq![arith_form(op)] == seq![OpModel::Ret]);
            assert(mips_step(pre + enc_mips(op)->Ok_0 + rest, pre.len()) == DecStep::Emit(seq![OpModel::Ret], 8));
            assert(enc_mips(op) is Ok);
        },
        OpModel::Nop => {
            lemma_be_at(pre, 0u32, rest);
        },
        OpModel::Clear { dst } => {
            let t = mips_treg(dst);
            lemma_mips_words(t, t, 0);
            lemma_be_at(pre, 0x00000025u32 | (t << 11u32), rest);
        },
        OpModel::MovImm { dst, imm } => {
            let t = mips_treg(dst);
            lemma_mips_words(t, t, (imm as u16) as u32);
            lemma_sext16_field(imm);
            lemma_be_at(pre, 0x24000000u32 | (t << 16u32) | ((imm as u16) as u32), rest);
        },
        OpModel::AddImm { dst, imm } => {
            let t = mips_treg(dst);
            lemma_mips_words(t, t, (imm as u16) as u32);
            lemma_sext16_field(imm);
            lemma_be_at(pre, 0x24000000u32 | (t << 21u32) | (t << 16u32) | ((imm as u16) as u32), rest);
        },
        OpModel::SubImm { dst, imm } => {
            let t = mips_treg(dst);
            lemma_mips_words(t, t, neg16(imm));
            lemma_sext16_neg(imm);
            lemma_be_at(pre, 0x24000000u32 | (t << 21u32) | (t << 16u32) | neg16(imm), rest);
        },
        OpModel::Inc { dst } => {
            let t = mips_treg(dst);
            lemma_mips_words(t, t, 1);
            lemma_be_at(pre, 0x24000000u32 | (t << 21u32) | (t << 16u32) | 1u32, rest);
        },
        OpModel::Dec { dst } => {
            let t = mips_treg(dst);
            lemma_mips_words(t, t, 0xffff);
            lemma_sext16_field(0);
            lemma_be_at(pre, 0x24000000u32 | (t << 21u32) | (t << 16u32) | 0xffffu32, rest);
        },
        _ => {},
    }
}


/// The operations a register-immediate ISA with 16-bit immediates and
/// registers up to `hi` carries faithfully.
pub open spec fn reg_imm16_faithful(op: OpModel, hi: u32) -> bool {
    match op {
        OpModel::Nop | OpModel::Ret => true,
        OpModel::Clear { dst } | OpModel::Inc { dst } | OpModel::Dec { dst } => dst <= hi,
        OpModel::MovImm { dst, imm } | OpModel::AddImm { dst, imm } => dst <= hi && simm_in(
            imm,
            -32768,
            32767,
        ),
        OpModel::SubImm { dst, imm } => dst <= hi && simm_in(imm, -32767, 32767),
        _ => false,
    }
}

/// `Clear` as the move of zero some decoders return for it.
pub open spec fn clear_as_mov(op: OpModel) -> OpModel {
    match op {
        OpModel::Clear { dst } => OpModel::MovImm { dst, imm: 0 },
        _ => op,
    }
}

// ---------------------------------------------------------------------------
// PowerPC
// ---------------------------------------------------------------------------

proof fn lemma_ppc_words(r: u32, f: u32)
    by (bit_vector)
    requires
        3 <= r < 32,
        f < 0x10000,
    ensures
        (0x38000000u32 | (r << 21u32)) >> 26u32 == 14,
        ((0x38000000u32 | (r << 21u32)) >> 21u32) & 0x1fu32 == r,
        ((0x38000000u32 | (r << 21u32)) >> 16u32) & 0x1fu32 == 0,
        (0x38000000u32 | (r << 21u32)) & 0xffffu32 == 0,
        (0x38000000u32 | (r << 21u32)) != 0x4E800020,
        (0x38000000u32 | (r << 21u32)) != 0x60000000,
        (0x38000000u32 | (r << 21u32) | f) >> 26u32 == 14,
        ((0x38000000u32 | (r << 21u32) | f) >> 21u32) & 0x1fu32 == r,
        ((0x38000000u32 | (r << 21u32) | f) >> 16u32) & 0x1fu32 == 0,
        (0x38000000u32 | (r << 21u32) | f) & 0xffffu32 == f,
        (0x38000000u32 | (r << 21u32) | f) != 0x4E800020,
        (0x38000000u32 | (r << 21u32) | f) != 0x60000000,
        (0x38000000u32 | (r << 21u32) | (r << 16u32) | f) >> 26u32 == 14,
        ((0x38000000u32 | (r << 21u32) | (r << 16u32) | f) >> 21u32) & 0x1fu32 == r,
        ((0x38000000u32 | (r << 21u32) | (r << 16u32) | f) >> 16u32) & 0x1fu32 == r,
        (0x38000000u32 | (r << 21u32) | (r << 16u32) | f) & 0xffffu32 == f,
        (0x38000000u32 | (r << 21u32) | (r << 16u32) | f) != 0x4E800020,
        (0x38000000u32 | (r << 21u32) | (r << 16u32) | f) != 0x60000000,
{
}

proof fn lemma_ppc(op: OpModel, pre: Seq<u8>, rest: Seq<u8>)
    requires
        reg_imm16_faithful(op, 28),
    ensures
        enc_ppc(op) is Ok,
        ppc_step(pre + enc_ppc(op)->Ok_0 + rest, pre.len()) == DecStep::Emit(
            seq![clear_as_mov(arith_form(op))],
            enc_ppc(op)->Ok_0.len(),
        ),
{
    lemma_sext16_field(0);
    match op {
        OpModel::Nop => {
            lemma_be_at(pre, 0x60000000u32, rest);
        },
        OpModel::Ret => {
            lemma_be_at(pre, 0x4E800020u32, rest);
        },
        OpModel::Clear { dst } => {
            let r = ppc_reg(dst);
            lemma_ppc_words(r, 0);
            lemma_be_at(pre, 0x38000000u32 | (r << 21u32), rest);
        },
        OpModel::MovImm { dst, imm } => {
            let r = ppc_reg(dst);
            lemma_ppc_words(r, (imm as u16) as u32);
            lemma_sext16_field(imm);
            lemma_be_at(pre, 0x38000000u32 | (r << 21u32) | ((imm as u16) as u32), rest);
        },
        OpModel::AddImm { dst, imm } => {
            let r = ppc_reg(dst);
            lemma_ppc_words(r, (imm as u16) as u32);
            lemma_sext16_field(imm);
            lemma_be_at(pre, 0x38000000u32 | (r << 21u32) | (r << 16u32) | ((imm as u16) as u32), rest);
        },
        OpModel::SubImm { dst, imm } => {
            let r = ppc_reg(dst);
            lemma_ppc_words(r, neg16(imm));
            lemma_sext16_neg(imm);
            lemma_be_at(pre, 0x38000000u32 | (r << 21u32) | (r << 16u32) | neg16(imm), rest);
        },
        OpModel::Inc { dst } => {
            let r = ppc_reg(dst);
            lemma_ppc_words(r, 1);
            lemma_be_at(pre, 0x38000000u32 | (r << 21u32) | (r << 16u32) | 1u32, rest);
        },
        OpModel::Dec { dst } => {
            let r = ppc_reg(dst);
            lemma_ppc_words(r, 0xffff);
            lemma_be_at(pre, 0x38000000u32 | (r << 21u32) | (r << 16u32) | 0xffffu32, rest);
        },
        _ => {},
    }
}

// ---------------------------------------------------------------------------
// SuperH
// ---------------------------------------------------------------------------

/// The operations the SuperH codec carries faithfully.
pub open spec fn superh_faithful(op: OpModel) -> bool {
    match op {
        OpModel::Nop | OpModel::Ret => true,
        OpModel::Clear { dst } | OpModel::Inc { dst } | OpModel::Dec { dst } => dst <= 15,
        OpModel::MovImm { dst, imm } | OpModel::AddImm { dst, imm } | OpModel::SubImm {
            dst,
            imm,
        } => dst <= 15 && imm <= 0x7f,
        _ => false,
    }
}

proof fn lemma_superh_words(n: u16, f: u16, imm: u32)
    by (bit_vector)
    requires
        n < 16,
        f < 0x100,
        imm <= 0x7f,
    ensures
        (0xE000u16 | (n << 8u16)) & 0xF000u16 == 0xE000,
        ((0xE000u16 | (n << 8u16)) >> 8u16) & 0x0fu16 == n,
        (0xE000u16 | (n << 8u16)) & 0xffu16 == 0,
        (0xE000u16 | (n << 8u16)) != 0x000B,
        (0xE000u16 | (n << 8u16)) != 0x0009,
        (0xE000u16 | (n << 8u16) | f) & 0xF000u16 == 0xE000,
        ((0xE000u16 | (n << 8u16) | f) >> 8u16) & 0x0fu16 == n,
        (0xE000u16 | (n << 8u16) | f) & 0xffu16 == f,
        (0xE000u16 | (n << 8u16) | f) != 0x000B,
        (0xE000u16 | (n << 8u16) | f) != 0x0009,
        (0x7000u16 | (n << 8u16) | f) & 0xF000u16 == 0x7000,
        ((0x7000u16 | (n << 8u16) | f) >> 8u16) & 0x0fu16 == n,
        (0x7000u16 | (n << 8u16) | f) & 0xffu16 == f,
        (0x7000u16 | (n << 8u16) | f) != 0x000B,
        (0x7000u16 | (n << 8u16) | f) != 0x0009,
        (0xE000u16 | (n << 8u16) | ((imm as u16) & 0xffu16)) & 0xF000u16 == 0xE000,
        ((0xE000u16 | (n << 8u16) | ((imm as u16) & 0xffu16)) >> 8u16) & 0x0fu16 == n,
        (0xE000u16 | (n << 8u16) | ((imm as u16) & 0xffu16)) & 0xffu16 == (imm as u16) & 0xffu16,
        (0xE000u16 | (n << 8u16) | ((imm as u16) & 0xffu16)) != 0x000B,
        (0xE000u16 | (n << 8u16) | ((imm as u16) & 0xffu16)) != 0x0009,
        (0x7000u16 | (n << 8u16) | ((imm as u16) & 0xffu16)) & 0xF000u16 == 0x7000,
        ((0x7000u16 | (n << 8u16) | ((imm as u16) & 0xffu16)) >> 8u16) & 0x0fu16 == n,
        (0x7000u16 | (n << 8u16) | ((imm as u16) & 0xffu16)) & 0xffu16 == (imm as u16) & 0xffu16,
        (0x7000u16 | (n << 8u16) | ((imm as u16) & 0xffu16)) != 0x000B,
        (0x7000u16 | (n << 8u16) | ((imm as u16) & 0xffu16)) != 0x0009,
        ((((imm as u16) & 0xffu16) as u8) as i8) as u32 == imm,
        ((((imm as u16) & 0xffu16) as u8) as i8) as i32 == imm as i32,
        (((((-(imm as i8)) as u8) as u16) as u8) as i8) as i32 == -(imm as i32),
        ((0xffu16 as u8) as i8) as i32 == -1i32,
        ((1u16 as u8) as i8) as i32 == 1i32,
        ((0u16 as u8) as i8) as u32 == 0u32,
{
}

proof fn lemma_superh(op: OpModel, pre: Seq<u8>, rest: Seq<u8>)
    requires
        superh_faithful(op),
    ensures
        enc_superh(op) is Ok,
        superh_step(pre + enc_superh(op)->Ok_0 + rest, pre.len()) == DecStep::Emit(
            seq![clear_as_mov(arith_form(op))],
            enc_superh(op)->Ok_0.len(),
        ),
{
    let i = pre.len();
    match op {
        OpModel::Nop => {
            lemma_le_half_at(pre, 0x0009u16, rest);
        },
        OpModel::Ret => {
            let b = pre + enc_superh(op)->Ok_0 + rest;
            assert(b =~= pre + le16(0x000Bu16) + (le16(0x0009u16) + rest));
            lemma_le_half_at(pre, 0x000Bu16, le16(0x0009u16) + rest);
            assert(b =~= (pre + le16(0x000Bu16)) + le16(0x0009u16) + rest);
            lemma_le_half_at(pre + le16(0x000Bu16), 0x0009u16, rest);
            assert(seq![OpModel::Ret] + delay_gap(false, i + 2, le16(0x0009u16), "rts delay slot is not a nop"@)
                =~= seq![OpModel::Ret]);
        },
        OpModel::Clear { dst } => {
            let n = sh_reg(dst);
            lemma_superh_words(n, 0, 0);
            lemma_le_half_at(pre, 0xE000u16 | (n << 8u16), rest);
        },
        OpModel::MovImm { dst, imm } => {
            let n = sh_reg(dst);
            lemma_superh_words(n, 0, imm);
            lemma_le_half_at(pre, 0xE000u16 | (n << 8u16) | ((imm as u16) & 0xffu16), rest);
        },
        OpModel::AddImm { dst, imm } => {
            let n = sh_reg(dst);
            lemma_superh_words(n, 0, imm);
            lemma_le_half_at(pre, 0x7000u16 | (n << 8u16) | ((imm as u16) & 0xffu16), rest);
        },
        OpModel::SubImm { dst, imm } => {
            let n = sh_reg(dst);
            lemma_superh_words(n, neg8(imm), imm);
            lemma_le_half_at(pre, 0x7000u16 | (n << 8u16) | neg8(imm), rest);
        },
        OpModel::Inc { dst } => {
            let n = sh_reg(dst);
            lemma_superh_words(n, 1, 0);
            lemma_le_half_at(pre, 0x7000u16 | (n << 8u16) | 1u16, rest);
        },
        OpModel::Dec { dst } => {
            let n = sh_reg(dst);
            lemma_superh_words(n, 0xff, 0);
            lemma_le_half_at(pre, 0x7000u16 | (n << 8u16) | 0xffu16, rest);
        },
        _ => {},
    }
}

// ---------------------------------------------------------------------------
// Alpha
// ---------------------------------------------------------------------------

proof fn lemma_alpha_words(rd: u32, rb: u32, f: u32)
    by (bit_vector)
    requires
        rd < 31,
        rb < 32,
        f < 0x10000,
    ensures
        lda(rd, f, rb) >> 26u32 == 0x08,
        (lda(rd, f, rb) >> 21u32) & 0x1fu32 == rd,
        (lda(rd, f, rb) >> 16u32) & 0x1fu32 == rb,
        lda(rd, f, rb) & 0xffffu32 == f,
        lda(rd, f, rb) != 0x6BFA8001,
        lda(rd, f, rb) != 0x23FF0000,
{
}

proof fn lemma_alpha(op: OpModel, pre: Seq<u8>, rest: Seq<u8>)
    requires
        reg_imm16_faithful(op, 30),
    ensures
        enc_alpha(op) is Ok,
        alpha_step(pre + enc_alpha(op)->Ok_0 + rest, pre.len()) == DecStep::Emit(
            seq![clear_as_mov(arith_form(op))],
            enc_alpha(op)->Ok_0.len(),
        ),
{
    lemma_sext16_field(0);
    match op {
        OpModel::Nop => {
            lemma_le_at(pre, 0x23FF0000u32, rest);
        },
        OpModel::Ret => {
            lemma_le_at(pre, 0x6BFA8001u32, rest);
        },
        OpModel::Clear { dst } => {
            lemma_alpha_words(clamp(dst, 31), 31, 0);
            lemma_le_at(pre, lda(clamp(dst, 31), 0, 31), rest);
        },
        OpModel::MovImm { dst, imm } => {
            lemma_alpha_words(clamp(dst, 31), 31, (imm as u16) as u32);
            lemma_sext16_field(imm);
            lemma_le_at(pre, lda(clamp(dst, 31), (imm as u16) as u32, 31), rest);
        },
        OpModel::AddImm { dst, imm } => {
            lemma_alpha_words(clamp(dst, 31), clamp(dst, 31), (imm as u16) as u32);
            lemma_sext16_field(imm);
            lemma_le_at(pre, lda(clamp(dst, 31), (imm as u16) as u32, clamp(dst, 31)), rest);
        },
        OpModel::SubImm { dst, imm } => {
            lemma_alpha_words(clamp(dst, 31), clamp(dst, 31), neg16(imm));
            lemma_sext16_neg(imm);
            lemma_le_at(pre, lda(clamp(dst, 31), neg16(imm), clamp(dst, 31)), rest);
        },
        OpModel::Inc { dst } => {
            lemma_alpha_words(clamp(dst, 31), clamp(dst, 31), 1);
            lemma_le_at(pre, lda(clamp(dst, 31), 1, clamp(dst, 31)), rest);
        },
        OpModel::Dec { dst } => {
            lemma_alpha_words(clamp(dst, 31), clamp(dst, 31), 0xFFFF);
            lemma_le_at(pre, lda(clamp(dst, 31), 0xFFFF, clamp(dst, 31)), rest);
        },
        _ => {},
    }
}

// ---------------------------------------------------------------------------
// PA-RISC
// ---------------------------------------------------------------------------

proof fn lemma_parisc(op: OpModel, pre: Seq<u8>, rest: Seq<u8>)
    requires
        op is Nop || op is Ret,
    ensures
        enc_parisc(op) is Ok,
        parisc_step(pre + enc_parisc(op)->Ok_0 + rest, pre.len()) == DecStep::Emit(
            seq![op],
            enc_parisc(op)->Ok_0.len(),
        ),
{
    let i = pre.len();
    if op is Nop {
        lemma_be_at(pre, 0x08000240u32, rest);
    } else {
        let b = pre + enc_parisc(op)->Ok_0 + rest;
        assert(b =~= pre + be32(0xE840C000u32) + (be32(0x08000240u32) + rest));
        lemma_be_at(pre, 0xE840C000u32, be32(0x08000240u32) + rest);
        assert(b =~= (pre + be32(0xE840C000u32)) + be32(0x08000240u32) + rest);
        lemma_be_at(pre + be32(0xE840C000u32), 0x08000240u32, rest);
        assert(seq![OpModel::Ret] + delay_gap(false, i + 4, be32(0x08000240u32), "bv delay slot is not a nop"@)
            =~= seq![OpModel::Ret]);
    }
}


// ---------------------------------------------------------------------------
// ColdFire
// ---------------------------------------------------------------------------

/// The operations the ColdFire codec carries faithfully (and literally).
pub open spec fn coldfire_faithful(op: OpModel) -> bool {
    match op {
        OpModel::Nop | OpModel::Ret => true,
        OpModel::Clear { dst } | OpModel::Inc { dst } | OpModel::Dec { dst } | OpModel::Pop {
            dst,
        } | OpModel::MovImm { dst, .. } | OpModel::AddImm { dst, .. } | OpModel::SubImm {
            dst,
            ..
        } => dst <= 7,
        OpModel::Push { src } => src <= 7,
        _ => false,
    }
}

proof fn lemma_coldfire_words(d: u16, imm: u32)
    by (bit_vector)
    requires
        d < 8,
        (imm as i32) >= -128i32,
        (imm as i32) <= 127i32,
    ensures
        (0x4280u16 | (d << 3u16)) != 0x4E71 && (0x4280u16 | (d << 3u16)) != 0x4E75
            && (0x4280u16 | (d << 3u16)) & 0xF100u16 != 0x7000
            && (0x4280u16 | (d << 3u16)) & 0xF83Fu16 != 0x203C
            && (0x4280u16 | (d << 3u16)) & 0xF1FFu16 != 0x201F
            && (0x4280u16 | (d << 3u16)) & 0xFFF8u16 != 0x2F00
            && (0x4280u16 | (d << 3u16)) & 0xFFC0u16 == 0x4280
            && ((0x4280u16 | (d << 3u16)) >> 3u16) & 7u16 == d,
        (0x5280u16 | (d << 3u16)) != 0x4E71 && (0x5280u16 | (d << 3u16)) != 0x4E75
            && (0x5280u16 | (d << 3u16)) & 0xF100u16 != 0x7000
            && (0x5280u16 | (d << 3u16)) & 0xF83Fu16 != 0x203C
            && (0x5280u16 | (d << 3u16)) & 0xF1FFu16 != 0x201F
            && (0x5280u16 | (d << 3u16)) & 0xFFF8u16 != 0x2F00
            && (0x5280u16 | (d << 3u16)) & 0xFFC0u16 == 0x5280
            && ((0x5280u16 | (d << 3u16)) >> 3u16) & 7u16 == d,
        (0x5380u16 | (d << 3u16)) != 0x4E71 && (0x5380u16 | (d << 3u16)) != 0x4E75
            && (0x5380u16 | (d << 3u16)) & 0xF100u16 != 0x7000
            && (0x5380u16 | (d << 3u16)) & 0xF83Fu16 != 0x203C
            && (0x5380u16 | (d << 3u16)) & 0xF1FFu16 != 0x201F
            && (0x5380u16 | (d << 3u16)) & 0xFFF8u16 != 0x2F00
            && (0x5380u16 | (d << 3u16)) & 0xFFC0u16 == 0x5380
            && ((0x5380u16 | (d << 3u16)) >> 3u16) & 7u16 == d,
        (0x0680u16 | (d << 3u16)) != 0x4E71 && (0x0680u16 | (d << 3u16)) != 0x4E75
            && (0x0680u16 | (d << 3u16)) & 0xF100u16 != 0x7000
            && (0x0680u16 | (d << 3u16)) & 0xF83Fu16 != 0x203C
            && (0x0680u16 | (d << 3u16)) & 0xF1FFu16 != 0x201F
            && (0x0680u16 | (d << 3u16)) & 0xFFF8u16 != 0x2F00
            && (0x0680u16 | (d << 3u16)) & 0xFFC0u16 == 0x0680
            && ((0x0680u16 | (d << 3u16)) >> 3u16) & 7u16 == d,
        (0x0480u16 | (d << 3u16)) != 0x4E71 && (0x0480u16 | (d << 3u16)) != 0x4E75
            && (0x0480u16 | (d << 3u16)) & 0xF100u16 != 0x7000
            && (0x0480u16 | (d << 3u16)) & 0xF83Fu16 != 0x203C
            && (0x0480u16 | (d << 3u16)) & 0xF1FFu16 != 0x201F
            && (0x0480u16 | (d << 3u16)) & 0xFFF8u16 != 0x2F00
            && (0x0480u16 | (d << 3u16)) & 0xFFC0u16 == 0x0480
            && ((0x0480u16 | (d << 3u16)) >> 3u16) & 7u16 == d,
        (0x2F00u16 | d) != 0x4E71 && (0x2F00u16 | d) != 0x4E75
            && (0x2F00u16 | d) & 0xF100u16 != 0x7000
            && (0x2F00u16 | d) & 0xF83Fu16 != 0x203C
            && (0x2F00u16 | d) & 0xF1FFu16 != 0x201F
            && (0x2F00u16 | d) & 0xFFF8u16 == 0x2F00
            && (0x2F00u16 | d) & 7u16 == d,
        (0x201Fu16 | (d << 9u16)) != 0x4E71 && (0x201Fu16 | (d << 9u16)) != 0x4E75
            && (0x201Fu16 | (d << 9u16)) & 0xF100u16 != 0x7000
            && (0x201Fu16 | (d << 9u16)) & 0xF83Fu16 != 0x203C
            && (0x201Fu16 | (d << 9u16)) & 0xF1FFu16 == 0x201F
            && ((0x201Fu16 | (d << 9u16)) >> 9u16) & 7u16 == d,
        (0x203Cu16 | (d << 6u16)) != 0x4E71 && (0x203Cu16 | (d << 6u16)) != 0x4E75
            && (0x203Cu16 | (d << 6u16)) & 0xF100u16 != 0x7000
            && (0x203Cu16 | (d << 6u16)) & 0xF83Fu16 == 0x203C
            && ((0x203Cu16 | (d << 6u16)) >> 6u16) & 7u16 == d,
        (0x7000u16 | (d << 9u16) | ((imm as u8) as u16)) != 0x4E71
            && (0x7000u16 | (d << 9u16) | ((imm as u8) as u16)) != 0x4E75
            && (0x7000u16 | (d << 9u16) | ((imm as u8) as u16)) & 0xF100u16 == 0x7000
            && ((0x7000u16 | (d << 9u16) | ((imm as u8) as u16)) >> 9u16) & 7u16 == d
            && ((((0x7000u16 | (d << 9u16) | ((imm as u8) as u16)) & 0xffu16) as u8) as i8) as u32
            == imm,
{
}

proof fn lemma_coldfire(op: OpModel, pre: Seq<u8>, rest: Seq<u8>)
    requires
        coldfire_faithful(op),
    ensures
        enc_coldfire(op) is Ok,
        coldfire_step(pre + enc_coldfire(op)->Ok_0 + rest, pre.len()) == DecStep::Emit(
            seq![op],
            enc_coldfire(op)->Ok_0.len(),
        ),
{
    match op {
        OpModel::Nop => {
            lemma_be_half_at(pre, 0x4E71u16, rest);
        },
        OpModel::Ret => {
            lemma_be_half_at(pre, 0x4E75u16, rest);
        },
        OpModel::Clear { dst } => {
            lemma_coldfire_words(cf_reg(dst), 0);
            lemma_be_half_at(pre, 0x4280u16 | (cf_reg(dst) << 3u16), rest);
        },
        OpModel::Inc { dst } => {
            lemma_coldfire_words(cf_reg(dst), 0);
            lemma_be_half_at(pre, 0x5280u16 | (cf_reg(dst) << 3u16), rest);
        },
        OpModel::Dec { dst } => {
            lemma_coldfire_words(cf_reg(dst), 0);
            lemma_be_half_at(pre, 0x5380u16 | (cf_reg(dst) << 3u16), rest);
        },
        OpModel::Push { src } => {
            lemma_coldfire_words(cf_reg(src), 0);
            lemma_be_half_at(pre, 0x2F00u16 | cf_reg(src), rest);
        },
        OpModel::Pop { dst } => {
            lemma_coldfire_words(cf_reg(dst), 0);
            lemma_be_half_at(pre, 0x201Fu16 | (cf_reg(dst) << 9u16), rest);
        },
        OpModel::MovImm { dst, imm } => {
            if simm_in(imm, -128, 127) {
                lemma_coldfire_words(cf_reg(dst), imm);
                lemma_be_half_at(pre, 0x7000u16 | (cf_reg(dst) << 9u16) | ((imm as u8) as u16), rest);
            } else {
                let h = 0x203Cu16 | (cf_reg(dst) << 6u16);
                lemma_coldfire_words(cf_reg(dst), 0);
                let b = pre + enc_coldfire(op)->Ok_0 + rest;
                assert(b =~= pre + be16(h) + (be32(imm) + rest));
                lemma_be_half_at(pre, h, be32(imm) + rest);
                assert(b =~= (pre + be16(h)) + be32(imm) + rest);
                lemma_be_at(pre + be16(h), imm, rest);
            }
        },
        OpModel::AddImm { dst, imm } => {
            let h = 0x0680u16 | (cf_reg(dst) << 3u16);
            lemma_coldfire_words(cf_reg(dst), 0);
            let b = pre + enc_coldfire(op)->Ok_0 + rest;
            assert(b =~= pre + be16(h) + (be32(imm) + rest));
            lemma_be_half_at(pre, h, be32(imm) + rest);
            assert(b =~= (pre + be16(h)) + be32(imm) + rest);
            lemma_be_at(pre + be16(h), imm, rest);
        },
        OpModel::SubImm { dst, imm } => {
            let h = 0x0480u16 | (cf_reg(dst) << 3u16);
            lemma_coldfire_words(cf_reg(dst), 0);
            let b = pre + enc_coldfire(op)->Ok_0 + rest;
            assert(b =~= pre + be16(h) + (be32(imm) + rest));
            lemma_be_half_at(pre, h, be32(imm) + rest);
            assert(b =~= (pre + be16(h)) + be32(imm) + rest);
            lemma_be_at(pre + be16(h), imm, rest);
        },
        _ => {},
    }
}

// ---------------------------------------------------------------------------
// ARM
// ---------------------------------------------------------------------------

/// The operations the ARM codec carries faithfully.
pub open spec fn arm_faithful(op: OpModel) -> bool {
    match op {
        OpModel::Nop | OpModel::Ret => true,
        OpModel::Clear { dst } | OpModel::Inc { dst } | OpModel::Dec { dst } => dst <= 12,
        OpModel::MovImm { dst, imm } | OpModel::AddImm { dst, imm } | OpModel::SubImm {
            dst,
            imm,
        } => dst <= 12 && imm <= 0xff,
        _ => false,
    }
}

proof fn lemma_arm_words(r: u32, g: u32, imm: u32)
    by (bit_vector)
    requires
        r < 13,
        g <= 0xff,
    ensures
        imm <= 0xff ==> imm & 0xffu32 == imm,
        (0xE3A00000u32 | (r << 12u32)) & 0xFFFF0F00u32 == 0xE3A00000,
        ((0xE3A00000u32 | (r << 12u32)) >> 12u32) & 0xfu32 == r,
        (0xE3A00000u32 | (r << 12u32)) & 0xffu32 == 0,
        (0xE3A00000u32 | (r << 12u32)) != 0xE320F000,
        (0xE3A00000u32 | (r << 12u32)) != 0xE12FFF1E,
        (0xE3A00000u32 | (r << 12u32) | g) & 0xFFFF0F00u32 == 0xE3A00000,
        ((0xE3A00000u32 | (r << 12u32) | g) >> 12u32) & 0xfu32 == r,
        (0xE3A00000u32 | (r << 12u32) | g) & 0xffu32 == g,
        (0xE3A00000u32 | (r << 12u32) | g) != 0xE320F000,
        (0xE3A00000u32 | (r << 12u32) | g) != 0xE12FFF1E,
        (0xE2800000u32 | (r << 12u32) | (r << 16u32) | g) & 0xFFFF0F00u32 != 0xE3A00000,
        (0xE2800000u32 | (r << 12u32) | (r << 16u32) | g) & 0xFFF00F00u32 == 0xE2800000,
        (0xE2800000u32 | (r << 12u32) | (r << 16u32) | g) & 0xFFF00F00u32 != 0xE2400000,
        ((0xE2800000u32 | (r << 12u32) | (r << 16u32) | g) >> 12u32) & 0xfu32 == r,
        ((0xE2800000u32 | (r << 12u32) | (r << 16u32) | g) >> 16u32) & 0xfu32 == r,
        (0xE2800000u32 | (r << 12u32) | (r << 16u32) | g) & 0xffu32 == g,
        (0xE2800000u32 | (r << 12u32) | (r << 16u32) | g) != 0xE320F000,
        (0xE2800000u32 | (r << 12u32) | (r << 16u32) | g) != 0xE12FFF1E,
        (0xE2400000u32 | (r << 12u32) | (r << 16u32) | g) & 0xFFFF0F00u32 != 0xE3A00000,
        (0xE2400000u32 | (r << 12u32) | (r << 16u32) | g) & 0xFFF00F00u32 == 0xE2400000,
        ((0xE2400000u32 | (r << 12u32) | (r << 16u32) | g) >> 12u32) & 0xfu32 == r,
        ((0xE2400000u32 | (r << 12u32) | (r << 16u32) | g) >> 16u32) & 0xfu32 == r,
        (0xE2400000u32 | (r << 12u32) | (r << 16u32) | g) & 0xffu32 == g,
        (0xE2400000u32 | (r << 12u32) | (r << 16u32) | g) != 0xE320F000,
        (0xE2400000u32 | (r << 12u32) | (r << 16u32) | g) != 0xE12FFF1E,
{
}

proof fn lemma_arm(op: OpModel, pre: Seq<u8>, rest: Seq<u8>)
    requires
        arm_faithful(op),
    ensures
        enc_arm(op) is Ok,
        arm_step(pre + enc_arm(op)->Ok_0 + rest, pre.len()) == DecStep::Emit(
            seq![clear_as_mov(arith_form(op))],
            enc_arm(op)->Ok_0.len(),
        ),
{
    match op {
        OpModel::Nop => {
            lemma_le_at(pre, 0xE320F000u32, rest);
        },
        OpModel::Ret => {
            lemma_le_at(pre, 0xE12FFF1Eu32, rest);
        },
        OpModel::Clear { dst } => {
            let r = clamp(dst, 12);
            lemma_arm_words(r, 0, 0);
            lemma_le_at(pre, 0xE3A00000u32 | (r << 12u32), rest);
        },
        OpModel::MovImm { dst, imm } => {
            let r = clamp(dst, 12);
            lemma_arm_words(r, 0, imm);
            lemma_arm_words(r, imm & 0xffu32, imm);
            lemma_le_at(pre, 0xE3A00000u32 | (r << 12u32) | (imm & 0xffu32), rest);
        },
        OpModel::AddImm { dst, imm } => {
            let r = clamp(dst, 12);
            lemma_arm_words(r, 0, imm);
            lemma_arm_words(r, imm & 0xffu32, imm);
            lemma_le_at(pre, 0xE2800000u32 | (r << 12u32) | (r << 16u32) | (imm & 0xffu32), rest);
        },
        OpModel::SubImm { dst, imm } => {
            let r = clamp(dst, 12);
            lemma_arm_words(r, 0, imm);
            lemma_arm_words(r, imm & 0xffu32, imm);
            lemma_le_at(pre, 0xE2400000u32 | (r << 12u32) | (r << 16u32) | (imm & 0xffu32), rest);
        },
        OpModel::Inc { dst } => {
            let r = clamp(dst, 12);
            lemma_arm_words(r, 1, 0);
            lemma_le_at(pre, 0xE2800000u32 | (r << 12u32) | (r << 16u32) | 1u32, rest);
        },
        OpModel::Dec { dst } => {
            let r = clamp(dst, 12);
            lemma_arm_words(r, 1, 0);
            lemma_le_at(pre, 0xE2400000u32 | (r << 12u32) | (r << 16u32) | 1u32, rest);
        },
        _ => {},
    }
}

// ---------------------------------------------------------------------------
// AArch64
// ---------------------------------------------------------------------------

/// The operations the AArch64 codec carries faithfully.
pub open spec fn aarch64_faithful(op: OpModel) -> bool {
    match op {
        OpModel::Nop | OpModel::Ret => true,
        OpModel::Clear { dst } | OpModel::Inc { dst } | OpModel::Dec { dst } => dst <= 30,
        OpModel::MovImm { dst, imm } => dst <= 30 && imm <= 0xffff,
        OpModel::AddImm { dst, imm } | OpModel::SubImm { dst, imm } => dst <= 30 && imm <= 0xfff,
        _ => false,
    }
}

proof fn lemma_aarch64_words(wd: u32, h: u32, i: u32)
    by (bit_vector)
    requires
        wd < 31,
        h <= 0xffff,
        i <= 0xfff,
    ensures
        h & 0xffffu32 == h,
        i & 0xfffu32 == i,
        (0x2A1F03E0u32 | wd) != 0xD503201F && (0x2A1F03E0u32 | wd) != 0xD65F03C0
            && (0x2A1F03E0u32 | wd) & 0xFFFFFFE0u32 == 0x2A1F03E0
            && (0x2A1F03E0u32 | wd) & 0x1fu32 == wd,
        (0x52800000u32 | (h << 5u32) | wd) != 0xD503201F
            && (0x52800000u32 | (h << 5u32) | wd) != 0xD65F03C0
            && (0x52800000u32 | (h << 5u32) | wd) & 0xFFFFFFE0u32 != 0x2A1F03E0
            && (0x52800000u32 | (h << 5u32) | wd) & 0xFFE00000u32 == 0x52800000
            && (0x52800000u32 | (h << 5u32) | wd) & 0x1fu32 == wd
            && ((0x52800000u32 | (h << 5u32) | wd) >> 5u32) & 0xffffu32 == h,
        (0x11000000u32 | (i << 10u32) | (wd << 5u32) | wd) != 0xD503201F
            && (0x11000000u32 | (i << 10u32) | (wd << 5u32) | wd) != 0xD65F03C0
            && (0x11000000u32 | (i << 10u32) | (wd << 5u32) | wd) & 0xFFFFFFE0u32 != 0x2A1F03E0
            && (0x11000000u32 | (i << 10u32) | (wd << 5u32) | wd) & 0xFFE00000u32 != 0x52800000
            && (0x11000000u32 | (i << 10u32) | (wd << 5u32) | wd) & 0xFFC00000u32 == 0x11000000
            && (0x11000000u32 | (i << 10u32) | (wd << 5u32) | wd) & 0x1fu32 == wd
            && ((0x11000000u32 | (i << 10u32) | (wd << 5u32) | wd) >> 5u32) & 0x1fu32 == wd
            && ((0x11000000u32 | (i << 10u32) | (wd << 5u32) | wd) >> 10u32) & 0xfffu32 == i,
        (0x51000000u32 | (i << 10u32) | (wd << 5u32) | wd) != 0xD503201F
            && (0x51000000u32 | (i << 10u32) | (wd << 5u32) | wd) != 0xD65F03C0
            && (0x51000000u32 | (i << 10u32) | (wd << 5u32) | wd) & 0xFFFFFFE0u32 != 0x2A1F03E0
            && (0x51000000u32 | (i << 10u32) | (wd << 5u32) | wd) & 0xFFE00000u32 != 0x52800000
            && (0x51000000u32 | (i << 10u32) | (wd << 5u32) | wd) & 0xFFC00000u32 == 0x51000000
            && (0x51000000u32 | (i << 10u32) | (wd << 5u32) | wd) & 0x1fu32 == wd
            && ((0x51000000u32 | (i << 10u32) | (wd << 5u32) | wd) >> 5u32) & 0x1fu32 == wd
            && ((0x51000000u32 | (i << 10u32) | (wd << 5u32) | wd) >> 10u32) & 0xfffu32 == i,
        (0x11000400u32 | (wd << 5u32) | wd) != 0xD503201F
            && (0x11000400u32 | (wd << 5u32) | wd) != 0xD65F03C0
            && (0x11000400u32 | (wd << 5u32) | wd) & 0xFFFFFFE0u32 != 0x2A1F03E0
            && (0x11000400u32 | (wd << 5u32) | wd) & 0xFFE00000u32 != 0x52800000
            && (0x11000400u32 | (wd << 5u32) | wd) & 0xFFC00000u32 == 0x11000000
            && (0x11000400u32 | (wd << 5u32) | wd) & 0x1fu32 == wd
            && ((0x11000400u32 | (wd << 5u32) | wd) >> 5u32) & 0x1fu32 == wd
            && ((0x11000400u32 | (wd << 5u32) | wd) >> 10u32) & 0xfffu32 == 1,
        (0x51000400u32 | (wd << 5u32) | wd) != 0xD503201F
            && (0x51000400u32 | (wd << 5u32) | wd) != 0xD65F03C0
            && (0x51000400u32 | (wd << 5u32) | wd) & 0xFFFFFFE0u32 != 0x2A1F03E0
            && (0x51000400u32 | (wd << 5u32) | wd) & 0xFFE00000u32 != 0x52800000
            && (0x51000400u32 | (wd << 5u32) | wd) & 0xFFC00000u32 == 0x51000000
            && (0x51000400u32 | (wd << 5u32) | wd) & 0x1fu32 == wd
            && ((0x51000400u32 | (wd << 5u32) | wd) >> 5u32) & 0x1fu32 == wd
            && ((0x51000400u32 | (wd << 5u32) | wd) >> 10u32) & 0xfffu32 == 1,
{
}

proof fn lemma_aarch64(op: OpModel, pre: Seq<u8>, rest: Seq<u8>)
    requires
        aarch64_faithful(op),
    ensures
        enc_aarch64(op) is Ok,
        aarch64_step(pre + enc_aarch64(op)->Ok_0 + rest, pre.len()) == DecStep::Emit(
            seq![arith_form(op)],
            enc_aarch64(op)->Ok_0.len(),
        ),
{
    match op {
        OpModel::Nop => {
            lemma_le_at(pre, 0xD503201Fu32, rest);
        },
        OpModel::Ret => {
            lemma_le_at(pre, 0xD65F03C0u32, rest);
        },
        OpModel::Clear { dst } => {
            lemma_aarch64_words(clamp(dst, 30), 0, 0);
            lemma_le_at(pre, 0x2A1F03E0u32 | clamp(dst, 30), rest);
        },
        OpModel::MovImm { dst, imm } => {
            lemma_aarch64_words(clamp(dst, 30), imm, 0);
            lemma_le_at(pre, 0x52800000u32 | ((imm & 0xffffu32) << 5u32) | clamp(dst, 30), rest);
        },
        OpModel::AddImm { dst, imm } => {
            let wd = clamp(dst, 30);
            lemma_aarch64_words(wd, 0, imm);
            lemma_le_at(pre, 0x11000000u32 | ((imm & 0xfffu32) << 10u32) | (wd << 5u32) | wd, rest);
        },
        OpModel::SubImm { dst, imm } => {
            let wd = clamp(dst, 30);
            lemma_aarch64_words(wd, 0, imm);
            lemma_le_at(pre, 0x51000000u32 | ((imm & 0xfffu32) << 10u32) | (wd << 5u32) | wd, rest);
        },
        OpModel::Inc { dst } => {
            let wd = clamp(dst, 30);
            lemma_aarch64_words(wd, 0, 0);
            lemma_le_at(pre, 0x11000400u32 | (wd << 5u32) | wd, rest);
        },
        OpModel::Dec { dst } => {
            let wd = clamp(dst, 30);
            lemma_aarch64_words(wd, 0, 0);
            lemma_le_at(pre, 0x51000400u32 | (wd << 5u32) | wd, rest);
        },
        _ => {},
    }
}


// ---------------------------------------------------------------------------
// SPARC
// ---------------------------------------------------------------------------

/// The operations the SPARC codec carries faithfully (and literally).
pub open spec fn sparc_faithful(op: OpModel) -> bool {
    match op {
        OpModel::Nop | OpModel::Ret => true,
        OpModel::Clear { dst } => dst <= 7,
        OpModel::MovImm { dst, imm } => dst <= 7 && simm_in(imm, -4096, 4095),
        _ => false,
    }
}

proof fn lemma_sparc_words(r: u32, imm: u32)
    by (bit_vector)
    requires
        16 <= r < 24,
        (imm as i32) >= -4096i32,
        (imm as i32) <= 4095i32,
    ensures
        (0x80100000u32 | (r << 25u32)) != 0x01000000 && (0x80100000u32 | (r << 25u32)) != 0x81C3E008
            && (0x80100000u32 | (r << 25u32)) & 0xC1F7FFFFu32 == 0x80100000
            && ((0x80100000u32 | (r << 25u32)) >> 25u32) & 0x1fu32 == r,
        (0x80102000u32 | (r << 25u32) | (imm & 0x1fffu32)) != 0x01000000
            && (0x80102000u32 | (r << 25u32) | (imm & 0x1fffu32)) != 0x81C3E008
            && (0x80102000u32 | (r << 25u32) | (imm & 0x1fffu32)) & 0xC1F7FFFFu32 != 0x80100000
            && (0x80102000u32 | (r << 25u32) | (imm & 0x1fffu32)) & 0xC1F7E000u32 == 0x80102000
            && ((0x80102000u32 | (r << 25u32) | (imm & 0x1fffu32)) >> 25u32) & 0x1fu32 == r
            && (0x80102000u32 | (r << 25u32) | (imm & 0x1fffu32)) & 0x1fffu32 == imm & 0x1fffu32,
        (imm & 0x1fffu32) & 0x1000u32 != 0 ==> ((imm & 0x1fffu32) - 0x2000) as u32 == imm,
        (imm & 0x1fffu32) & 0x1000u32 == 0 ==> imm & 0x1fffu32 == imm,
{
}

proof fn lemma_sparc(op: OpModel, pre: Seq<u8>, rest: Seq<u8>)
    requires
        sparc_faithful(op),
    ensures
        enc_sparc(op) is Ok,
        sparc_step(pre + enc_sparc(op)->Ok_0 + rest, pre.len()) == DecStep::Emit(
            seq![op],
            enc_sparc(op)->Ok_0.len(),
        ),
{
    let i = pre.len();
    match op {
        OpModel::Nop => {
            lemma_be_at(pre, 0x01000000u32, rest);
        },
        OpModel::Ret => {
            let b = pre + enc_sparc(op)->Ok_0 + rest;
            assert(b =~= pre + be32(0x81C3E008u32) + (be32(0x01000000u32) + rest));
            lemma_be_at(pre, 0x81C3E008u32, be32(0x01000000u32) + rest);
            assert(b =~= (pre + be32(0x81C3E008u32)) + be32(0x01000000u32) + rest);
            lemma_be_at(pre + be32(0x81C3E008u32), 0x01000000u32, rest);
            assert(seq![OpModel::Ret] + delay_gap(false, i + 4, be32(0x01000000u32), "retl delay slot is not a nop"@)
                =~= seq![OpModel::Ret]);
        },
        OpModel::Clear { dst } => {
            lemma_sparc_words(sparc_reg(dst), 0);
            lemma_be_at(pre, 0x80100000u32 | (sparc_reg(dst) << 25u32), rest);
        },
        OpModel::MovImm { dst, imm } => {
            lemma_sparc_words(sparc_reg(dst), imm);
            lemma_be_at(pre, 0x80102000u32 | (sparc_reg(dst) << 25u32) | (imm & 0x1fffu32), rest);
        },
        _ => {},
    }
}

// ---------------------------------------------------------------------------
// x86
// ---------------------------------------------------------------------------

/// The operations the x86 codec carries faithfully: a short-form immediate
/// must fit a signed byte unless the register is `eax`, which has the long form.
pub open spec fn x86_faithful(op: OpModel) -> bool {
    match op {
        OpModel::Nop | OpModel::Ret => true,
        OpModel::MovImm { dst, .. } | OpModel::Clear { dst } | OpModel::Inc { dst } | OpModel::Dec {
            dst,
        } | OpModel::Pop { dst } => dst <= 7,
        OpModel::Push { src } => src <= 7,
        OpModel::AddImm { dst, imm } | OpModel::SubImm { dst, imm } => dst <= 7 && (dst == 0
            || simm_in(imm, -128, 127)),
        _ => false,
    }
}

/// The x86 long (`eax`, 32-bit immediate) forms, which decode literally.
pub open spec fn x86_long_form(op: OpModel) -> bool {
    match op {
        OpModel::AddImm { dst, imm } | OpModel::SubImm { dst, imm } => dst == 0 && imm > 0x7f,
        _ => false,
    }
}

proof fn lemma_x86_bytes(d: u32, imm: u32)
    by (bit_vector)
    requires
        d <= 7,
    ensures
        ((d as u8) & 7u8) as u8 == d as u8,
        ((0xB8u8 + (d as u8)) as u8) & 7u8 == d as u8,
        ((0x40u8 + (d as u8)) as u8) & 7u8 == d as u8,
        ((0x48u8 + (d as u8)) as u8) & 7u8 == d as u8,
        ((0x50u8 + (d as u8)) as u8) & 7u8 == d as u8,
        ((0x58u8 + (d as u8)) as u8) & 7u8 == d as u8,
        ((0xC0u8 | (d as u8)) as u8) >> 6u8 == 3,
        (((0xC0u8 | (d as u8)) as u8) >> 3u8) & 7u8 == 0,
        ((0xC0u8 | (d as u8)) as u8) & 7u8 == d as u8,
        ((0xE8u8 | (d as u8)) as u8) >> 6u8 == 3,
        (((0xE8u8 | (d as u8)) as u8) >> 3u8) & 7u8 == 5,
        ((0xE8u8 | (d as u8)) as u8) & 7u8 == d as u8,
        ((0xC0u8 | (((d as u8) << 3u8) as u8) | (d as u8)) as u8) >> 6u8 == 3,
        (((0xC0u8 | (((d as u8) << 3u8) as u8) | (d as u8)) as u8) >> 3u8) & 7u8 == d as u8,
        ((0xC0u8 | (((d as u8) << 3u8) as u8) | (d as u8)) as u8) & 7u8 == d as u8,
        (imm as i32) >= -128i32 && (imm as i32) <= 127i32 ==> ((imm as u8) as i8) as i32 == imm as i32,
{
}

proof fn lemma_x86(op: OpModel, pre: Seq<u8>, rest: Seq<u8>)
    requires
        x86_faithful(op),
    ensures
        enc_x86(op) is Ok,
        x86_step(pre + enc_x86(op)->Ok_0 + rest, pre.len()) == DecStep::Emit(
            seq![if x86_long_form(op) { op } else { arith_form(op) }],
            enc_x86(op)->Ok_0.len(),
        ),
{
    let i = pre.len() as int;
    let b = pre + enc_x86(op)->Ok_0 + rest;
    match op {
        OpModel::Nop | OpModel::Ret | OpModel::Inc { .. } | OpModel::Dec { .. } | OpModel::Push {
            ..
        } | OpModel::Pop { .. } => {
            lemma_x86_bytes(0, 0);
            match op {
                OpModel::Inc { dst } | OpModel::Dec { dst } | OpModel::Pop { dst } => lemma_x86_bytes(dst, 0),
                OpModel::Push { src } => lemma_x86_bytes(src, 0),
                _ => {},
            }
            assert(b[i] == enc_x86(op)->Ok_0[0]);
        },
        OpModel::Clear { dst } => {
            lemma_x86_bytes(dst, 0);
            assert(b[i] == enc_x86(op)->Ok_0[0]);
            assert(b[i + 1] == enc_x86(op)->Ok_0[1]);
        },
        OpModel::MovImm { dst, imm } => {
            let x = (0xB8u8 + reg3(dst)) as u8;
            lemma_x86_bytes(dst, 0);
            assert(b =~= (pre + seq![x]) + le32(imm) + rest);
            lemma_le_at(pre + seq![x], imm, rest);
            assert(b[i] == x);
        },
        OpModel::AddImm { dst, imm } => {
            lemma_x86_bytes(dst, imm);
            if dst == 0 && imm > 0x7f {
                assert(b =~= (pre + seq![0x05u8]) + le32(imm) + rest);
                lemma_le_at(pre + seq![0x05u8], imm, rest);
                assert(b[i] == 0x05u8);
            } else {
                assert(b[i] == 0x83u8);
                assert(b[i + 1] == enc_x86(op)->Ok_0[1]);
                assert(b[i + 2] == enc_x86(op)->Ok_0[2]);
            }
        },
        OpModel::SubImm { dst, imm } => {
            lemma_x86_bytes(dst, imm);
            if dst == 0 && imm > 0x7f {
                assert(b =~= (pre + seq![0x2Du8]) + le32(imm) + rest);
                lemma_le_at(pre + seq![0x2Du8], imm, rest);
                assert(b[i] == 0x2Du8);
            } else {
                assert(b[i] == 0x83u8);
                assert(b[i + 1] == enc_x86(op)->Ok_0[1]);
                assert(b[i + 2] == enc_x86(op)->Ok_0[2]);
            }
        },
        _ => {},
    }
}


// ---------------------------------------------------------------------------
// All targets
// ---------------------------------------------------------------------------

/// The operations the codec of `isa` carries faithfully: those it encodes and
/// decodes back to an operation of the same meaning.
pub open spec fn faithful(op: OpModel, isa: TargetIsa) -> bool {
    match isa {
        TargetIsa::Mips => reg_imm16_faithful(op, 7),
        TargetIsa::Ppc => reg_imm16_faithful(op, 28),
        TargetIsa::Alpha => reg_imm16_faithful(op, 30),
        TargetIsa::SuperH(_) => superh_faithful(op),
        TargetIsa::PaRisc => op is Nop || op is Ret,
        TargetIsa::ColdFire => coldfire_faithful(op),
        TargetIsa::Arm => arm_faithful(op),
        TargetIsa::AArch64 => aarch64_faithful(op),
        TargetIsa::Sparc => sparc_faithful(op),
        TargetIsa::X86_64 => x86_faithful(op),
        TargetIsa::M88k | TargetIsa::Ia64 | TargetIsa::I860 => false,
    }
}

/// The operation decoding gives back for a faithfully encoded `op`: the same
/// operation, or its canonical form where the target's encoding folds it.
pub open spec fn decoded_form(op: OpModel, isa: TargetIsa) -> OpModel {
    match isa {
        TargetIsa::Mips | TargetIsa::AArch64 => arith_form(op),
        TargetIsa::Ppc | TargetIsa::SuperH(_) | TargetIsa::Alpha | TargetIsa::Arm => clear_as_mov(
            arith_form(op),
        ),
        TargetIsa::X86_64 => if x86_long_form(op) {
            op
        } else {
            arith_form(op)
        },
        _ => op,
    }
}

proof fn lemma_step_roundtrip(isa: TargetIsa, op: OpModel, pre: Seq<u8>, rest: Seq<u8>)
    requires
        faithful(op, isa),
    ensures
        enc_op(op, isa) is Ok,
        enc_op(op, isa)->Ok_0.len() > 0,
        dec_step(isa, pre + enc_op(op, isa)->Ok_0 + rest, pre.len()) == DecStep::Emit(
            seq![decoded_form(op, isa)],
            enc_op(op, isa)->Ok_0.len(),
        ),
{
    reveal(dec_step);
    match isa {
        TargetIsa::Mips => lemma_mips(op, pre, rest),
        TargetIsa::Ppc => lemma_ppc(op, pre, rest),
        TargetIsa::Alpha => lemma_alpha(op, pre, rest),
        TargetIsa::SuperH(_) => lemma_superh(op, pre, rest),
        TargetIsa::PaRisc => lemma_parisc(op, pre, rest),
        TargetIsa::ColdFire => lemma_coldfire(op, pre, rest),
        TargetIsa::Arm => lemma_arm(op, pre, rest),
        TargetIsa::AArch64 => lemma_aarch64(op, pre, rest),
        TargetIsa::Sparc => lemma_sparc(op, pre, rest),
        TargetIsa::X86_64 => lemma_x86(op, pre, rest),
        _ => {},
    }
    let bytes = enc_op(op, isa)->Ok_0;
    if bytes.len() == 0 {
        lemma_step_advances(isa, pre + bytes + rest, pre.len());
    }
}

proof fn lemma_sem_decoded(op: OpModel, isa: TargetIsa)
    requires
        faithful(op, isa),
    ensures
        sem(decoded_form(op, isa)) == sem(op),
        !(decoded_form(op, isa) is Unknown),
{
    match op {
        OpModel::AddImm { dst, imm } => {
            let v = (imm as i32) as int;
            assert(clear_as_mov(arith_form(op)) == arith_form(op));
            if -0x7fffffff <= v <= 0x7fffffff {
                lemma_sem_arith(dst, v);
                assert(sem(arith_form(op)) == sem(op));
            } else {
                assert(decoded_form(op, isa) == op);
            }
        },
        OpModel::SubImm { dst, imm } => {
            let v = -((imm as i32) as int);
            assert(clear_as_mov(arith_form(op)) == arith_form(op));
            if -0x7fffffff <= v <= 0x7fffffff {
                lemma_sem_arith(dst, v);
                assert(sem(arith_form(op)) == sem(op));
            } else {
                assert(decoded_form(op, isa) == op);
            }
        },
        _ => {},
    }
}

/// Every operation of `ops` is carried faithfully by the codec of `isa`.
pub open spec fn all_faithful(ops: Seq<OpModel>, isa: TargetIsa) -> bool {
    forall|i: int| 0 <= i < ops.len() ==> #[trigger] faithful(ops[i], isa)
}

/// The encodings of `ops`, one after the other.
pub open spec fn enc_cat(ops: Seq<OpModel>, isa: TargetIsa) -> Seq<u8>
    decreases ops.len(),
{
    if ops.len() == 0 {
        Seq::empty()
    } else {
        enc_op(ops[0], isa)->Ok_0 + enc_cat(ops.drop_first(), isa)
    }
}

/// What decoding gives back for faithfully encoded `ops`.
pub open spec fn decoded_ops(ops: Seq<OpModel>, isa: TargetIsa) -> Seq<OpModel> {
    Seq::new(ops.len(), |i: int| decoded_form(ops[i], isa))
}

proof fn lemma_enc_cat_push(s: Seq<OpModel>, x: OpModel, isa: TargetIsa)
    ensures
        enc_cat(s.push(x), isa) == enc_cat(s, isa) + enc_op(x, isa)->Ok_0,
    decreases s.len(),
{
    if s.len() == 0 {
        assert(s.push(x).drop_first() =~= Seq::<OpModel>::empty());
        assert(s.push(x)[0] == x);
        assert(enc_cat(s.push(x).drop_first(), isa) == Seq::<u8>::empty());
        assert(enc_cat(s, isa) == Seq::<u8>::empty());
        assert(enc_cat(s.push(x), isa) =~= enc_cat(s, isa) + enc_op(x, isa)->Ok_0);
    } else {
        assert(s.push(x).drop_first() =~= s.drop_first().push(x));
        lemma_enc_cat_push(s.drop_first(), x, isa);
        assert(enc_cat(s.push(x), isa) =~= enc_cat(s, isa) + enc_op(x, isa)->Ok_0);
    }
}

proof fn lemma_enc_ops_cat(ops: Seq<OpModel>, isa: TargetIsa)
    requires
        all_faithful(ops, isa),
    ensures
        enc_ops(ops, isa) == Ok::<Seq<u8>, crate::encode::EncodeErrorModel>(enc_cat(ops, isa)),
    decreases ops.len(),
{
    if ops.len() > 0 {
        let init = ops.drop_last();
        assert forall|i: int| 0 <= i < init.len() implies #[trigger] faithful(init[i], isa) by {
            assert(init[i] == ops[i]);
        }
        lemma_enc_ops_cat(init, isa);
        assert(faithful(ops[ops.len() - 1], isa));
        lemma_step_roundtrip(isa, ops.last(), Seq::empty(), Seq::empty());
        lemma_enc_cat_push(init, ops.last(), isa);
        assert(init.push(ops.last()) =~= ops);
    }
}

proof fn lemma_decode_cat(isa: TargetIsa, pre: Seq<u8>, ops: Seq<OpModel>)
    requires
        all_faithful(ops, isa),
    ensures
        decode_from(isa, pre + enc_cat(ops, isa), pre.len()) == Ok::<
            Seq<OpModel>,
            crate::decode::DecodeErrorModel,
        >(decoded_ops(ops, isa)),
    decreases ops.len(),
{
    let whole = pre + enc_cat(ops, isa);
    if ops.len() == 0 {
        assert(whole.len() == pre.len());
        assert(decoded_ops(ops, isa) =~= Seq::<OpModel>::empty());
    } else {
        let first = ops[0];
        let tail = ops.drop_first();
        assert(faithful(ops[0], isa));
        assert forall|i: int| 0 <= i < tail.len() implies #[trigger] faithful(tail[i], isa) by {
            assert(tail[i] == ops[i + 1]);
        }
        let bytes = enc_op(first, isa)->Ok_0;
        let rest = enc_cat(tail, isa);
        lemma_step_roundtrip(isa, first, pre, rest);
        assert(whole =~= pre + bytes + rest);
        lemma_decode_cat(isa, pre + bytes, tail);
        assert((pre + bytes) + rest =~= whole);
        assert(seq![decoded_form(first, isa)] + decoded_ops(tail, isa) =~= decoded_ops(ops, isa));
    }
}

/// Codec round trip: a sequence of operations that the codec of a target with a
/// decoder carries faithfully encodes to the concatenation of the operations'
/// encodings, and those bytes decode, with no gap, to the operations in their
/// decoded form, each of the same meaning as the operation it came from.
pub proof fn lemma_codec_roundtrip(ops: Seq<OpModel>, isa: TargetIsa)
    requires
        decodable(isa),
        all_faithful(ops, isa),
    ensures
        enc_ops(ops, isa) == Ok::<Seq<u8>, crate::encode::EncodeErrorModel>(enc_cat(ops, isa)),
        decode_spec(enc_cat(ops, isa), isa) == Ok::<Seq<OpModel>, crate::decode::DecodeErrorModel>(
            decoded_ops(ops, isa),
        ),
        decoded_ops(ops, isa).len() == ops.len(),
        forall|i: int|
            0 <= i < ops.len() ==> sem(#[trigger] decoded_ops(ops, isa)[i]) == sem(ops[i]) && !(
            decoded_ops(ops, isa)[i] is Unknown),
{
    lemma_enc_ops_cat(ops, isa);
    lemma_decode_cat(isa, Seq::empty(), ops);
    assert(Seq::<u8>::empty() + enc_cat(ops, isa) =~= enc_cat(ops, isa));
    assert forall|i: int| 0 <= i < ops.len() implies sem(#[trigger] decoded_ops(ops, isa)[i]) == sem(
        ops[i],
    ) && !(decoded_ops(ops, isa)[i] is Unknown) by {
        assert(faithful(ops[i], isa));
        lemma_sem_decoded(ops[i], isa);
    }
}

// ---------------------------------------------------------------------------
// Registers above the window
// ---------------------------------------------------------------------------

/// The highest virtual register the codec of `isa` encodes as itself, on the
/// targets that clamp higher registers to it (all but x86, which keeps the
/// low three bits of a register number).
pub open spec fn reg_window(isa: TargetIsa) -> u32 {
    match isa {
        TargetIsa::Mips | TargetIsa::ColdFire | TargetIsa::Sparc => 7,
        TargetIsa::Ppc => 28,
        TargetIsa::Alpha => 31,
        TargetIsa::SuperH(_) => 15,
        TargetIsa::Arm => 12,
        TargetIsa::AArch64 => 30,
        _ => 0,
    }
}

/// `op` with each of its registers clamped to at most `hi`.
pub open spec fn clamp_regs(op: OpModel, hi: u32) -> OpModel {
    match op {
        OpModel::MovImm { dst, imm } => OpModel::MovImm { dst: clamp(dst, hi), imm },
        OpModel::AddImm { dst, imm } => OpModel::AddImm { dst: clamp(dst, hi), imm },
        OpModel::SubImm { dst, imm } => OpModel::SubImm { dst: clamp(dst, hi), imm },
        OpModel::Clear { dst } => OpModel::Clear { dst: clamp(dst, hi) },
        OpModel::Inc { dst } => OpModel::Inc { dst: clamp(dst, hi) },
        OpModel::Dec { dst } => OpModel::Dec { dst: clamp(dst, hi) },
        OpModel::Push { src } => OpModel::Push { src: clamp(src, hi) },
        OpModel::Pop { dst } => OpModel::Pop { dst: clamp(dst, hi) },
        OpModel::LdMem { dst, base, offset, width } => OpModel::LdMem {
            dst: clamp(dst, hi),
            base: clamp(base, hi),
            offset,
            width,
        },
        OpModel::StMem { src, base, offset, width } => OpModel::StMem {
            src: clamp(src, hi),
            base: clamp(base, hi),
            offset,
            width,
        },
        _ => op,
    }
}

/// `ops` with the registers of each clamped to at most `hi`.
pub open spec fn clamped_ops(ops: Seq<OpModel>, hi: u32) -> Seq<OpModel> {
    Seq::new(ops.len(), |i: int| clamp_regs(ops[i], hi))
}

/// On the targets that clamp registers, an operation that encodes is encoded
/// exactly as the same operation on its registers clamped to the window: a
/// register above the window stands for the window's top register.
pub proof fn lemma_register_window(op: OpModel, isa: TargetIsa)
    requires
        !(isa is X86_64),
        enc_op(op, isa) is Ok,
    ensures
        enc_op(clamp_regs(op, reg_window(isa)), isa) == enc_op(op, isa),
{
}

proof fn lemma_clamped_enc_ops(ops: Seq<OpModel>, isa: TargetIsa)
    requires
        !(isa is X86_64),
        enc_ops(ops, isa) is Ok,
    ensures
        enc_ops(clamped_ops(ops, reg_window(isa)), isa) == enc_ops(ops, isa),
    decreases ops.len(),
{
    if ops.len() > 0 {
        let c = clamped_ops(ops, reg_window(isa));
        lemma_clamped_enc_ops(ops.drop_last(), isa);
        assert(c.drop_last() =~= clamped_ops(ops.drop_last(), reg_window(isa)));
        lemma_register_window(ops.last(), isa);
    }
}

/// The codec round trip above the register window: on the targets that clamp
/// registers, a program that encodes decodes to the decoded form of the program
/// on the clamped registers, whenever that one is carried faithfully.
pub proof fn lemma_codec_roundtrip_clamped(ops: Seq<OpModel>, isa: TargetIsa)
    requires
        !(isa is X86_64),
        decodable(isa),
        enc_ops(ops, isa) is Ok,
        all_faithful(clamped_ops(ops, reg_window(isa)), isa),
    ensures
        decode_spec(enc_ops(ops, isa)->Ok_0, isa) == Ok::<Seq<OpModel>, crate::decode::DecodeErrorModel>(
            decoded_ops(clamped_ops(ops, reg_window(isa)), isa),
        ),
{
    lemma_clamped_enc_ops(ops, isa);
    lemma_codec_roundtrip(clamped_ops(ops, reg_window(isa)), isa);
}

// ---------------------------------------------------------------------------
// What the encoders accept
// ---------------------------------------------------------------------------

/// The highest virtual register the codec of `isa` carries as itself: the top
/// of its register window, below Alpha's zero register r31; x86 keeps eight.
pub open spec fn carried_reg(isa: TargetIsa) -> u32 {
    match isa {
        TargetIsa::Mips | TargetIsa::ColdFire | TargetIsa::Sparc | TargetIsa::X86_64 => 7,
        TargetIsa::Ppc => 28,
        TargetIsa::Alpha | TargetIsa::AArch64 => 30,
        TargetIsa::SuperH(_) => 15,
        TargetIsa::Arm => 12,
        _ => 0,
    }
}

/// Every register `op` names is at most `hi`.
pub open spec fn regs_within(op: OpModel, hi: u32) -> bool {
    match op {
        OpModel::MovImm { dst, .. } | OpModel::AddImm { dst, .. } | OpModel::SubImm { dst, .. }
        | OpModel::Clear { dst } | OpModel::Inc { dst } | OpModel::Dec { dst } | OpModel::Pop {
            dst,
        } => dst <= hi,
        OpModel::Push { src } => src <= hi,
        OpModel::LdMem { dst, base, .. } => dst <= hi && base <= hi,
        OpModel::StMem { src, base, .. } => src <= hi && base <= hi,
        _ => true,
    }
}

/// A ColdFire memory move, which the ColdFire decoder does not read back.
pub open spec fn coldfire_memory_move(op: OpModel, isa: TargetIsa) -> bool {
    isa is ColdFire && (op is LdMem || op is StMem)
}

/// Every operation an encoder accepts on registers its target carries is
/// carried faithfully, ColdFire memory moves excepted.
pub proof fn lemma_encodable_faithful(op: OpModel, isa: TargetIsa)
    requires
        decodable(isa),
        enc_op(op, isa) is Ok,
        regs_within(op, carried_reg(isa)),
        !coldfire_memory_move(op, isa),
    ensures
        faithful(op, isa),
{
}

// ---------------------------------------------------------------------------
// Lifting inverts the x86 encoder
// ---------------------------------------------------------------------------

proof fn lemma_simm8_back(imm: u32)
    by (bit_vector)
    requires
        (imm as i32) >= -128i32,
        (imm as i32) <= 127i32,
    ensures
        ((imm as u8) as i8) as u32 == imm,
{
}

proof fn lemma_lift_x86_op(op: OpModel, pre: Seq<u8>, rest: Seq<u8>, vma: u64)
    requires
        x86_faithful(op),
    ensures
        enc_x86(op) is Ok,
        enc_x86(op)->Ok_0.len() > 0,
        lift_step(pre + enc_x86(op)->Ok_0 + rest, pre.len(), vma) == LiftStep::Emit(
            op,
            enc_x86(op)->Ok_0.len(),
        ),
{
    let i = pre.len() as int;
    let b = pre + enc_x86(op)->Ok_0 + rest;
    match op {
        OpModel::Nop | OpModel::Ret | OpModel::Inc { .. } | OpModel::Dec { .. } | OpModel::Push {
            ..
        } | OpModel::Pop { .. } => {
            lemma_x86_bytes(0, 0);
            match op {
                OpModel::Inc { dst } | OpModel::Dec { dst } | OpModel::Pop { dst } => lemma_x86_bytes(dst, 0),
                OpModel::Push { src } => lemma_x86_bytes(src, 0),
                _ => {},
            }
            assert(b[i] == enc_x86(op)->Ok_0[0]);
        },
        OpModel::Clear { dst } => {
            lemma_x86_bytes(dst, 0);
            assert(b[i] == enc_x86(op)->Ok_0[0]);
            assert(b[i + 1] == enc_x86(op)->Ok_0[1]);
        },
        OpModel::MovImm { dst, imm } => {
            let x = (0xB8u8 + reg3(dst)) as u8;
            lemma_x86_bytes(dst, 0);
            assert(b =~= (pre + seq![x]) + le32(imm) + rest);
            lemma_le_at(pre + seq![x], imm, rest);
            assert(b[i] == x);
        },
        OpModel::AddImm { dst, imm } => {
            lemma_x86_bytes(dst, imm);
            if dst == 0 && imm > 0x7f {
                assert(b =~= (pre + seq![0x05u8]) + le32(imm) + rest);
                lemma_le_at(pre + seq![0x05u8], imm, rest);
                assert(b[i] == 0x05u8);
            } else {
                lemma_simm8_back(imm);
                assert(b[i] == 0x83u8);
                assert(b[i + 1] == enc_x86(op)->Ok_0[1]);
                assert(b[i + 2] == enc_x86(op)->Ok_0[2]);
            }
        },
        OpModel::SubImm { dst, imm } => {
            lemma_x86_bytes(dst, imm);
            if dst == 0 && imm > 0x7f {
                assert(b =~= (pre + seq![0x2Du8]) + le32(imm) + rest);
                lemma_le_at(pre + seq![0x2Du8], imm, rest);
                assert(b[i] == 0x2Du8);
            } else {
                lemma_simm8_back(imm);
                assert(b[i] == 0x83u8);
                assert(b[i + 1] == enc_x86(op)->Ok_0[1]);
                assert(b[i + 2] == enc_x86(op)->Ok_0[2]);
            }
        },
        _ => {},
    }
}

proof fn lemma_lift_cat(pre: Seq<u8>, ops: Seq<OpModel>, vma: u64)
    requires
        all_faithful(ops, TargetIsa::X86_64),
    ensures
        lift_from(pre + enc_cat(ops, TargetIsa::X86_64), pre.len(), vma) == Ok::<Seq<OpModel>, LiftError>(ops),
    decreases ops.len(),
{
    let isa = TargetIsa::X86_64;
    let whole = pre + enc_cat(ops, isa);
    if ops.len() == 0 {
        assert(whole.len() == pre.len());
        assert(ops =~= Seq::<OpModel>::empty());
    } else {
        let first = ops[0];
        let tail = ops.drop_first();
        assert(faithful(ops[0], isa));
        assert forall|i: int| 0 <= i < tail.len() implies #[trigger] faithful(tail[i], isa) by {
            assert(tail[i] == ops[i + 1]);
        }
        let bytes = enc_op(first, isa)->Ok_0;
        let rest = enc_cat(tail, isa);
        lemma_lift_x86_op(first, pre, rest, vma);
        assert(whole =~= pre + bytes + rest);
        lemma_lift_cat(pre + bytes, tail, vma);
        assert((pre + bytes) + rest =~= whole);
        assert(lift_step(whole, pre.len(), vma) == LiftStep::Emit(first, bytes.len()));
        assert(lift_from(whole, pre.len() + bytes.len(), vma) == Ok::<Seq<OpModel>, LiftError>(tail));
        assert(seq![first] + tail =~= ops);
    }
}

/// Lifting inverts the x86 encoder: a non-empty program that the x86 codec
/// carries (the eight registers, short immediates within a signed byte
/// unless on `eax`) encodes, and lifting its bytes at any address gives back
/// exactly the program.
pub proof fn lemma_lift_inverts_x86_encoder(ops: Seq<OpModel>, vma: u64)
    requires
        ops.len() > 0,
        all_faithful(ops, TargetIsa::X86_64),
    ensures
        enc_ops(ops, TargetIsa::X86_64) matches Ok(b) && lift_spec(b, vma) == Ok::<
            Seq<OpModel>,
            LiftError,
        >(ops),
{
    let isa = TargetIsa::X86_64;
    lemma_enc_ops_cat(ops, isa);
    lemma_lift_cat(Seq::empty(), ops, vma);
    assert(Seq::<u8>::empty() + enc_cat(ops, isa) =~= enc_cat(ops, isa));
    assert(faithful(ops[0], isa));
    lemma_lift_x86_op(ops[0], Seq::empty(), enc_cat(ops.drop_first(), isa), vma);
    assert(enc_cat(ops, isa).len() > 0);
}

} // verus!
