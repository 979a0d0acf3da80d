//! Subset decoders: bytes → SIR operations, inverting the encoders of
//! [`crate::encode`].
//!
//! Each decoder understands exactly the encodings the matching encoder produces
//! for the lifted subset. A word outside that subset becomes an `Unknown` gap,
//! never a silent mis-decode.

use vstd::prelude::*;

use crate::sir::{Op, OpModel, VReg, ops_model};
use crate::target::TargetIsa;
use crate::encode::{be16, be32, le16, le32};
use crate::text::{dec, hex_alt, push_dec, push_hex_alt, text};

verus! {

/// Why a byte stream could not be decoded.
#[derive(Debug)]
pub enum DecodeError {
    /// The target has an encoder but no decoder.
    NoDecoder(String),
    /// The stream ends inside an instruction (decoder label, byte offset).
    Truncated(&'static str, u64),
}

/// Model of a [`DecodeError`].
pub enum DecodeErrorModel {
    NoDecoder(Seq<char>),
    Truncated(Seq<char>, u64),
}

impl View for DecodeError {
    type V = DecodeErrorModel;

    open spec fn view(&self) -> DecodeErrorModel {
        match self {
            DecodeError::NoDecoder(s) => DecodeErrorModel::NoDecoder(s@),
            DecodeError::Truncated(l, o) => DecodeErrorModel::Truncated(l@, *o),
        }
    }
}

/// Text of a decode error.
pub open spec fn decode_error_text(e: DecodeErrorModel) -> Seq<char> {
    match e {
        DecodeErrorModel::NoDecoder(t) => "no decoder for "@ + t + " yet (encode-only target)"@,
        DecodeErrorModel::Truncated(l, o) => "unexpected end of stream decoding "@ + l + " @"@
            + hex_alt(o as nat, 0),
    }
}

impl DecodeError {
    /// Human-readable message.
    pub fn message(&self) -> (s: String)
        ensures
            s@ == decode_error_text(self@),
    {
        let mut s = String::new();
        match self {
            DecodeError::NoDecoder(t) => {
                s.append("no decoder for ");
                s.append(t.as_str());
                s.append(" yet (encode-only target)");
            },
            DecodeError::Truncated(l, o) => {
                s.append("unexpected end of stream decoding ");
                s.append(l);
                s.append(" @");
                push_hex_alt(&mut s, *o, 0);
            },
        }
        s
    }
}

// ---------------------------------------------------------------------------
// Words and fields
// ---------------------------------------------------------------------------

/// Big-endian 32-bit word from four bytes.
pub open spec fn be_word(b0: u8, b1: u8, b2: u8, b3: u8) -> u32 {
    ((b0 as u32) << 24u32) | ((b1 as u32) << 16u32) | ((b2 as u32) << 8u32) | (b3 as u32)
}

/// Little-endian 32-bit word from four bytes.
pub open spec fn le_word(b0: u8, b1: u8, b2: u8, b3: u8) -> u32 {
    be_word(b3, b2, b1, b0)
}

/// Big-endian word at byte `i`.
pub open spec fn be_at(b: Seq<u8>, i: int) -> u32 {
    be_word(b[i], b[i + 1], b[i + 2], b[i + 3])
}

/// Little-endian word at byte `i`.
pub open spec fn le_at(b: Seq<u8>, i: int) -> u32 {
    le_word(b[i], b[i + 1], b[i + 2], b[i + 3])
}

/// Big-endian halfword at byte `i`.
pub open spec fn be_half_at(b: Seq<u8>, i: int) -> u16 {
    ((b[i] as u16) << 8u16) | (b[i + 1] as u16)
}

/// Little-endian halfword at byte `i`.
pub open spec fn le_half_at(b: Seq<u8>, i: int) -> u16 {
    let b0 = b[i];
    let b1 = b[i + 1];
    ((b1 as u16) << 8u16) | (b0 as u16)
}

/// The byte at `k`, or zero past the end.
pub open spec fn byte_or_zero(b: Seq<u8>, k: int) -> u8 {
    if 0 <= k < b.len() { b[k] } else { 0 }
}

/// Little-endian word of up to four bytes at `i`, zero-filled past the end.
pub open spec fn w32(b: Seq<u8>, i: int) -> u32 {
    le_word(byte_or_zero(b, i), byte_or_zero(b, i + 1), byte_or_zero(b, i + 2), byte_or_zero(b, i + 3))
}

fn be_at_exec(b: &[u8], i: usize) -> (w: u32)
    requires
        i + 4 <= b@.len(),
    ensures
        w == be_at(b@, i as int),
{
    ((b[i] as u32) << 24u32) | ((b[i + 1] as u32) << 16u32) | ((b[i + 2] as u32) << 8u32) | (b[i
        + 3] as u32)
}

fn le_at_exec(b: &[u8], i: usize) -> (w: u32)
    requires
        i + 4 <= b@.len(),
    ensures
        w == le_at(b@, i as int),
{
    let b0 = b[i];
    let b1 = b[i + 1];
    let b2 = b[i + 2];
    let b3 = b[i + 3];
    ((b3 as u32) << 24u32) | ((b2 as u32) << 16u32) | ((b1 as u32) << 8u32) | (b0 as u32)
}

fn be_half_exec(b: &[u8], i: usize) -> (w: u16)
    requires
        i + 2 <= b@.len(),
    ensures
        w == be_half_at(b@, i as int),
{
    ((b[i] as u16) << 8u16) | (b[i + 1] as u16)
}

fn le_half_exec(b: &[u8], i: usize) -> (w: u16)
    requires
        i + 2 <= b@.len(),
    ensures
        w == le_half_at(b@, i as int),
{
    let b0 = b[i];
    let b1 = b[i + 1];
    ((b1 as u16) << 8u16) | (b0 as u16)
}

fn w32_exec(b: &[u8], i: usize) -> (w: u32)
    ensures
        w == w32(b@, i as int),
{
    let b0: u8 = if i < b.len() { b[i] } else { 0 };
    let b1: u8 = if i < b.len() && 1 < b.len() - i { b[i + 1] } else { 0 };
    let b2: u8 = if i < b.len() && 2 < b.len() - i { b[i + 2] } else { 0 };
    let b3: u8 = if i < b.len() && 3 < b.len() - i { b[i + 3] } else { 0 };
    ((b3 as u32) << 24u32) | ((b2 as u32) << 16u32) | ((b1 as u32) << 8u32) | (b0 as u32)
}

fn be32_vec(w: u32) -> (v: Vec<u8>)
    ensures
        v@ == be32(w),
{
    let v = vec![(w >> 24u32) as u8, (w >> 16u32) as u8, (w >> 8u32) as u8, w as u8];
    assert(v@ =~= be32(w));
    v
}

fn le16_vec(h: u16) -> (v: Vec<u8>)
    ensures
        v@ == le16(h),
{
    let v = vec![h as u8, (h >> 8u16) as u8];
    assert(v@ =~= le16(h));
    v
}

fn be16_vec(h: u16) -> (v: Vec<u8>)
    ensures
        v@ == be16(h),
{
    let v = vec![(h >> 8u16) as u8, h as u8];
    assert(v@ =~= be16(h));
    v
}

/// The low 16 bits of `w`, sign-extended.
pub open spec fn sext16(w: u32) -> i32 {
    ((w as u16) as i16) as i32
}

fn sext16_exec(w: u32) -> (r: i32)
    ensures
        r == sext16(w),
        -32768 <= r <= 32767,
{
    ((w as u16) as i16) as i32
}

/// `r - k`, or zero when `r < k`.
pub open spec fn sat_sub(r: u32, k: u32) -> u32 {
    if r >= k { (r - k) as u32 } else { 0 }
}

/// A gap covering one word; its bytes are the word in big-endian order.
pub open spec fn gap(offset: nat, word: u32, note: Seq<char>) -> OpModel {
    OpModel::Unknown { offset: offset as u64, bytes: be32(word), note }
}

fn gap_exec(offset: usize, word: u32, note: String) -> (op: Op)
    ensures
        op@ == gap(offset as nat, word, note@),
{
    Op::Unknown { offset: offset as u64, bytes: be32_vec(word), note }
}

/// `dst += imm` as the canonical operation the encoders emit: `Inc`, `Dec`,
/// `SubImm` for negative and `AddImm` for other values.
pub open spec fn arith(dst: u32, imm: int) -> OpModel {
    if imm == 1 {
        OpModel::Inc { dst }
    } else if imm == -1 {
        OpModel::Dec { dst }
    } else if imm < 0 {
        OpModel::SubImm { dst, imm: (-imm) as u32 }
    } else {
        OpModel::AddImm { dst, imm: imm as u32 }
    }
}

fn arith_exec(dst: u32, imm: i32) -> (op: Op)
    requires
        imm > i32::MIN,
    ensures
        op@ == arith(dst, imm as int),
{
    if imm == 1 {
        Op::Inc { dst: VReg(dst) }
    } else if imm == -1 {
        Op::Dec { dst: VReg(dst) }
    } else if imm < 0 {
        Op::SubImm { dst: VReg(dst), imm: (-imm) as u32 }
    } else {
        Op::AddImm { dst: VReg(dst), imm: imm as u32 }
    }
}

// ---------------------------------------------------------------------------
// The decoding loop
// ---------------------------------------------------------------------------

/// One decoding step at a byte offset: the operations it yields and how many
/// bytes it consumes, or the error that stops decoding.
pub enum DecStep {
    Emit(Seq<OpModel>, nat),
    Fail(DecodeErrorModel),
}

/// `p` in front of a decoding result.
pub open spec fn prepend(p: Seq<OpModel>, r: Result<Seq<OpModel>, DecodeErrorModel>) -> Result<
    Seq<OpModel>,
    DecodeErrorModel,
> {
    match r {
        Ok(s) => Ok(p + s),
        Err(e) => Err(e),
    }
}

/// A delay-slot gap when the word after a return is not the target's nop.
pub open spec fn delay_gap(bad: bool, offset: nat, bytes: Seq<u8>, note: Seq<char>) -> Seq<
    OpModel,
> {
    if bad {
        seq![OpModel::Unknown { offset: offset as u64, bytes, note }]
    } else {
        Seq::empty()
    }
}

/// Whether [`decode_ops`] has a decoder for the target.
pub open spec fn decodable(isa: TargetIsa) -> bool {
    match isa {
        TargetIsa::M88k | TargetIsa::Ia64 | TargetIsa::I860 => false,
        _ => true,
    }
}

/// The decoding step of `isa` at offset `i < b.len()`.
#[verifier::opaque]
pub open spec fn dec_step(isa: TargetIsa, b: Seq<u8>, i: nat) -> DecStep {
    match isa {
        TargetIsa::Mips => mips_step(b, i),
        TargetIsa::Ppc => ppc_step(b, i),
        TargetIsa::SuperH(_) => superh_step(b, i),
        TargetIsa::Alpha => alpha_step(b, i),
        TargetIsa::PaRisc => parisc_step(b, i),
        TargetIsa::ColdFire => coldfire_step(b, i),
        TargetIsa::Arm => arm_step(b, i),
        TargetIsa::AArch64 => aarch64_step(b, i),
        TargetIsa::Sparc => sparc_step(b, i),
        TargetIsa::X86_64 => x86_step(b, i),
        _ => DecStep::Fail(DecodeErrorModel::NoDecoder(isa.label())),
    }
}

pub proof fn lemma_step_advances(isa: TargetIsa, b: Seq<u8>, i: nat)
    requires
        i < b.len(),
    ensures
        dec_step(isa, b, i) matches DecStep::Emit(_, n) ==> 0 < n && i + n <= b.len(),
{
    reveal(dec_step);
}

/// Operations decoded from offset `i` to the end of `b`.
pub open spec fn decode_from(isa: TargetIsa, b: Seq<u8>, i: nat) -> Result<
    Seq<OpModel>,
    DecodeErrorModel,
>
    decreases b.len() - i,
{
    if i < b.len() {
        proof {
            lemma_step_advances(isa, b, i);
        }
        match dec_step(isa, b, i) {
            DecStep::Fail(e) => Err(e),
            DecStep::Emit(ops, n) => prepend(ops, decode_from(isa, b, i + n)),
        }
    } else {
        Ok(Seq::empty())
    }
}

/// What [`decode_ops`] returns for `b` on `isa`.
pub open spec fn decode_spec(b: Seq<u8>, isa: TargetIsa) -> Result<Seq<OpModel>, DecodeErrorModel> {
    if decodable(isa) {
        decode_from(isa, b, 0)
    } else {
        Err(DecodeErrorModel::NoDecoder(isa.label()))
    }
}

fn step_exec(b: &[u8], i: usize, isa: TargetIsa) -> (r: Result<(Vec<Op>, usize), DecodeError>)
    requires
        i < b@.len(),
        decodable(isa),
    ensures
        match r {
            Ok((ops, n)) => dec_step(isa, b@, i as nat) == DecStep::Emit(ops_model(ops@), n as nat),
            Err(e) => dec_step(isa, b@, i as nat) == DecStep::Fail(e@),
        },
{
    reveal(dec_step);
    match isa {
        TargetIsa::Mips => decode_mips_at(b, i),
        TargetIsa::Ppc => decode_ppc_at(b, i),
        TargetIsa::SuperH(_) => decode_superh_at(b, i),
        TargetIsa::Alpha => decode_alpha_at(b, i),
        TargetIsa::PaRisc => decode_parisc_at(b, i),
        TargetIsa::ColdFire => decode_coldfire_at(b, i),
        TargetIsa::Arm => decode_arm_at(b, i),
        TargetIsa::AArch64 => decode_aarch64_at(b, i),
        TargetIsa::Sparc => decode_sparc_at(b, i),
        TargetIsa::X86_64 => decode_x86_at(b, i),
        _ => Err(DecodeError::NoDecoder(text(isa.name()))),
    }
}

proof fn lemma_ops_model_append(a: Seq<Op>, b: Seq<Op>)
    ensures
        ops_model(a + b) == ops_model(a) + ops_model(b),
{
    assert(ops_model(a + b) =~= ops_model(a) + ops_model(b));
}

/// Decodes `bytes` back into SIR operations for `isa`. Targets without a
/// decoder are an error; words outside the encoder subset become gaps.
pub fn decode_ops(bytes: &[u8], isa: TargetIsa) -> (r: Result<Vec<Op>, DecodeError>)
    ensures
        match r {
            Ok(ops) => decode_spec(bytes@, isa) == Ok::<Seq<OpModel>, DecodeErrorModel>(
                ops_model(ops@),
            ),
            Err(e) => decode_spec(bytes@, isa) == Err::<Seq<OpModel>, DecodeErrorModel>(e@),
        },
{
    if !has_decoder(isa) {
        return Err(DecodeError::NoDecoder(text(isa.name())));
    }
    let mut out: Vec<Op> = Vec::new();
    let mut i: usize = 0;
    while i < bytes.len()
        invariant
            i <= bytes@.len(),
            decodable(isa),
            decode_from(isa, bytes@, 0) == prepend(ops_model(out@), decode_from(isa, bytes@, i as nat)),
        decreases bytes@.len() - i,
    {
        proof {
            lemma_step_advances(isa, bytes@, i as nat);
        }
        match step_exec(bytes, i, isa) {
            Err(e) => {
                return Err(e);
            },
            Ok((ops, n)) => {
                let ghost before = out@;
                let mut ops = ops;
                let ghost step_ops = ops@;
                out.append(&mut ops);
                proof {
                    lemma_ops_model_append(before, step_ops);
                    assert(ops_model(before) + ops_model(step_ops) + decode_from(isa, bytes@, (i + n) as nat)->Ok_0
                        =~= ops_model(before) + (ops_model(step_ops) + decode_from(isa, bytes@, (i + n) as nat)->Ok_0));
                }
                i = i + n;
            },
        }
    }
    assert(ops_model(out@) + Seq::<OpModel>::empty() =~= ops_model(out@));
    Ok(out)
}

/// True when [`decode_ops`] understands the target's encoded subset.
pub fn has_decoder(isa: TargetIsa) -> (r: bool)
    ensures
        r == decodable(isa),
{
    match isa {
        TargetIsa::M88k | TargetIsa::Ia64 | TargetIsa::I860 => false,
        _ => true,
    }
}

// ---------------------------------------------------------------------------
// MIPS (big-endian words; registers $t0..$t7 ↔ VReg 0..7)
// ---------------------------------------------------------------------------

/// MIPS decoding of one word other than `jr $ra`.
pub open spec fn mips_op(w: u32, i: nat) -> OpModel {
    let opc = w >> 26u32;
    let rs = (w >> 21u32) & 0x1fu32;
    let rt = (w >> 16u32) & 0x1fu32;
    let imm = sext16(w & 0xffffu32);
    let funct = w & 0x3fu32;
    if w == 0 {
        OpModel::Nop
    } else if opc == 0 && funct == 0x25 && rs == 0 && rt == 0 {
        OpModel::Clear { dst: sat_sub((w >> 11u32) & 0x1fu32, 8) }
    } else if opc == 9 {
        if rs == 0 {
            OpModel::MovImm { dst: sat_sub(rt, 8), imm: imm as u32 }
        } else if rs == rt {
            arith(sat_sub(rt, 8), imm as int)
        } else {
            gap(i, w, "mips addiu rs!=0, rs!=rt"@)
        }
    } else {
        gap(i, w, "mips opcode "@ + hex_alt(opc as nat, 0) + " outside encoder subset"@)
    }
}

/// MIPS decoding step.
pub open spec fn mips_step(b: Seq<u8>, i: nat) -> DecStep {
    if i + 4 > b.len() {
        DecStep::Fail(DecodeErrorModel::Truncated("mips"@, i as u64))
    } else if be_at(b, i as int) == 0x03E00008 {
        if i + 8 <= b.len() {
            let d = be_at(b, i + 4int);
            DecStep::Emit(
                seq![OpModel::Ret] + delay_gap(d != 0, i + 4, be32(d), "jr $ra delay slot is not a nop"@),
                8,
            )
        } else {
            DecStep::Emit(seq![OpModel::Ret], 4)
        }
    } else {
        DecStep::Emit(seq![mips_op(be_at(b, i as int), i)], 4)
    }
}

fn sat_sub_exec(r: u32, k: u32) -> (s: u32)
    ensures
        s == sat_sub(r, k),
{
    if r >= k { r - k } else { 0 }
}

fn mips_op_exec(w: u32, i: usize) -> (op: Op)
    ensures
        op@ == mips_op(w, i as nat),
{
    let opc = w >> 26u32;
    let rs = (w >> 21u32) & 0x1fu32;
    let rt = (w >> 16u32) & 0x1fu32;
    let imm = sext16_exec(w & 0xffffu32);
    let funct = w & 0x3fu32;
    if w == 0 {
        Op::Nop
    } else if opc == 0 && funct == 0x25 && rs == 0 && rt == 0 {
        Op::Clear { dst: VReg(sat_sub_exec((w >> 11u32) & 0x1fu32, 8)) }
    } else if opc == 9 {
        if rs == 0 {
            Op::MovImm { dst: VReg(sat_sub_exec(rt, 8)), imm: imm as u32 }
        } else if rs == rt {
            arith_exec(sat_sub_exec(rt, 8), imm)
        } else {
            gap_exec(i, w, text("mips addiu rs!=0, rs!=rt"))
        }
    } else {
        let mut note = text("mips opcode ");
        push_hex_alt(&mut note, opc as u64, 0);
        note.append(" outside encoder subset");
        gap_exec(i, w, note)
    }
}

/// Builds the operations of a return followed by its delay slot.
fn ret_with_delay(bad: bool, offset: usize, bytes: Vec<u8>, note: &str) -> (v: Vec<Op>)
    ensures
        ops_model(v@) == seq![OpModel::Ret] + delay_gap(bad, offset as nat, bytes@, note@),
{
    let mut v: Vec<Op> = Vec::new();
    v.push(Op::Ret);
    if bad {
        v.push(Op::Unknown { offset: offset as u64, bytes, note: text(note) });
    }
    assert(ops_model(v@) =~= seq![OpModel::Ret] + delay_gap(bad, offset as nat, bytes@, note@));
    v
}

fn one(op: Op) -> (v: Vec<Op>)
    ensures
        ops_model(v@) == seq![op@],
{
    let v = vec![op];
    assert(ops_model(v@) =~= seq![op@]);
    v
}

fn decode_mips_at(b: &[u8], i: usize) -> (r: Result<(Vec<Op>, usize), DecodeError>)
    requires
        i < b@.len(),
    ensures
        match r {
            Ok((ops, n)) => mips_step(b@, i as nat) == DecStep::Emit(ops_model(ops@), n as nat),
            Err(e) => mips_step(b@, i as nat) == DecStep::Fail(e@),
        },
{
    if b.len() - i < 4 {
        return Err(DecodeError::Truncated("mips", i as u64));
    }
    let w = be_at_exec(b, i);
    if w == 0x03E00008 {
        if b.len() - i >= 8 {
            let d = be_at_exec(b, i + 4);
            Ok((ret_with_delay(d != 0, i + 4, be32_vec(d), "jr $ra delay slot is not a nop"), 8))
        } else {
            Ok((one(Op::Ret), 4))
        }
    } else {
        Ok((one(mips_op_exec(w, i)), 4))
    }
}


// ---------------------------------------------------------------------------
// PowerPC (big-endian words; r3..r31 ↔ VReg 0..28)
// ---------------------------------------------------------------------------

/// PowerPC decoding of one word.
pub open spec fn ppc_op(w: u32, i: nat) -> OpModel {
    let rt = (w >> 21u32) & 0x1fu32;
    let ra = (w >> 16u32) & 0x1fu32;
    let imm = sext16(w & 0xffffu32);
    if w == 0x4E800020 {
        OpModel::Ret
    } else if w == 0x60000000 {
        OpModel::Nop
    } else if w >> 26u32 == 14 {
        if ra == 0 {
            OpModel::MovImm { dst: sat_sub(rt, 3), imm: imm as u32 }
        } else if ra == rt {
            arith(sat_sub(rt, 3), imm as int)
        } else {
            gap(i, w, "ppc addi ra!=0, ra!=rt"@)
        }
    } else {
        gap(i, w, "ppc opcode "@ + hex_alt((w >> 26u32) as nat, 0) + " outside encoder subset"@)
    }
}

/// PowerPC decoding step.
pub open spec fn ppc_step(b: Seq<u8>, i: nat) -> DecStep {
    if i + 4 > b.len() {
        DecStep::Fail(DecodeErrorModel::Truncated("ppc"@, i as u64))
    } else {
        DecStep::Emit(seq![ppc_op(be_at(b, i as int), i)], 4)
    }
}

fn ppc_op_exec(w: u32, i: usize) -> (op: Op)
    ensures
        op@ == ppc_op(w, i as nat),
{
    let rt = (w >> 21u32) & 0x1fu32;
    let ra = (w >> 16u32) & 0x1fu32;
    let imm = sext16_exec(w & 0xffffu32);
    if w == 0x4E800020 {
        Op::Ret
    } else if w == 0x60000000 {
        Op::Nop
    } else if w >> 26u32 == 14 {
        if ra == 0 {
            Op::MovImm { dst: VReg(sat_sub_exec(rt, 3)), imm: imm as u32 }
        } else if ra == rt {
            arith_exec(sat_sub_exec(rt, 3), imm)
        } else {
            gap_exec(i, w, text("ppc addi ra!=0, ra!=rt"))
        }
    } else {
        let mut note = text("ppc opcode ");
        push_hex_alt(&mut note, (w >> 26u32) as u64, 0);
        note.append(" outside encoder subset");
        gap_exec(i, w, note)
    }
}

fn decode_ppc_at(b: &[u8], i: usize) -> (r: Result<(Vec<Op>, usize), DecodeError>)
    requires
        i < b@.len(),
    ensures
        match r {
            Ok((ops, n)) => ppc_step(b@, i as nat) == DecStep::Emit(ops_model(ops@), n as nat),
            Err(e) => ppc_step(b@, i as nat) == DecStep::Fail(e@),
        },
{
    if b.len() - i < 4 {
        return Err(DecodeError::Truncated("ppc", i as u64));
    }
    let w = be_at_exec(b, i);
    Ok((one(ppc_op_exec(w, i)), 4))
}

// ---------------------------------------------------------------------------
// SuperH (little-endian halfwords; r0..r15 ↔ VReg 0..15)
// ---------------------------------------------------------------------------

/// SuperH decoding of one halfword other than `rts`.
pub open spec fn superh_op(w: u16, i: nat) -> OpModel {
    let n = ((w >> 8u16) & 0x0fu16) as u32;
    let imm = ((w & 0xffu16) as u8) as i8;
    if w == 0x0009 {
        OpModel::Nop
    } else if w & 0xF000u16 == 0xE000 {
        OpModel::MovImm { dst: n, imm: imm as u32 }
    } else if w & 0xF000u16 == 0x7000 {
        arith(n, imm as int)
    } else {
        OpModel::Unknown {
            offset: i as u64,
            bytes: le16(w),
            note: "sh halfword "@ + hex_alt(w as nat, 4) + " outside encoder subset"@,
        }
    }
}

/// SuperH decoding step.
pub open spec fn superh_step(b: Seq<u8>, i: nat) -> DecStep {
    if i + 2 > b.len() {
        DecStep::Fail(DecodeErrorModel::Truncated("superh"@, i as u64))
    } else if le_half_at(b, i as int) == 0x000B {
        if i + 4 <= b.len() {
            let d = le_half_at(b, i + 2int);
            DecStep::Emit(
                seq![OpModel::Ret] + delay_gap(d != 0x0009, i + 2, le16(d), "rts delay slot is not a nop"@),
                4,
            )
        } else {
            DecStep::Emit(seq![OpModel::Ret], 2)
        }
    } else {
        DecStep::Emit(seq![superh_op(le_half_at(b, i as int), i)], 2)
    }
}

fn superh_op_exec(w: u16, i: usize) -> (op: Op)
    ensures
        op@ == superh_op(w, i as nat),
{
    let n = ((w >> 8u16) & 0x0fu16) as u32;
    let imm = (((w & 0xffu16) as u8) as i8) as i32;
    if w == 0x0009 {
        Op::Nop
    } else if w & 0xF000u16 == 0xE000 {
        Op::MovImm { dst: VReg(n), imm: imm as u32 }
    } else if w & 0xF000u16 == 0x7000 {
        arith_exec(n, imm)
    } else {
        let mut note = text("sh halfword ");
        push_hex_alt(&mut note, w as u64, 4);
        note.append(" outside encoder subset");
        Op::Unknown { offset: i as u64, bytes: le16_vec(w), note }
    }
}

fn decode_superh_at(b: &[u8], i: usize) -> (r: Result<(Vec<Op>, usize), DecodeError>)
    requires
        i < b@.len(),
    ensures
        match r {
            Ok((ops, n)) => superh_step(b@, i as nat) == DecStep::Emit(ops_model(ops@), n as nat),
            Err(e) => superh_step(b@, i as nat) == DecStep::Fail(e@),
        },
{
    if b.len() - i < 2 {
        return Err(DecodeError::Truncated("superh", i as u64));
    }
    let w = le_half_exec(b, i);
    if w == 0x000B {
        if b.len() - i >= 4 {
            let d = le_half_exec(b, i + 2);
            Ok((ret_with_delay(d != 0x0009, i + 2, le16_vec(d), "rts delay slot is not a nop"), 4))
        } else {
            Ok((one(Op::Ret), 2))
        }
    } else {
        Ok((one(superh_op_exec(w, i)), 2))
    }
}

// ---------------------------------------------------------------------------
// DEC Alpha (little-endian words)
// ---------------------------------------------------------------------------

/// Alpha decoding of one word.
pub open spec fn alpha_op(w: u32, i: nat) -> OpModel {
    let ra = (w >> 21u32) & 0x1fu32;
    let rb = (w >> 16u32) & 0x1fu32;
    let disp = sext16(w & 0xffffu32);
    if w == 0x6BFA8001 {
        OpModel::Ret
    } else if w == 0x23FF0000 {
        OpModel::Nop
    } else if w >> 26u32 == 0x08 {
        if rb == 31 && ra != 31 {
            OpModel::MovImm { dst: ra, imm: disp as u32 }
        } else if rb == ra && ra != 31 {
            arith(ra, disp as int)
        } else {
            gap(i, w, "alpha lda with rb outside {r31, ra}"@)
        }
    } else {
        gap(i, w, "alpha opcode "@ + hex_alt((w >> 26u32) as nat, 0) + " outside encoder subset"@)
    }
}

/// Alpha decoding step.
pub open spec fn alpha_step(b: Seq<u8>, i: nat) -> DecStep {
    if i + 4 > b.len() {
        DecStep::Fail(DecodeErrorModel::Truncated("alpha"@, i as u64))
    } else {
        DecStep::Emit(seq![alpha_op(le_at(b, i as int), i)], 4)
    }
}

fn alpha_op_exec(w: u32, i: usize) -> (op: Op)
    ensures
        op@ == alpha_op(w, i as nat),
{
    let ra = (w >> 21u32) & 0x1fu32;
    let rb = (w >> 16u32) & 0x1fu32;
    let disp = sext16_exec(w & 0xffffu32);
    if w == 0x6BFA8001 {
        Op::Ret
    } else if w == 0x23FF0000 {
        Op::Nop
    } else if w >> 26u32 == 0x08 {
        if rb == 31 && ra != 31 {
            Op::MovImm { dst: VReg(ra), imm: disp as u32 }
        } else if rb == ra && ra != 31 {
            arith_exec(ra, disp)
        } else {
            gap_exec(i, w, text("alpha lda with rb outside {r31, ra}"))
        }
    } else {
        let mut note = text("alpha opcode ");
        push_hex_alt(&mut note, (w >> 26u32) as u64, 0);
        note.append(" outside encoder subset");
        gap_exec(i, w, note)
    }
}

fn decode_alpha_at(b: &[u8], i: usize) -> (r: Result<(Vec<Op>, usize), DecodeError>)
    requires
        i < b@.len(),
    ensures
        match r {
            Ok((ops, n)) => alpha_step(b@, i as nat) == DecStep::Emit(ops_model(ops@), n as nat),
            Err(e) => alpha_step(b@, i as nat) == DecStep::Fail(e@),
        },
{
    if b.len() - i < 4 {
        return Err(DecodeError::Truncated("alpha", i as u64));
    }
    let w = le_at_exec(b, i);
    Ok((one(alpha_op_exec(w, i)), 4))
}

// ---------------------------------------------------------------------------
// PA-RISC (big-endian words, one delay slot)
// ---------------------------------------------------------------------------

/// PA-RISC decoding step.
pub open spec fn parisc_step(b: Seq<u8>, i: nat) -> DecStep {
    if i + 4 > b.len() {
        DecStep::Fail(DecodeErrorModel::Truncated("parisc"@, i as u64))
    } else {
        let w = be_at(b, i as int);
        if w == 0xE840C000 || w == 0xE840C002 {
            if i + 8 <= b.len() {
                let d = be_at(b, i + 4int);
                DecStep::Emit(
                    seq![OpModel::Ret] + delay_gap(d != 0x08000240, i + 4, be32(d), "bv delay slot is not a nop"@),
                    8,
                )
            } else {
                DecStep::Emit(seq![OpModel::Ret], 4)
            }
        } else if w == 0x08000240 {
            DecStep::Emit(seq![OpModel::Nop], 4)
        } else {
            DecStep::Emit(seq![gap(i, w, "parisc word outside encoder subset"@)], 4)
        }
    }
}

fn decode_parisc_at(b: &[u8], i: usize) -> (r: Result<(Vec<Op>, usize), DecodeError>)
    requires
        i < b@.len(),
    ensures
        match r {
            Ok((ops, n)) => parisc_step(b@, i as nat) == DecStep::Emit(ops_model(ops@), n as nat),
            Err(e) => parisc_step(b@, i as nat) == DecStep::Fail(e@),
        },
{
    if b.len() - i < 4 {
        return Err(DecodeError::Truncated("parisc", i as u64));
    }
    let w = be_at_exec(b, i);
    if w == 0xE840C000 || w == 0xE840C002 {
        if b.len() - i >= 8 {
            let d = be_at_exec(b, i + 4);
            Ok((ret_with_delay(d != 0x08000240, i + 4, be32_vec(d), "bv delay slot is not a nop"), 8))
        } else {
            Ok((one(Op::Ret), 4))
        }
    } else if w == 0x08000240 {
        Ok((one(Op::Nop), 4))
    } else {
        Ok((one(gap_exec(i, w, text("parisc word outside encoder subset"))), 4))
    }
}

// ---------------------------------------------------------------------------
// ColdFire (big-endian, variable length; D0..D7 ↔ VReg 0..7)
// ---------------------------------------------------------------------------

/// ColdFire decoding step.
pub open spec fn coldfire_step(b: Seq<u8>, i: nat) -> DecStep {
    if i + 2 > b.len() {
        DecStep::Fail(DecodeErrorModel::Truncated("coldfire"@, i as u64))
    } else {
        let w = be_half_at(b, i as int);
        let dn = ((w >> 3u16) & 7u16) as u32;
        if w == 0x4E71 {
            DecStep::Emit(seq![OpModel::Nop], 2)
        } else if w == 0x4E75 {
            DecStep::Emit(seq![OpModel::Ret], 2)
        } else if w & 0xF100u16 == 0x7000 {
            DecStep::Emit(
                seq![OpModel::MovImm {
                    dst: ((w >> 9u16) & 7u16) as u32,
                    imm: (((w & 0xffu16) as u8) as i8) as u32,
                }],
                2,
            )
        } else if w & 0xF83Fu16 == 0x203C {
            if i + 6 > b.len() {
                DecStep::Fail(DecodeErrorModel::Truncated("coldfire"@, i as u64))
            } else {
                DecStep::Emit(
                    seq![OpModel::MovImm { dst: ((w >> 6u16) & 7u16) as u32, imm: be_at(b, i + 2int) }],
                    6,
                )
            }
        } else if w & 0xF1FFu16 == 0x201F {
            DecStep::Emit(seq![OpModel::Pop { dst: ((w >> 9u16) & 7u16) as u32 }], 2)
        } else if w & 0xFFF8u16 == 0x2F00 {
            DecStep::Emit(seq![OpModel::Push { src: (w & 7u16) as u32 }], 2)
        } else if w & 0xFFC0u16 == 0x0680 || w & 0xFFC0u16 == 0x0480 {
            if i + 6 > b.len() {
                DecStep::Fail(DecodeErrorModel::Truncated("coldfire"@, i as u64))
            } else if w & 0xFFC0u16 == 0x0680 {
                DecStep::Emit(seq![OpModel::AddImm { dst: dn, imm: be_at(b, i + 2int) }], 6)
            } else {
                DecStep::Emit(seq![OpModel::SubImm { dst: dn, imm: be_at(b, i + 2int) }], 6)
            }
        } else if w & 0xFFC0u16 == 0x4280 {
            DecStep::Emit(seq![OpModel::Clear { dst: dn }], 2)
        } else if w & 0xFFC0u16 == 0x5280 {
            DecStep::Emit(seq![OpModel::Inc { dst: dn }], 2)
        } else if w & 0xFFC0u16 == 0x5380 {
            DecStep::Emit(seq![OpModel::Dec { dst: dn }], 2)
        } else {
            DecStep::Emit(
                seq![OpModel::Unknown {
                    offset: i as u64,
                    bytes: be16(w),
                    note: "coldfire word "@ + hex_alt(w as nat, 4) + " outside encoder subset"@,
                }],
                2,
            )
        }
    }
}

fn decode_coldfire_at(b: &[u8], i: usize) -> (r: Result<(Vec<Op>, usize), DecodeError>)
    requires
        i < b@.len(),
    ensures
        match r {
            Ok((ops, n)) => coldfire_step(b@, i as nat) == DecStep::Emit(ops_model(ops@), n as nat),
            Err(e) => coldfire_step(b@, i as nat) == DecStep::Fail(e@),
        },
{
    if b.len() - i < 2 {
        return Err(DecodeError::Truncated("coldfire", i as u64));
    }
    let w = be_half_exec(b, i);
    let dn = ((w >> 3u16) & 7u16) as u32;
    if w == 0x4E71 {
        Ok((one(Op::Nop), 2))
    } else if w == 0x4E75 {
        Ok((one(Op::Ret), 2))
    } else if w & 0xF100u16 == 0x7000 {
        let imm = (((w & 0xffu16) as u8) as i8) as i32;
        Ok((one(Op::MovImm { dst: VReg(((w >> 9u16) & 7u16) as u32), imm: imm as u32 }), 2))
    } else if w & 0xF83Fu16 == 0x203C {
        if b.len() - i < 6 {
            return Err(DecodeError::Truncated("coldfire", i as u64));
        }
        let imm = be_at_exec(b, i + 2);
        Ok((one(Op::MovImm { dst: VReg(((w >> 6u16) & 7u16) as u32), imm }), 6))
    } else if w & 0xF1FFu16 == 0x201F {
        Ok((one(Op::Pop { dst: VReg(((w >> 9u16) & 7u16) as u32) }), 2))
    } else if w & 0xFFF8u16 == 0x2F00 {
        Ok((one(Op::Push { src: VReg((w & 7u16) as u32) }), 2))
    } else if w & 0xFFC0u16 == 0x0680 || w & 0xFFC0u16 == 0x0480 {
        if b.len() - i < 6 {
            return Err(DecodeError::Truncated("coldfire", i as u64));
        }
        let imm = be_at_exec(b, i + 2);
        if w & 0xFFC0u16 == 0x0680 {
            Ok((one(Op::AddImm { dst: VReg(dn), imm }), 6))
        } else {
            Ok((one(Op::SubImm { dst: VReg(dn), imm }), 6))
        }
    } else if w & 0xFFC0u16 == 0x4280 {
        Ok((one(Op::Clear { dst: VReg(dn) }), 2))
    } else if w & 0xFFC0u16 == 0x5280 {
        Ok((one(Op::Inc { dst: VReg(dn) }), 2))
    } else if w & 0xFFC0u16 == 0x5380 {
        Ok((one(Op::Dec { dst: VReg(dn) }), 2))
    } else {
        let mut note = text("coldfire word ");
        push_hex_alt(&mut note, w as u64, 4);
        note.append(" outside encoder subset");
        Ok((one(Op::Unknown { offset: i as u64, bytes: be16_vec(w), note }), 2))
    }
}

// ---------------------------------------------------------------------------
// ARM (A32, little-endian words)
// ---------------------------------------------------------------------------

/// ARM decoding of one word.
pub open spec fn arm_op(w: u32, i: nat) -> OpModel {
    let rd = (w >> 12u32) & 0xfu32;
    let rn = (w >> 16u32) & 0xfu32;
    let imm = w & 0xffu32;
    let is_sub = w & 0xFFF00F00u32 == 0xE2400000;
    if w == 0xE320F000 {
        OpModel::Nop
    } else if w == 0xE12FFF1E {
        OpModel::Ret
    } else if w & 0xFFFF0F00u32 == 0xE3A00000 {
        OpModel::MovImm { dst: rd, imm }
    } else if w & 0xFFF00F00u32 == 0xE2800000 || is_sub {
        if rd != rn {
            gap(i, w, "arm add/sub with rn != rd"@)
        } else if is_sub {
            arith(rd, -(imm as int))
        } else {
            arith(rd, imm as int)
        }
    } else {
        gap(i, w, "arm word "@ + hex_alt(w as nat, 8) + " outside encoder subset"@)
    }
}

/// ARM decoding step.
pub open spec fn arm_step(b: Seq<u8>, i: nat) -> DecStep {
    if i + 4 > b.len() {
        DecStep::Fail(DecodeErrorModel::Truncated("arm"@, i as u64))
    } else {
        DecStep::Emit(seq![arm_op(le_at(b, i as int), i)], 4)
    }
}

fn arm_op_exec(w: u32, i: usize) -> (op: Op)
    ensures
        op@ == arm_op(w, i as nat),
{
    let rd = (w >> 12u32) & 0xfu32;
    let rn = (w >> 16u32) & 0xfu32;
    let imm = w & 0xffu32;
    assert(imm <= 0xff) by (bit_vector)
        requires
            imm == w & 0xffu32,
    ;
    let is_sub = w & 0xFFF00F00u32 == 0xE2400000;
    if w == 0xE320F000 {
        Op::Nop
    } else if w == 0xE12FFF1E {
        Op::Ret
    } else if w & 0xFFFF0F00u32 == 0xE3A00000 {
        Op::MovImm { dst: VReg(rd), imm }
    } else if w & 0xFFF00F00u32 == 0xE2800000 || is_sub {
        if rd != rn {
            gap_exec(i, w, text("arm add/sub with rn != rd"))
        } else if is_sub {
            arith_exec(rd, -(imm as i32))
        } else {
            arith_exec(rd, imm as i32)
        }
    } else {
        let mut note = text("arm word ");
        push_hex_alt(&mut note, w as u64, 8);
        note.append(" outside encoder subset");
        gap_exec(i, w, note)
    }
}

fn decode_arm_at(b: &[u8], i: usize) -> (r: Result<(Vec<Op>, usize), DecodeError>)
    requires
        i < b@.len(),
    ensures
        match r {
            Ok((ops, n)) => arm_step(b@, i as nat) == DecStep::Emit(ops_model(ops@), n as nat),
            Err(e) => arm_step(b@, i as nat) == DecStep::Fail(e@),
        },
{
    if b.len() - i < 4 {
        return Err(DecodeError::Truncated("arm", i as u64));
    }
    let w = le_at_exec(b, i);
    Ok((one(arm_op_exec(w, i)), 4))
}

// ---------------------------------------------------------------------------
// AArch64 (little-endian words; W registers)
// ---------------------------------------------------------------------------

/// AArch64 decoding of one word.
pub open spec fn aarch64_op(w: u32, i: nat) -> OpModel {
    let wd = w & 0x1fu32;
    let wn = (w >> 5u32) & 0x1fu32;
    let imm12 = (w >> 10u32) & 0xfffu32;
    let is_sub = w & 0xFFC00000u32 == 0x51000000;
    if w == 0xD503201F {
        OpModel::Nop
    } else if w == 0xD65F03C0 {
        OpModel::Ret
    } else if w & 0xFFFFFFE0u32 == 0x2A1F03E0 {
        OpModel::Clear { dst: wd }
    } else if w & 0xFFE00000u32 == 0x52800000 {
        OpModel::MovImm { dst: wd, imm: (w >> 5u32) & 0xffffu32 }
    } else if w & 0xFFC00000u32 == 0x11000000 || is_sub {
        if wd != wn {
            gap(i, w, "aarch64 add/sub with rn != rd"@)
        } else if is_sub {
            arith(wd, -(imm12 as int))
        } else {
            arith(wd, imm12 as int)
        }
    } else {
        gap(i, w, "aarch64 word "@ + hex_alt(w as nat, 8) + " outside encoder subset"@)
    }
}

/// AArch64 decoding step.
pub open spec fn aarch64_step(b: Seq<u8>, i: nat) -> DecStep {
    if i + 4 > b.len() {
        DecStep::Fail(DecodeErrorModel::Truncated("aarch64"@, i as u64))
    } else {
        DecStep::Emit(seq![aarch64_op(le_at(b, i as int), i)], 4)
    }
}

fn aarch64_op_exec(w: u32, i: usize) -> (op: Op)
    ensures
        op@ == aarch64_op(w, i as nat),
{
    let wd = w & 0x1fu32;
    let wn = (w >> 5u32) & 0x1fu32;
    let imm12 = (w >> 10u32) & 0xfffu32;
    assert(imm12 <= 0xfff) by (bit_vector)
        requires
            imm12 == (w >> 10u32) & 0xfffu32,
    ;
    let is_sub = w & 0xFFC00000u32 == 0x51000000;
    if w == 0xD503201F {
        Op::Nop
    } else if w == 0xD65F03C0 {
        Op::Ret
    } else if w & 0xFFFFFFE0u32 == 0x2A1F03E0 {
        Op::Clear { dst: VReg(wd) }
    } else if w & 0xFFE00000u32 == 0x52800000 {
        Op::MovImm { dst: VReg(wd), imm: (w >> 5u32) & 0xffffu32 }
    } else if w & 0xFFC00000u32 == 0x11000000 || is_sub {
        if wd != wn {
            gap_exec(i, w, text("aarch64 add/sub with rn != rd"))
        } else if is_sub {
            arith_exec(wd, -(imm12 as i32))
        } else {
            arith_exec(wd, imm12 as i32)
        }
    } else {
        let mut note = text("aarch64 word ");
        push_hex_alt(&mut note, w as u64, 8);
        note.append(" outside encoder subset");
        gap_exec(i, w, note)
    }
}

fn decode_aarch64_at(b: &[u8], i: usize) -> (r: Result<(Vec<Op>, usize), DecodeError>)
    requires
        i < b@.len(),
    ensures
        match r {
            Ok((ops, n)) => aarch64_step(b@, i as nat) == DecStep::Emit(ops_model(ops@), n as nat),
            Err(e) => aarch64_step(b@, i as nat) == DecStep::Fail(e@),
        },
{
    if b.len() - i < 4 {
        return Err(DecodeError::Truncated("aarch64", i as u64));
    }
    let w = le_at_exec(b, i);
    Ok((one(aarch64_op_exec(w, i)), 4))
}

// ---------------------------------------------------------------------------
// SPARC (big-endian words; %l0..%l7 ↔ VReg 0..7)
// ---------------------------------------------------------------------------

/// SPARC decoding of one word other than `nop` and `retl`.
pub open spec fn sparc_op(w: u32, i: nat) -> OpModel {
    let rd = (w >> 25u32) & 0x1fu32;
    let imm13 = w & 0x1fffu32;
    if w & 0xC1F7FFFFu32 == 0x80100000 {
        if 16 <= rd < 24 {
            OpModel::Clear { dst: (rd - 16) as u32 }
        } else {
            gap(i, w, "sparc clr rd outside %l0..%l7"@)
        }
    } else if w & 0xC1F7E000u32 == 0x80102000 {
        if !(16 <= rd < 24) {
            gap(i, w, "sparc mov rd outside %l0..%l7"@)
        } else if imm13 & 0x1000u32 != 0 {
            OpModel::MovImm { dst: (rd - 16) as u32, imm: (imm13 - 0x2000) as u32 }
        } else {
            OpModel::MovImm { dst: (rd - 16) as u32, imm: imm13 }
        }
    } else {
        gap(i, w, "sparc word "@ + hex_alt(w as nat, 8) + " outside encoder subset"@)
    }
}

/// SPARC decoding step.
pub open spec fn sparc_step(b: Seq<u8>, i: nat) -> DecStep {
    if i + 4 > b.len() {
        DecStep::Fail(DecodeErrorModel::Truncated("sparc"@, i as u64))
    } else {
        let w = be_at(b, i as int);
        if w == 0x01000000 {
            DecStep::Emit(seq![OpModel::Nop], 4)
        } else if w == 0x81C3E008 {
            if i + 8 <= b.len() {
                let d = be_at(b, i + 4int);
                DecStep::Emit(
                    seq![OpModel::Ret] + delay_gap(d != 0x01000000, i + 4, be32(d), "retl delay slot is not a nop"@),
                    8,
                )
            } else {
                DecStep::Emit(seq![OpModel::Ret], 4)
            }
        } else {
            DecStep::Emit(seq![sparc_op(w, i)], 4)
        }
    }
}

fn sparc_op_exec(w: u32, i: usize) -> (op: Op)
    ensures
        op@ == sparc_op(w, i as nat),
{
    let rd = (w >> 25u32) & 0x1fu32;
    let imm13 = w & 0x1fffu32;
    assert(imm13 <= 0x1fff) by (bit_vector)
        requires
            imm13 == w & 0x1fffu32,
    ;
    if w & 0xC1F7FFFFu32 == 0x80100000 {
        if 16 <= rd && rd < 24 {
            Op::Clear { dst: VReg(rd - 16) }
        } else {
            gap_exec(i, w, text("sparc clr rd outside %l0..%l7"))
        }
    } else if w & 0xC1F7E000u32 == 0x80102000 {
        if !(16 <= rd && rd < 24) {
            gap_exec(i, w, text("sparc mov rd outside %l0..%l7"))
        } else if imm13 & 0x1000u32 != 0 {
            Op::MovImm { dst: VReg(rd - 16), imm: ((imm13 as i32) - 0x2000i32) as u32 }
        } else {
            Op::MovImm { dst: VReg(rd - 16), imm: imm13 }
        }
    } else {
        let mut note = text("sparc word ");
        push_hex_alt(&mut note, w as u64, 8);
        note.append(" outside encoder subset");
        gap_exec(i, w, note)
    }
}

fn decode_sparc_at(b: &[u8], i: usize) -> (r: Result<(Vec<Op>, usize), DecodeError>)
    requires
        i < b@.len(),
    ensures
        match r {
            Ok((ops, n)) => sparc_step(b@, i as nat) == DecStep::Emit(ops_model(ops@), n as nat),
            Err(e) => sparc_step(b@, i as nat) == DecStep::Fail(e@),
        },
{
    if b.len() - i < 4 {
        return Err(DecodeError::Truncated("sparc", i as u64));
    }
    let w = be_at_exec(b, i);
    if w == 0x01000000 {
        Ok((one(Op::Nop), 4))
    } else if w == 0x81C3E008 {
        if b.len() - i >= 8 {
            let d = be_at_exec(b, i + 4);
            Ok((ret_with_delay(d != 0x01000000, i + 4, be32_vec(d), "retl delay slot is not a nop"), 8))
        } else {
            Ok((one(Op::Ret), 4))
        }
    } else {
        Ok((one(sparc_op_exec(w, i)), 4))
    }
}

// ---------------------------------------------------------------------------
// x86 (32-bit register subset, variable length)
// ---------------------------------------------------------------------------

/// x86 decoding of `83 /0` and `83 /5` with the ModRM byte `modrm` and the
/// immediate byte `ib`.
pub open spec fn x86_83_op(modrm: u8, ib: u8, i: nat, word: u32) -> OpModel {
    let reg = (modrm >> 3u8) & 7u8;
    let rm = (modrm & 7u8) as u32;
    let imm = (ib as i8) as int;
    if modrm >> 6u8 != 3 {
        gap(i, word, "x86 83 with mod != 11"@)
    } else if reg == 0 {
        arith(rm, imm)
    } else if reg == 5 {
        arith(rm, -imm)
    } else {
        gap(i, word, "x86 83 reg="@ + dec(reg as nat))
    }
}

/// x86 decoding step.
pub open spec fn x86_step(b: Seq<u8>, i: nat) -> DecStep {
    let x = b[i as int];
    if x == 0x90 {
        DecStep::Emit(seq![OpModel::Nop], 1)
    } else if x == 0xC3 {
        DecStep::Emit(seq![OpModel::Ret], 1)
    } else if 0xB8 <= x <= 0xBF {
        if i + 5 > b.len() {
            DecStep::Fail(DecodeErrorModel::Truncated("x86 mov"@, i as u64))
        } else {
            DecStep::Emit(seq![OpModel::MovImm { dst: (x & 7u8) as u32, imm: le_at(b, i + 1int) }], 5)
        }
    } else if x == 0x05 {
        if i + 5 > b.len() {
            DecStep::Fail(DecodeErrorModel::Truncated("x86 add eax"@, i as u64))
        } else {
            DecStep::Emit(seq![OpModel::AddImm { dst: 0, imm: le_at(b, i + 1int) }], 5)
        }
    } else if x == 0x2D {
        if i + 5 > b.len() {
            DecStep::Fail(DecodeErrorModel::Truncated("x86 sub eax"@, i as u64))
        } else {
            DecStep::Emit(seq![OpModel::SubImm { dst: 0, imm: le_at(b, i + 1int) }], 5)
        }
    } else if x == 0x83 {
        if i + 3 > b.len() {
            DecStep::Fail(DecodeErrorModel::Truncated("x86 83"@, i as u64))
        } else {
            DecStep::Emit(seq![x86_83_op(b[i + 1int], b[i + 2int], i, w32(b, i as int))], 3)
        }
    } else if x == 0x31 {
        if i + 2 > b.len() {
            DecStep::Fail(DecodeErrorModel::Truncated("x86 xor"@, i as u64))
        } else {
            let modrm = b[i + 1int];
            if modrm >> 6u8 == 3 && (modrm >> 3u8) & 7u8 == modrm & 7u8 {
                DecStep::Emit(seq![OpModel::Clear { dst: (modrm & 7u8) as u32 }], 2)
            } else {
                DecStep::Emit(seq![gap(i, w32(b, i as int), "x86 xor not reg==reg"@)], 2)
            }
        }
    } else if 0x40 <= x <= 0x47 {
        DecStep::Emit(seq![OpModel::Inc { dst: (x & 7u8) as u32 }], 1)
    } else if 0x48 <= x <= 0x4F {
        DecStep::Emit(seq![OpModel::Dec { dst: (x & 7u8) as u32 }], 1)
    } else if 0x50 <= x <= 0x57 {
        DecStep::Emit(seq![OpModel::Push { src: (x & 7u8) as u32 }], 1)
    } else if 0x58 <= x <= 0x5F {
        DecStep::Emit(seq![OpModel::Pop { dst: (x & 7u8) as u32 }], 1)
    } else {
        DecStep::Emit(
            seq![OpModel::Unknown {
                offset: i as u64,
                bytes: seq![x],
                note: "x86 byte "@ + hex_alt(x as nat, 2) + " outside encoder subset"@,
            }],
            1,
        )
    }
}

fn x86_83_exec(modrm: u8, ib: u8, i: usize, word: u32) -> (op: Op)
    ensures
        op@ == x86_83_op(modrm, ib, i as nat, word),
{
    let reg = (modrm >> 3u8) & 7u8;
    let rm = (modrm & 7u8) as u32;
    let imm = (ib as i8) as i32;
    if modrm >> 6u8 != 3 {
        gap_exec(i, word, text("x86 83 with mod != 11"))
    } else if reg == 0 {
        arith_exec(rm, imm)
    } else if reg == 5 {
        arith_exec(rm, -imm)
    } else {
        let mut note = text("x86 83 reg=");
        push_dec(&mut note, reg as u64);
        gap_exec(i, word, note)
    }
}

fn decode_x86_at(b: &[u8], i: usize) -> (r: Result<(Vec<Op>, usize), DecodeError>)
    requires
        i < b@.len(),
    ensures
        match r {
            Ok((ops, n)) => x86_step(b@, i as nat) == DecStep::Emit(ops_model(ops@), n as nat),
            Err(e) => x86_step(b@, i as nat) == DecStep::Fail(e@),
        },
{
    let x = b[i];
    let left = b.len() - i;
    if x == 0x90 {
        Ok((one(Op::Nop), 1))
    } else if x == 0xC3 {
        Ok((one(Op::Ret), 1))
    } else if 0xB8 <= x && x <= 0xBF {
        if left < 5 {
            return Err(DecodeError::Truncated("x86 mov", i as u64));
        }
        let imm = le_at_exec(b, i + 1);
        Ok((one(Op::MovImm { dst: VReg((x & 7u8) as u32), imm }), 5))
    } else if x == 0x05 {
        if left < 5 {
            return Err(DecodeError::Truncated("x86 add eax", i as u64));
        }
        let imm = le_at_exec(b, i + 1);
        Ok((one(Op::AddImm { dst: VReg(0), imm }), 5))
    } else if x == 0x2D {
        if left < 5 {
            return Err(DecodeError::Truncated("x86 sub eax", i as u64));
        }
        let imm = le_at_exec(b, i + 1);
        Ok((one(Op::SubImm { dst: VReg(0), imm }), 5))
    } else if x == 0x83 {
        if left < 3 {
            return Err(DecodeError::Truncated("x86 83", i as u64));
        }
        let word = w32_exec(b, i);
        Ok((one(x86_83_exec(b[i + 1], b[i + 2], i, word)), 3))
    } else if x == 0x31 {
        if left < 2 {
            return Err(DecodeError::Truncated("x86 xor", i as u64));
        }
        let modrm = b[i + 1];
        if modrm >> 6u8 == 3 && (modrm >> 3u8) & 7u8 == modrm & 7u8 {
            Ok((one(Op::Clear { dst: VReg((modrm & 7u8) as u32) }), 2))
        } else {
            let word = w32_exec(b, i);
            Ok((one(gap_exec(i, word, text("x86 xor not reg==reg"))), 2))
        }
    } else if 0x40 <= x && x <= 0x47 {
        Ok((one(Op::Inc { dst: VReg((x & 7u8) as u32) }), 1))
    } else if 0x48 <= x && x <= 0x4F {
        Ok((one(Op::Dec { dst: VReg((x & 7u8) as u32) }), 1))
    } else if 0x50 <= x && x <= 0x57 {
        Ok((one(Op::Push { src: VReg((x & 7u8) as u32) }), 1))
    } else if 0x58 <= x && x <= 0x5F {
        Ok((one(Op::Pop { dst: VReg((x & 7u8) as u32) }), 1))
    } else {
        let mut note = text("x86 byte ");
        push_hex_alt(&mut note, x as u64, 2);
        note.append(" outside encoder subset");
        let bytes = vec![x];
        assert(bytes@ =~= seq![x]);
        Ok((one(Op::Unknown { offset: i as u64, bytes, note }), 1))
    }
}

// ---------------------------------------------------------------------------
// Laws of the decoders
// ---------------------------------------------------------------------------

/// Word width of the fixed-width decoders: four bytes, two for SuperH; zero
/// for the variable-length (x86, ColdFire) and encode-only targets.
pub open spec fn fixed_width(isa: TargetIsa) -> nat {
    match isa {
        TargetIsa::Mips | TargetIsa::Ppc | TargetIsa::Alpha | TargetIsa::PaRisc | TargetIsa::Arm
        | TargetIsa::AArch64 | TargetIsa::Sparc => 4,
        TargetIsa::SuperH(_) => 2,
        _ => 0,
    }
}

proof fn lemma_fixed_step(isa: TargetIsa, b: Seq<u8>, i: nat)
    requires
        fixed_width(isa) > 0,
        i < b.len(),
    ensures
        match dec_step(isa, b, i) {
            DecStep::Fail(e) => i + fixed_width(isa) > b.len() && e == DecodeErrorModel::Truncated(
                e->Truncated_0,
                i as u64,
            ),
            DecStep::Emit(ops, n) => {
                &&& i + fixed_width(isa) <= b.len()
                &&& n == fixed_width(isa) || n == 2 * fixed_width(isa)
                &&& i + n <= b.len()
                &&& ops.len() <= n / fixed_width(isa)
            },
        },
{
    reveal(dec_step);
}

proof fn lemma_fixed_from(isa: TargetIsa, b: Seq<u8>, i: nat)
    requires
        fixed_width(isa) > 0,
        i <= b.len(),
        i % fixed_width(isa) == 0,
        b.len() <= u64::MAX,
    ensures
        (b.len() - i) % (fixed_width(isa) as int) != 0 ==> (decode_from(isa, b, i) matches Err(
            DecodeErrorModel::Truncated(_, k),
        ) && k == b.len() - b.len() % fixed_width(isa)),
        (b.len() - i) % (fixed_width(isa) as int) == 0 ==> (decode_from(isa, b, i) matches Ok(ops)
            && ops.len() <= (b.len() - i) / (fixed_width(isa) as int)),
    decreases b.len() - i,
{
    let w = fixed_width(isa);
    if i < b.len() {
        lemma_step_advances(isa, b, i);
        lemma_fixed_step(isa, b, i);
        match dec_step(isa, b, i) {
            DecStep::Fail(e) => {
                assert(0 < b.len() - i < w);
                if w == 2 {
                    assert(b.len() % 2 == b.len() - i);
                } else {
                    assert(b.len() % 4 == b.len() - i);
                }
            },
            DecStep::Emit(ops, n) => {
                lemma_fixed_from(isa, b, i + n);
                if w == 2 {
                    assert((b.len() - i) % 2 == (b.len() - (i + n)) % 2);
                    assert((b.len() - (i + n)) % 2 == 0 ==> (b.len() - (i + n)) / 2 + n / 2 == (
                    b.len() - i) / 2);
                } else {
                    assert((b.len() - i) % 4 == (b.len() - (i + n)) % 4);
                    assert((b.len() - (i + n)) % 4 == 0 ==> (b.len() - (i + n)) / 4 + n / 4 == (
                    b.len() - i) / 4);
                }
            },
        }
    }
}

/// On the fixed-width targets (four-byte words; two-byte SuperH), decoding
/// fails exactly when the length is not a multiple of the word width, with
/// `Truncated` at the offset of the last, partial word; otherwise it succeeds
/// with at most one operation per word. It never reports a missing decoder.
pub proof fn lemma_fixed_width_truncation(b: Seq<u8>, isa: TargetIsa)
    requires
        fixed_width(isa) > 0,
        b.len() <= u64::MAX,
    ensures
        (decode_spec(b, isa) matches Err(DecodeErrorModel::Truncated(_, k)) && k == b.len() - b.len()
            % fixed_width(isa)) <==> b.len() % fixed_width(isa) != 0,
        decode_spec(b, isa) is Ok <==> b.len() % fixed_width(isa) == 0,
        decode_spec(b, isa) matches Ok(ops) ==> ops.len() <= b.len() / fixed_width(isa),
        !(decode_spec(b, isa) matches Err(DecodeErrorModel::NoDecoder(_))),
{
    lemma_fixed_from(isa, b, 0);
}

proof fn lemma_step_fails_truncated(isa: TargetIsa, b: Seq<u8>, i: nat)
    requires
        decodable(isa),
        i < b.len(),
    ensures
        dec_step(isa, b, i) matches DecStep::Fail(e) ==> e is Truncated,
{
    reveal(dec_step);
}

proof fn lemma_from_fails_truncated(isa: TargetIsa, b: Seq<u8>, i: nat)
    requires
        decodable(isa),
    ensures
        decode_from(isa, b, i) matches Err(e) ==> e is Truncated,
    decreases b.len() - i,
{
    if i < b.len() {
        lemma_step_advances(isa, b, i);
        lemma_step_fails_truncated(isa, b, i);
        match dec_step(isa, b, i) {
            DecStep::Emit(ops, n) => lemma_from_fails_truncated(isa, b, i + n),
            DecStep::Fail(_) => {},
        }
    }
}

/// Decoding reports a missing decoder exactly on the targets without one,
/// whatever the bytes; on the others every failure is a truncation.
pub proof fn lemma_no_decoder_iff(b: Seq<u8>, isa: TargetIsa)
    ensures
        (decode_spec(b, isa) matches Err(DecodeErrorModel::NoDecoder(_))) <==> !decodable(isa),
        decodable(isa) ==> (decode_spec(b, isa) matches Err(e) ==> e is Truncated),
{
    if decodable(isa) {
        lemma_from_fails_truncated(isa, b, 0);
    }
}

} // verus!
