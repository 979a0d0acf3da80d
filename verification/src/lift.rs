//! Lifting of 32-bit x86 machine code into SIR: the instructions of the lifted
//! subset become operations; any other byte becomes an `Unknown` gap.

use vstd::prelude::*;

use crate::sir::{BasicBlock, Function, Module, Op, OpModel, VReg, ops_model, gap_count, count_op_gaps};
use crate::text::{hex_alt, push_hex_alt, text};
use crate::decode::le_at;

verus! {

/// Why a byte stream could not be lifted.
#[derive(Debug, Clone, PartialEq, Eq, Structural)]
pub enum LiftError {
    /// No bytes to lift.
    Empty,
    /// The stream ends inside an instruction starting at `offset`.
    Truncated { offset: u64 },
}

/// Text of a lift error.
pub open spec fn lift_error_text(e: LiftError) -> Seq<char> {
    match e {
        LiftError::Empty => "empty input: nothing to lift"@,
        LiftError::Truncated { offset } => "truncated instruction at "@ + hex_alt(offset as nat, 0),
    }
}

impl LiftError {
    /// Human-readable message.
    pub fn message(&self) -> (s: String)
        ensures
            s@ == lift_error_text(*self),
    {
        let mut s = String::new();
        match self {
            LiftError::Empty => s.append("empty input: nothing to lift"),
            LiftError::Truncated { offset } => {
                s.append("truncated instruction at ");
                push_hex_alt(&mut s, *offset, 0);
            },
        }
        s
    }
}

/// One lifting step: the operation at offset `i` and its length, or an error.
pub enum LiftStep {
    Emit(OpModel, nat),
    Fail(LiftError),
}

/// `vma + offset + len + rel`, wrapping at 64 bits: the target of a relative
/// branch of length `len` at `offset`.
pub open spec fn branch_target(vma: u64, offset: nat, len: nat, rel: int) -> u64 {
    ((vma + offset + len + rel) % 0x1_0000_0000_0000_0000) as u64
}

/// A gap of the bytes `b[i..i + n)`.
pub open spec fn lift_gap(b: Seq<u8>, i: nat, n: nat, note: Seq<char>) -> OpModel {
    OpModel::Unknown { offset: i as u64, bytes: b.subrange(i as int, (i + n) as int), note }
}

/// The lifting step at offset `i < b.len()`.
pub open spec fn lift_step(b: Seq<u8>, i: nat, vma: u64) -> LiftStep {
    let x = b[i as int];
    let trunc = LiftStep::Fail(LiftError::Truncated { offset: i as u64 });
    if x == 0x90 {
        LiftStep::Emit(OpModel::Nop, 1)
    } else if x == 0xC3 {
        LiftStep::Emit(OpModel::Ret, 1)
    } else if 0xB8 <= x <= 0xBF || x == 0x05 || x == 0x2D || x == 0xE8 || x == 0xE9 {
        if i + 5 > b.len() {
            trunc
        } else {
            let imm = le_at(b, i + 1int);
            if x == 0x05 {
                LiftStep::Emit(OpModel::AddImm { dst: 0, imm }, 5)
            } else if x == 0x2D {
                LiftStep::Emit(OpModel::SubImm { dst: 0, imm }, 5)
            } else if x == 0xE8 {
                LiftStep::Emit(
                    OpModel::CallRel {
                        rel: imm as i32,
                        target: Some(branch_target(vma, i, 5, (imm as i32) as int)),
                        symbol: None,
                    },
                    5,
                )
            } else if x == 0xE9 {
                LiftStep::Emit(
                    OpModel::JmpRel {
                        rel: imm as i32,
                        target: Some(branch_target(vma, i, 5, (imm as i32) as int)),
                        symbol: None,
                    },
                    5,
                )
            } else {
                LiftStep::Emit(OpModel::MovImm { dst: (x & 7u8) as u32, imm }, 5)
            }
        }
    } else if x == 0x83 {
        if i + 3 > b.len() {
            trunc
        } else {
            let modrm = b[i + 1int];
            let reg = (modrm >> 3u8) & 7u8;
            let rm = (modrm & 7u8) as u32;
            let imm = (b[i + 2int] as i8) as u32;
            if modrm >> 6u8 == 3 && reg == 0 {
                LiftStep::Emit(OpModel::AddImm { dst: rm, imm }, 3)
            } else if modrm >> 6u8 == 3 && reg == 5 {
                LiftStep::Emit(OpModel::SubImm { dst: rm, imm }, 3)
            } else {
                LiftStep::Emit(lift_gap(b, i, 3, "x86 83 form outside the lifted subset"@), 3)
            }
        }
    } else if x == 0x31 {
        if i + 2 > b.len() {
            trunc
        } else {
            let modrm = b[i + 1int];
            if modrm >> 6u8 == 3 && (modrm >> 3u8) & 7u8 == modrm & 7u8 {
                LiftStep::Emit(OpModel::Clear { dst: (modrm & 7u8) as u32 }, 2)
            } else {
                LiftStep::Emit(lift_gap(b, i, 2, "x86 xor form outside the lifted subset"@), 2)
            }
        }
    } else if x == 0xEB {
        if i + 2 > b.len() {
            trunc
        } else {
            let rel = (b[i + 1int] as i8) as i32;
            LiftStep::Emit(
                OpModel::JmpRel {
                    rel,
                    target: Some(branch_target(vma, i, 2, rel as int)),
                    symbol: None,
                },
                2,
            )
        }
    } else if 0x40 <= x <= 0x47 {
        LiftStep::Emit(OpModel::Inc { dst: (x & 7u8) as u32 }, 1)
    } else if 0x48 <= x <= 0x4F {
        LiftStep::Emit(OpModel::Dec { dst: (x & 7u8) as u32 }, 1)
    } else if 0x50 <= x <= 0x57 {
        LiftStep::Emit(OpModel::Push { src: (x & 7u8) as u32 }, 1)
    } else if 0x58 <= x <= 0x5F {
        LiftStep::Emit(OpModel::Pop { dst: (x & 7u8) as u32 }, 1)
    } else {
        LiftStep::Emit(
            lift_gap(b, i, 1, "x86 byte "@ + hex_alt(x as nat, 2) + " outside the lifted subset"@),
            1,
        )
    }
}

pub proof fn lemma_lift_advances(b: Seq<u8>, i: nat, vma: u64)
    requires
        i < b.len(),
    ensures
        lift_step(b, i, vma) matches LiftStep::Emit(_, n) ==> 0 < n && i + n <= b.len(),
{
}

/// The operations lifted from offset `i` to the end of `b`.
pub open spec fn lift_from(b: Seq<u8>, i: nat, vma: u64) -> Result<Seq<OpModel>, LiftError>
    decreases b.len() - i,
{
    if i < b.len() {
        proof {
            lemma_lift_advances(b, i, vma);
        }
        match lift_step(b, i, vma) {
            LiftStep::Fail(e) => Err(e),
            LiftStep::Emit(op, n) => match lift_from(b, i + n, vma) {
                Ok(rest) => Ok(seq![op] + rest),
                Err(e) => Err(e),
            },
        }
    } else {
        Ok(Seq::empty())
    }
}

/// What [`lift_x86_32_at`] lifts from `b` at address `vma`.
pub open spec fn lift_spec(b: Seq<u8>, vma: u64) -> Result<Seq<OpModel>, LiftError> {
    if b.len() == 0 {
        Err(LiftError::Empty)
    } else {
        lift_from(b, 0, vma)
    }
}

/// The module [`lift_x86_32_at`] builds around the lifted operations `ops`.
pub open spec fn lifted_module(m: Module, name: Seq<char>, ops: Seq<OpModel>) -> bool {
    &&& m.name@ == name
    &&& m.source_isa@ == "x86_32"@
    &&& m.functions.len() == 1
    &&& m.functions@[0].name@ == name
    &&& m.functions@[0].blocks.len() == 1
    &&& m.functions@[0].blocks@[0].label@ == "entry"@
    &&& ops_model(m.functions@[0].blocks@[0].ops@) == ops
    &&& m.lift_gaps == gap_count(ops)
    &&& m.source is None
    &&& m.text_vma is None
}

fn bytes_at(b: &[u8], i: usize, n: usize) -> (v: Vec<u8>)
    requires
        i + n <= b@.len(),
    ensures
        v@ == b@.subrange(i as int, i + n),
{
    let len = b.len();
    assert(i + n <= len);
    let mut v: Vec<u8> = Vec::new();
    let mut k: usize = 0;
    while k < n
        invariant
            k <= n,
            i + n <= b@.len(),
            len == b@.len(),
            v@ == b@.subrange(i as int, i + k),
        decreases n - k,
    {
        v.push(b[i + k]);
        k = k + 1;
        assert(v@ =~= b@.subrange(i as int, i + k));
    }
    v
}

fn le_word_at(b: &[u8], i: usize) -> (w: u32)
    requires
        i + 4 <= b@.len(),
    ensures
        w == le_at(b@, i as int),
{
    let b0 = b[i];
    let b1 = b[i + 1];
    let b2 = b[i + 2];
    let b3 = b[i + 3];
    ((b3 as u32) << 24u32) | ((b2 as u32) << 16u32) | ((b1 as u32) << 8u32) | (b0 as u32)
}

fn target_of(vma: u64, offset: usize, len: usize, rel: i32) -> (t: u64)
    requires
        len <= 5,
    ensures
        t == branch_target(vma, offset as nat, len as nat, rel as int),
{
    let base = vma.wrapping_add(offset as u64).wrapping_add(len as u64);
    let t = if rel >= 0 {
        base.wrapping_add(rel as u64)
    } else {
        base.wrapping_sub((-(rel as i64)) as u64)
    };
    proof {
        let m = 0x1_0000_0000_0000_0000int;
        let s1 = vstd::wrapping::u64_specs::wrapping_add(vma, offset as u64);
        assert(s1 as int == (vma + offset) % m);
        assert(base as int == (vma + offset + len) % m) by {
            vstd::arithmetic::div_mod::lemma_add_mod_noop((vma + offset) as int, len as int, m);
            vstd::arithmetic::div_mod::lemma_mod_twice((vma + offset + len) as int, m);
        }
        assert(t as int == (base + rel) % m) by {
            if rel < 0 {
                assert(t as int == (base - (-(rel as int))) % m);
            }
        }
        assert(t as int == (vma + offset + len + rel) % m) by {
            vstd::arithmetic::div_mod::lemma_add_mod_noop(base as int, rel as int, m);
            vstd::arithmetic::div_mod::lemma_add_mod_noop((vma + offset + len) as int, rel as int, m);
            vstd::arithmetic::div_mod::lemma_mod_twice((vma + offset + len) as int, m);
        }
    }
    t
}

fn lift_at(b: &[u8], i: usize, vma: u64) -> (r: Result<(Op, usize), LiftError>)
    requires
        i < b@.len(),
    ensures
        match r {
            Ok((op, n)) => lift_step(b@, i as nat, vma) == LiftStep::Emit(op@, n as nat),
            Err(e) => lift_step(b@, i as nat, vma) == LiftStep::Fail(e),
        },
{
    let x = b[i];
    let left = b.len() - i;
    if x == 0x90 {
        Ok((Op::Nop, 1))
    } else if x == 0xC3 {
        Ok((Op::Ret, 1))
    } else if (0xB8 <= x && x <= 0xBF) || x == 0x05 || x == 0x2D || x == 0xE8 || x == 0xE9 {
        if left < 5 {
            return Err(LiftError::Truncated { offset: i as u64 });
        }
        let imm = le_word_at(b, i + 1);
        if x == 0x05 {
            Ok((Op::AddImm { dst: VReg(0), imm }, 5))
        } else if x == 0x2D {
            Ok((Op::SubImm { dst: VReg(0), imm }, 5))
        } else if x == 0xE8 {
            let rel = imm as i32;
            Ok((Op::CallRel { rel, target: Some(target_of(vma, i, 5, rel)), symbol: None }, 5))
        } else if x == 0xE9 {
            let rel = imm as i32;
            Ok((Op::JmpRel { rel, target: Some(target_of(vma, i, 5, rel)), symbol: None }, 5))
        } else {
            Ok((Op::MovImm { dst: VReg((x & 7u8) as u32), imm }, 5))
        }
    } else if x == 0x83 {
        if left < 3 {
            return Err(LiftError::Truncated { offset: i as u64 });
        }
        let modrm = b[i + 1];
        let reg = (modrm >> 3u8) & 7u8;
        let rm = (modrm & 7u8) as u32;
        let imm = (b[i + 2] as i8) as u32;
        if modrm >> 6u8 == 3 && reg == 0 {
            Ok((Op::AddImm { dst: VReg(rm), imm }, 3))
        } else if modrm >> 6u8 == 3 && reg == 5 {
            Ok((Op::SubImm { dst: VReg(rm), imm }, 3))
        } else {
            let note = text("x86 83 form outside the lifted subset");
            Ok((Op::Unknown { offset: i as u64, bytes: bytes_at(b, i, 3), note }, 3))
        }
    } else if x == 0x31 {
        if left < 2 {
            return Err(LiftError::Truncated { offset: i as u64 });
        }
        let modrm = b[i + 1];
        if modrm >> 6u8 == 3 && (modrm >> 3u8) & 7u8 == modrm & 7u8 {
            Ok((Op::Clear { dst: VReg((modrm & 7u8) as u32) }, 2))
        } else {
            let note = text("x86 xor form outside the lifted subset");
            Ok((Op::Unknown { offset: i as u64, bytes: bytes_at(b, i, 2), note }, 2))
        }
    } else if x == 0xEB {
        if left < 2 {
            return Err(LiftError::Truncated { offset: i as u64 });
        }
        let rel = (b[i + 1] as i8) as i32;
        Ok((Op::JmpRel { rel, target: Some(target_of(vma, i, 2, rel)), symbol: None }, 2))
    } else if 0x40 <= x && x <= 0x47 {
        Ok((Op::Inc { dst: VReg((x & 7u8) as u32) }, 1))
    } else if 0x48 <= x && x <= 0x4F {
        Ok((Op::Dec { dst: VReg((x & 7u8) as u32) }, 1))
    } else if 0x50 <= x && x <= 0x57 {
        Ok((Op::Push { src: VReg((x & 7u8) as u32) }, 1))
    } else if 0x58 <= x && x <= 0x5F {
        Ok((Op::Pop { dst: VReg((x & 7u8) as u32) }, 1))
    } else {
        let mut note = text("x86 byte ");
        push_hex_alt(&mut note, x as u64, 2);
        note.append(" outside the lifted subset");
        Ok((Op::Unknown { offset: i as u64, bytes: bytes_at(b, i, 1), note }, 1))
    }
}

proof fn lemma_ops_model_push(a: Seq<Op>, x: Op)
    ensures
        ops_model(a.push(x)) == ops_model(a).push(x@),
{
    assert(ops_model(a.push(x)) =~= ops_model(a).push(x@));
}

/// Lifts 32-bit x86 code loaded at address `vma` into a module with one
/// function `name` whose entry block holds the lifted operations.
pub fn lift_x86_32_at(bytes: &[u8], name: &str, vma: u64) -> (r: Result<Module, LiftError>)
    ensures
        match r {
            Ok(m) => lift_spec(bytes@, vma) matches Ok(ops) && lifted_module(m, name@, ops),
            Err(e) => lift_spec(bytes@, vma) == Err::<Seq<OpModel>, LiftError>(e),
        },
{
    if bytes.len() == 0 {
        return Err(LiftError::Empty);
    }
    let mut ops: Vec<Op> = Vec::new();
    let mut i: usize = 0;
    while i < bytes.len()
        invariant
            i <= bytes@.len(),
            bytes@.len() > 0,
            lift_from(bytes@, 0, vma) == (match lift_from(bytes@, i as nat, vma) {
                Ok(rest) => Ok(ops_model(ops@) + rest),
                Err(e) => Err::<Seq<OpModel>, LiftError>(e),
            }),
        decreases bytes@.len() - i,
    {
        proof {
            lemma_lift_advances(bytes@, i as nat, vma);
        }
        match lift_at(bytes, i, vma) {
            Err(e) => {
                return Err(e);
            },
            Ok((op, n)) => {
                let ghost before = ops@;
                ops.push(op);
                proof {
                    lemma_ops_model_push(before, op);
                    match lift_from(bytes@, (i + n) as nat, vma) {
                        Ok(rest) => {
                            assert(ops_model(before) + (seq![op@] + rest) =~= ops_model(ops@) + rest);
                        },
                        Err(_) => {},
                    }
                }
                i = i + n;
            },
        }
    }
    assert(ops_model(ops@) + Seq::<OpModel>::empty() =~= ops_model(ops@));
    let gaps = count_op_gaps(&ops);
    let block = BasicBlock { label: text("entry"), ops };
    let mut blocks: Vec<BasicBlock> = Vec::new();
    blocks.push(block);
    let mut functions: Vec<Function> = Vec::new();
    functions.push(Function { name: text(name), blocks });
    Ok(
        Module {
            name: text(name),
            source_isa: text("x86_32"),
            functions,
            lift_gaps: gaps,
            source: None,
            text_vma: None,
        },
    )
}

/// Lifts 32-bit x86 code loaded at address 0.
pub fn lift_x86_32(bytes: &[u8], name: &str) -> (r: Result<Module, LiftError>)
    ensures
        match r {
            Ok(m) => lift_spec(bytes@, 0) matches Ok(ops) && lifted_module(m, name@, ops),
            Err(e) => lift_spec(bytes@, 0) == Err::<Seq<OpModel>, LiftError>(e),
        },
{
    lift_x86_32_at(bytes, name, 0)
}

} // verus!
