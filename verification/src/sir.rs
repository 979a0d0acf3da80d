//! Static Intermediate Representation (SIR): virtual registers, operations,
//! blocks, functions and modules, with their mathematical models.

use vstd::prelude::*;
use crate::text::{dec, sdec, push_dec, push_sdec, str_debug, str_debug_text};

verus! {

/// A virtual register.
#[derive(Clone, Copy, Debug, PartialEq, Eq, Hash, Structural)]
pub struct VReg(pub u32);

/// One SIR operation.
#[derive(Debug, Clone, PartialEq, Eq)]
pub enum Op {
    Nop,
    Ret,
    /// `dst := imm` (32-bit).
    MovImm { dst: VReg, imm: u32 },
    /// `dst := dst + imm`
    AddImm { dst: VReg, imm: u32 },
    /// `dst := dst - imm`
    SubImm { dst: VReg, imm: u32 },
    /// `dst := 0`
    Clear { dst: VReg },
    Inc { dst: VReg },
    Dec { dst: VReg },
    Push { src: VReg },
    Pop { dst: VReg },
    /// Relative call; optional resolved symbol name.
    CallRel { rel: i32, target: Option<u64>, symbol: Option<String> },
    /// Relative jump; optional resolved symbol name.
    JmpRel { rel: i32, target: Option<u64>, symbol: Option<String> },
    /// `dst := mem[base + offset]` (`width` bytes, target byte order).
    LdMem { dst: VReg, base: VReg, offset: i32, width: u8 },
    /// `mem[base + offset] := src` (`width` bytes, target byte order).
    StMem { src: VReg, base: VReg, offset: i32, width: u8 },
    /// Unliftable / unsupported encoding: a gap, never a silent guess.
    Unknown { offset: u64, bytes: Vec<u8>, note: String },
}

/// The mathematical model of an [`Op`]: registers as numbers, text as character
/// sequences, raw bytes as byte sequences.
pub enum OpModel {
    Nop,
    Ret,
    MovImm { dst: u32, imm: u32 },
    AddImm { dst: u32, imm: u32 },
    SubImm { dst: u32, imm: u32 },
    Clear { dst: u32 },
    Inc { dst: u32 },
    Dec { dst: u32 },
    Push { src: u32 },
    Pop { dst: u32 },
    CallRel { rel: i32, target: Option<u64>, symbol: Option<Seq<char>> },
    JmpRel { rel: i32, target: Option<u64>, symbol: Option<Seq<char>> },
    LdMem { dst: u32, base: u32, offset: i32, width: u8 },
    StMem { src: u32, base: u32, offset: i32, width: u8 },
    Unknown { offset: u64, bytes: Seq<u8>, note: Seq<char> },
}

pub open spec fn opt_text(s: Option<String>) -> Option<Seq<char>> {
    match s {
        Some(t) => Some(t@),
        None => None,
    }
}

impl View for Op {
    type V = OpModel;

    open spec fn view(&self) -> OpModel {
        match self {
            Op::Nop => OpModel::Nop,
            Op::Ret => OpModel::Ret,
            Op::MovImm { dst, imm } => OpModel::MovImm { dst: dst.0, imm: *imm },
            Op::AddImm { dst, imm } => OpModel::AddImm { dst: dst.0, imm: *imm },
            Op::SubImm { dst, imm } => OpModel::SubImm { dst: dst.0, imm: *imm },
            Op::Clear { dst } => OpModel::Clear { dst: dst.0 },
            Op::Inc { dst } => OpModel::Inc { dst: dst.0 },
            Op::Dec { dst } => OpModel::Dec { dst: dst.0 },
            Op::Push { src } => OpModel::Push { src: src.0 },
            Op::Pop { dst } => OpModel::Pop { dst: dst.0 },
            Op::CallRel { rel, target, symbol } => OpModel::CallRel {
                rel: *rel,
                target: *target,
                symbol: opt_text(*symbol),
            },
            Op::JmpRel { rel, target, symbol } => OpModel::JmpRel {
                rel: *rel,
                target: *target,
                symbol: opt_text(*symbol),
            },
            Op::LdMem { dst, base, offset, width } => OpModel::LdMem {
                dst: dst.0,
                base: base.0,
                offset: *offset,
                width: *width,
            },
            Op::StMem { src, base, offset, width } => OpModel::StMem {
                src: src.0,
                base: base.0,
                offset: *offset,
                width: *width,
            },
            Op::Unknown { offset, bytes, note } => OpModel::Unknown {
                offset: *offset,
                bytes: bytes@,
                note: note@,
            },
        }
    }
}

/// Models of a sequence of operations.
pub open spec fn ops_model(ops: Seq<Op>) -> Seq<OpModel> {
    Seq::new(ops.len(), |i: int| ops[i]@)
}

fn copy_opt_string(s: &Option<String>) -> (r: Option<String>)
    ensures
        opt_text(r) == opt_text(*s),
{
    match s {
        Some(t) => Some(t.clone()),
        None => None,
    }
}

fn copy_bytes(b: &Vec<u8>) -> (r: Vec<u8>)
    ensures
        r@ == b@,
{
    let mut out: Vec<u8> = Vec::new();
    let mut i: usize = 0;
    while i < b.len()
        invariant
            i <= b.len(),
            out@ == b@.subrange(0, i as int),
        decreases b.len() - i,
    {
        out.push(b[i]);
        i = i + 1;
        assert(out@ =~= b@.subrange(0, i as int));
    }
    assert(b@.subrange(0, b.len() as int) =~= b@);
    out
}

fn same_opt_string(a: &Option<String>, b: &Option<String>) -> (r: bool)
    ensures
        r == (opt_text(*a) == opt_text(*b)),
{
    match (a, b) {
        (Some(x), Some(y)) => same_string(x, y),
        (None, None) => true,
        _ => false,
    }
}

fn same_string(a: &String, b: &String) -> (r: bool)
    ensures
        r == (a@ == b@),
{
    let r = a.eq(b);
    r
}

fn same_bytes(a: &Vec<u8>, b: &Vec<u8>) -> (r: bool)
    ensures
        r == (a@ == b@),
{
    if a.len() != b.len() {
        return false;
    }
    let mut i: usize = 0;
    while i < a.len()
        invariant
            i <= a.len(),
            a.len() == b.len(),
            forall|k: int| 0 <= k < i ==> a@[k] == b@[k],
        decreases a.len() - i,
    {
        if a[i] != b[i] {
            return false;
        }
        i = i + 1;
    }
    assert(a@ =~= b@);
    true
}

impl Op {
    /// A copy of this operation with the same model.
    pub fn duplicate(&self) -> (r: Op)
        ensures
            r@ == self@,
    {
        match self {
            Op::Nop => Op::Nop,
            Op::Ret => Op::Ret,
            Op::MovImm { dst, imm } => Op::MovImm { dst: *dst, imm: *imm },
            Op::AddImm { dst, imm } => Op::AddImm { dst: *dst, imm: *imm },
            Op::SubImm { dst, imm } => Op::SubImm { dst: *dst, imm: *imm },
            Op::Clear { dst } => Op::Clear { dst: *dst },
            Op::Inc { dst } => Op::Inc { dst: *dst },
            Op::Dec { dst } => Op::Dec { dst: *dst },
            Op::Push { src } => Op::Push { src: *src },
            Op::Pop { dst } => Op::Pop { dst: *dst },
            Op::CallRel { rel, target, symbol } => Op::CallRel {
                rel: *rel,
                target: *target,
                symbol: copy_opt_string(symbol),
            },
            Op::JmpRel { rel, target, symbol } => Op::JmpRel {
                rel: *rel,
                target: *target,
                symbol: copy_opt_string(symbol),
            },
            Op::LdMem { dst, base, offset, width } => Op::LdMem {
                dst: *dst,
                base: *base,
                offset: *offset,
                width: *width,
            },
            Op::StMem { src, base, offset, width } => Op::StMem {
                src: *src,
                base: *base,
                offset: *offset,
                width: *width,
            },
            Op::Unknown { offset, bytes, note } => Op::Unknown {
                offset: *offset,
                bytes: copy_bytes(bytes),
                note: note.clone(),
            },
        }
    }

    /// Structural equality of two operations (equal models).
    pub fn same_as(&self, other: &Op) -> (r: bool)
        ensures
            r == (self@ == other@),
    {
        match (self, other) {
            (Op::Nop, Op::Nop) => true,
            (Op::Ret, Op::Ret) => true,
            (Op::MovImm { dst: a, imm: x }, Op::MovImm { dst: b, imm: y }) => a.0 == b.0 && x == y,
            (Op::AddImm { dst: a, imm: x }, Op::AddImm { dst: b, imm: y }) => a.0 == b.0 && x == y,
            (Op::SubImm { dst: a, imm: x }, Op::SubImm { dst: b, imm: y }) => a.0 == b.0 && x == y,
            (Op::Clear { dst: a }, Op::Clear { dst: b }) => a.0 == b.0,
            (Op::Inc { dst: a }, Op::Inc { dst: b }) => a.0 == b.0,
            (Op::Dec { dst: a }, Op::Dec { dst: b }) => a.0 == b.0,
            (Op::Push { src: a }, Op::Push { src: b }) => a.0 == b.0,
            (Op::Pop { dst: a }, Op::Pop { dst: b }) => a.0 == b.0,
            (
                Op::CallRel { rel: r1, target: t1, symbol: s1 },
                Op::CallRel { rel: r2, target: t2, symbol: s2 },
            ) => *r1 == *r2 && same_target(t1, t2) && same_opt_string(s1, s2),
            (
                Op::JmpRel { rel: r1, target: t1, symbol: s1 },
                Op::JmpRel { rel: r2, target: t2, symbol: s2 },
            ) => *r1 == *r2 && same_target(t1, t2) && same_opt_string(s1, s2),
            (
                Op::LdMem { dst: d1, base: b1, offset: o1, width: w1 },
                Op::LdMem { dst: d2, base: b2, offset: o2, width: w2 },
            ) => d1.0 == d2.0 && b1.0 == b2.0 && *o1 == *o2 && *w1 == *w2,
            (
                Op::StMem { src: d1, base: b1, offset: o1, width: w1 },
                Op::StMem { src: d2, base: b2, offset: o2, width: w2 },
            ) => d1.0 == d2.0 && b1.0 == b2.0 && *o1 == *o2 && *w1 == *w2,
            (
                Op::Unknown { offset: o1, bytes: b1, note: n1 },
                Op::Unknown { offset: o2, bytes: b2, note: n2 },
            ) => *o1 == *o2 && same_bytes(b1, b2) && same_string(n1, n2),
            _ => false,
        }
    }

    /// Whether this operation is an `Unknown` gap.
    pub fn is_gap(&self) -> (r: bool)
        ensures
            r == self@ is Unknown,
    {
        match self {
            Op::Unknown { .. } => true,
            _ => false,
        }
    }
}

fn same_target(a: &Option<u64>, b: &Option<u64>) -> (r: bool)
    ensures
        r == (*a == *b),
{
    match (a, b) {
        (Some(x), Some(y)) => *x == *y,
        (None, None) => true,
        _ => false,
    }
}

/// A copy of a sequence of operations with the same models.
pub fn duplicate_ops(ops: &Vec<Op>) -> (r: Vec<Op>)
    ensures
        ops_model(r@) == ops_model(ops@),
{
    let mut out: Vec<Op> = Vec::new();
    let mut i: usize = 0;
    while i < ops.len()
        invariant
            i <= ops.len(),
            out.len() == i,
            ops_model(out@) == ops_model(ops@).subrange(0, i as int),
        decreases ops.len() - i,
    {
        let op = ops[i].duplicate();
        let ghost before = out@;
        out.push(op);
        proof {
            assert forall|k: int| 0 <= k < i implies out@[k]@ == ops@[k]@ by {
                assert(out@[k] == before[k]);
                assert(ops_model(before)[k] == ops_model(ops@).subrange(0, i as int)[k]);
            }
        }
        i = i + 1;
        assert(ops_model(out@) =~= ops_model(ops@).subrange(0, i as int));
    }
    assert(ops_model(ops@).subrange(0, ops.len() as int) =~= ops_model(ops@));
    out
}

/// A basic block: a label and straight-line operations.
#[derive(Debug, Clone, PartialEq, Eq)]
pub struct BasicBlock {
    pub label: String,
    pub ops: Vec<Op>,
}

/// A function: a name and its blocks (the first is the entry).
#[derive(Debug, Clone, PartialEq, Eq)]
pub struct Function {
    pub name: String,
    pub blocks: Vec<BasicBlock>,
}

/// A lifted module.
#[derive(Debug, Clone, PartialEq, Eq)]
pub struct Module {
    pub name: String,
    pub source_isa: String,
    pub functions: Vec<Function>,
    pub lift_gaps: usize,
    /// Optional provenance (ELF path / section).
    pub source: Option<String>,
    pub text_vma: Option<u64>,
}

/// Number of `Unknown` gaps in a sequence of operation models.
pub open spec fn gap_count(ops: Seq<OpModel>) -> nat
    decreases ops.len(),
{
    if ops.len() == 0 {
        0
    } else {
        gap_count(ops.drop_last()) + if ops.last() is Unknown { 1nat } else { 0nat }
    }
}

/// Number of gaps over a sequence of blocks.
pub open spec fn block_gaps(blocks: Seq<BasicBlock>) -> nat
    decreases blocks.len(),
{
    if blocks.len() == 0 {
        0
    } else {
        block_gaps(blocks.drop_last()) + gap_count(ops_model(blocks.last().ops@))
    }
}

/// Number of gaps over a sequence of functions.
pub open spec fn function_gaps(fns: Seq<Function>) -> nat
    decreases fns.len(),
{
    if fns.len() == 0 {
        0
    } else {
        function_gaps(fns.drop_last()) + block_gaps(fns.last().blocks@)
    }
}

/// Counts gaps in one sequence of operations.
pub fn count_op_gaps(ops: &Vec<Op>) -> (n: usize)
    ensures
        n == gap_count(ops_model(ops@)),
{
    let mut n: usize = 0;
    let mut i: usize = 0;
    while i < ops.len()
        invariant
            i <= ops.len(),
            n == gap_count(ops_model(ops@).subrange(0, i as int)),
            n <= i,
        decreases ops.len() - i,
    {
        let ghost before = ops_model(ops@).subrange(0, i as int);
        let g = ops[i].is_gap();
        if g {
            n = n + 1;
        }
        i = i + 1;
        proof {
            let now = ops_model(ops@).subrange(0, i as int);
            assert(now.drop_last() =~= before);
        }
    }
    assert(ops_model(ops@).subrange(0, ops.len() as int) =~= ops_model(ops@));
    n
}

impl Module {
    /// Total number of `Unknown` gaps across all functions and blocks.
    pub fn count_gaps(&self) -> (n: usize)
        requires
            function_gaps(self.functions@) <= usize::MAX,
        ensures
            n == function_gaps(self.functions@),
    {
        let mut total: usize = 0;
        let mut f: usize = 0;
        while f < self.functions.len()
            invariant
                f <= self.functions.len(),
                total == function_gaps(self.functions@.subrange(0, f as int)),
                function_gaps(self.functions@) <= usize::MAX,
            decreases self.functions.len() - f,
        {
            let func = &self.functions[f];
            proof {
                assert(self.functions@.subrange(0, f + 1 as int).drop_last()
                    =~= self.functions@.subrange(0, f as int));
                lemma_function_gaps_prefix(self.functions@, f + 1 as int);
                assert(block_gaps(func.blocks@.subrange(0, 0)) == 0);
            }
            let mut in_fn: usize = 0;
            let mut b: usize = 0;
            while b < func.blocks.len()
                invariant
                    b <= func.blocks.len(),
                    in_fn == block_gaps(func.blocks@.subrange(0, b as int)),
                    total == function_gaps(self.functions@.subrange(0, f as int)),
                    f < self.functions.len(),
                    func == &self.functions@[f as int],
                    total + block_gaps(func.blocks@.subrange(0, b as int)) <= usize::MAX,
                    total + block_gaps(func.blocks@) <= usize::MAX,
                decreases func.blocks.len() - b,
            {
                proof {
                    assert(func.blocks@.subrange(0, b + 1 as int).drop_last()
                        =~= func.blocks@.subrange(0, b as int));
                    lemma_block_gaps_prefix(func.blocks@, b + 1 as int);
                }
                let g = count_op_gaps(&func.blocks[b].ops);
                in_fn = in_fn + g;
                b = b + 1;
            }
            proof {
                assert(func.blocks@.subrange(0, b as int) =~= func.blocks@);
                assert(self.functions@.subrange(0, f + 1 as int).drop_last()
                    =~= self.functions@.subrange(0, f as int));
                lemma_function_gaps_prefix(self.functions@, f + 1 as int);
            }
            total = total + in_fn;
            f = f + 1;
        }
        assert(self.functions@.subrange(0, f as int) =~= self.functions@);
        total
    }
}

proof fn lemma_block_gaps_prefix(blocks: Seq<BasicBlock>, k: int)
    requires
        0 <= k <= blocks.len(),
    ensures
        block_gaps(blocks.subrange(0, k)) <= block_gaps(blocks),
    decreases blocks.len(),
{
    if k < blocks.len() {
        assert(blocks.drop_last().subrange(0, k) =~= blocks.subrange(0, k));
        lemma_block_gaps_prefix(blocks.drop_last(), k);
    } else {
        assert(blocks.subrange(0, k) =~= blocks);
    }
}

proof fn lemma_function_gaps_prefix(fns: Seq<Function>, k: int)
    requires
        0 <= k <= fns.len(),
    ensures
        function_gaps(fns.subrange(0, k)) <= function_gaps(fns),
    decreases fns.len(),
{
    if k < fns.len() {
        assert(fns.drop_last().subrange(0, k) =~= fns.subrange(0, k));
        lemma_function_gaps_prefix(fns.drop_last(), k);
    } else {
        assert(fns.subrange(0, k) =~= fns);
    }
}

// ---------------------------------------------------------------------------
// Text of an operation, in the layout of its `Debug` form
// ---------------------------------------------------------------------------

/// `VReg(r)`.
pub open spec fn vreg_text(r: u32) -> Seq<char> {
    "VReg("@ + dec(r as nat) + ")"@
}

/// `Some(n)` or `None`.
pub open spec fn opt_u64_text(t: Option<u64>) -> Seq<char> {
    match t {
        Some(v) => "Some("@ + dec(v as nat) + ")"@,
        None => "None"@,
    }
}

/// `Some("…")` (the string in its `Debug` form) or `None`.
pub open spec fn opt_str_text(t: Option<Seq<char>>) -> Seq<char> {
    match t {
        Some(v) => "Some("@ + str_debug_text(v) + ")"@,
        None => "None"@,
    }
}

/// The bytes in decimal, separated by `, `.
pub open spec fn byte_list(b: Seq<u8>) -> Seq<char>
    decreases b.len(),
{
    if b.len() == 0 {
        Seq::empty()
    } else if b.len() == 1 {
        dec(b[0] as nat)
    } else {
        byte_list(b.drop_last()) + ", "@ + dec(b.last() as nat)
    }
}

/// `Name { field: VReg(r) }`.
pub open spec fn reg_form(name: Seq<char>, field: Seq<char>, r: u32) -> Seq<char> {
    name + " { "@ + field + ": "@ + vreg_text(r) + " }"@
}

/// `Name { dst: VReg(r), imm: n }`.
pub open spec fn imm_form(name: Seq<char>, dst: u32, imm: u32) -> Seq<char> {
    name + " { dst: "@ + vreg_text(dst) + ", imm: "@ + dec(imm as nat) + " }"@
}

/// `Name { rel: n, target: …, symbol: … }`.
pub open spec fn branch_form(
    name: Seq<char>,
    rel: i32,
    target: Option<u64>,
    symbol: Option<Seq<char>>,
) -> Seq<char> {
    name + " { rel: "@ + sdec(rel as int) + ", target: "@ + opt_u64_text(target) + ", symbol: "@
        + opt_str_text(symbol) + " }"@
}

/// `Name { field: VReg(r), base: VReg(b), offset: n, width: w }`.
pub open spec fn mem_form(
    name: Seq<char>,
    field: Seq<char>,
    r: u32,
    base: u32,
    offset: i32,
    width: u8,
) -> Seq<char> {
    name + " { "@ + field + ": "@ + vreg_text(r) + ", base: "@ + vreg_text(base) + ", offset: "@
        + sdec(offset as int) + ", width: "@ + dec(width as nat) + " }"@
}

/// The text of an operation, laid out as its `Debug` form: the variant's name
/// and its fields by name, registers as `VReg(n)`, strings quoted.
pub open spec fn op_text(op: OpModel) -> Seq<char> {
    match op {
        OpModel::Nop => "Nop"@,
        OpModel::Ret => "Ret"@,
        OpModel::MovImm { dst, imm } => imm_form("MovImm"@, dst, imm),
        OpModel::AddImm { dst, imm } => imm_form("AddImm"@, dst, imm),
        OpModel::SubImm { dst, imm } => imm_form("SubImm"@, dst, imm),
        OpModel::Clear { dst } => reg_form("Clear"@, "dst"@, dst),
        OpModel::Inc { dst } => reg_form("Inc"@, "dst"@, dst),
        OpModel::Dec { dst } => reg_form("Dec"@, "dst"@, dst),
        OpModel::Push { src } => reg_form("Push"@, "src"@, src),
        OpModel::Pop { dst } => reg_form("Pop"@, "dst"@, dst),
        OpModel::CallRel { rel, target, symbol } => branch_form("CallRel"@, rel, target, symbol),
        OpModel::JmpRel { rel, target, symbol } => branch_form("JmpRel"@, rel, target, symbol),
        OpModel::LdMem { dst, base, offset, width } => mem_form(
            "LdMem"@,
            "dst"@,
            dst,
            base,
            offset,
            width,
        ),
        OpModel::StMem { src, base, offset, width } => mem_form(
            "StMem"@,
            "src"@,
            src,
            base,
            offset,
            width,
        ),
        OpModel::Unknown { offset, bytes, note } => "Unknown { offset: "@ + dec(offset as nat)
            + ", bytes: ["@ + byte_list(bytes) + "], note: "@ + str_debug_text(note) + " }"@,
    }
}

fn push_vreg(s: &mut String, r: u32)
    ensures
        final(s)@ == old(s)@ + vreg_text(r),
{
    s.append("VReg(");
    push_dec(s, r as u64);
    s.append(")");
}

fn push_opt_u64(s: &mut String, t: Option<u64>)
    ensures
        final(s)@ == old(s)@ + opt_u64_text(t),
{
    match t {
        Some(v) => {
            s.append("Some(");
            push_dec(s, v);
            s.append(")");
        },
        None => s.append("None"),
    }
}

fn push_opt_str(s: &mut String, t: &Option<String>)
    ensures
        final(s)@ == old(s)@ + opt_str_text(opt_text(*t)),
{
    match t {
        Some(v) => {
            s.append("Some(");
            let q = str_debug(v.as_str());
            s.append(q.as_str());
            s.append(")");
        },
        None => s.append("None"),
    }
}

fn push_byte_list(s: &mut String, b: &Vec<u8>)
    ensures
        final(s)@ == old(s)@ + byte_list(b@),
{
    let ghost s0 = s@;
    let mut i: usize = 0;
    while i < b.len()
        invariant
            i <= b@.len(),
            s@ == s0 + byte_list(b@.subrange(0, i as int)),
        decreases b@.len() - i,
    {
        let ghost before = s@;
        if i > 0 {
            s.append(", ");
        }
        push_dec(s, b[i] as u64);
        proof {
            let sub = b@.subrange(0, i as int + 1);
            assert(sub.drop_last() =~= b@.subrange(0, i as int));
            assert(sub.last() == b@[i as int]);
            if i == 0 {
                assert(byte_list(sub) == dec(b@[0] as nat));
            }
            assert(s@ =~= s0 + byte_list(sub));
        }
        i = i + 1;
    }
    assert(b@.subrange(0, b@.len() as int) =~= b@);
}

fn push_reg_form(s: &mut String, name: &str, field: &str, r: u32)
    ensures
        final(s)@ == old(s)@ + reg_form(name@, field@, r),
{
    let ghost s0 = s@;
    s.append(name);
    s.append(" { ");
    s.append(field);
    s.append(": ");
    push_vreg(s, r);
    s.append(" }");
    assert(s@ =~= s0 + reg_form(name@, field@, r));
}

fn push_imm_form(s: &mut String, name: &str, dst: u32, imm: u32)
    ensures
        final(s)@ == old(s)@ + imm_form(name@, dst, imm),
{
    let ghost s0 = s@;
    s.append(name);
    s.append(" { dst: ");
    push_vreg(s, dst);
    s.append(", imm: ");
    push_dec(s, imm as u64);
    s.append(" }");
    assert(s@ =~= s0 + imm_form(name@, dst, imm));
}

fn push_branch_form(s: &mut String, name: &str, rel: i32, target: Option<u64>, symbol: &Option<String>)
    ensures
        final(s)@ == old(s)@ + branch_form(name@, rel, target, opt_text(*symbol)),
{
    let ghost s0 = s@;
    s.append(name);
    s.append(" { rel: ");
    push_sdec(s, rel as i64);
    s.append(", target: ");
    push_opt_u64(s, target);
    s.append(", symbol: ");
    push_opt_str(s, symbol);
    s.append(" }");
    assert(s@ =~= s0 + branch_form(name@, rel, target, opt_text(*symbol)));
}

fn push_mem_form(s: &mut String, name: &str, field: &str, r: u32, base: u32, offset: i32, width: u8)
    ensures
        final(s)@ == old(s)@ + mem_form(name@, field@, r, base, offset, width),
{
    let ghost s0 = s@;
    s.append(name);
    s.append(" { ");
    s.append(field);
    s.append(": ");
    push_vreg(s, r);
    s.append(", base: ");
    push_vreg(s, base);
    s.append(", offset: ");
    push_sdec(s, offset as i64);
    s.append(", width: ");
    push_dec(s, width as u64);
    s.append(" }");
    assert(s@ =~= s0 + mem_form(name@, field@, r, base, offset, width));
}

impl Op {
    /// The operation's text, laid out as its `Debug` form (see [`op_text`]).
    pub fn describe(&self) -> (s: String)
        ensures
            s@ == op_text(self@),
    {
        let mut s = String::new();
        match self {
            Op::Nop => s.append("Nop"),
            Op::Ret => s.append("Ret"),
            Op::MovImm { dst, imm } => push_imm_form(&mut s, "MovImm", dst.0, *imm),
            Op::AddImm { dst, imm } => push_imm_form(&mut s, "AddImm", dst.0, *imm),
            Op::SubImm { dst, imm } => push_imm_form(&mut s, "SubImm", dst.0, *imm),
            Op::Clear { dst } => push_reg_form(&mut s, "Clear", "dst", dst.0),
            Op::Inc { dst } => push_reg_form(&mut s, "Inc", "dst", dst.0),
            Op::Dec { dst } => push_reg_form(&mut s, "Dec", "dst", dst.0),
            Op::Push { src } => push_reg_form(&mut s, "Push", "src", src.0),
            Op::Pop { dst } => push_reg_form(&mut s, "Pop", "dst", dst.0),
            Op::CallRel { rel, target, symbol } => push_branch_form(&mut s, "CallRel", *rel, *target, symbol),
            Op::JmpRel { rel, target, symbol } => push_branch_form(&mut s, "JmpRel", *rel, *target, symbol),
            Op::LdMem { dst, base, offset, width } => push_mem_form(
                &mut s,
                "LdMem",
                "dst",
                dst.0,
                base.0,
                *offset,
                *width,
            ),
            Op::StMem { src, base, offset, width } => push_mem_form(
                &mut s,
                "StMem",
                "src",
                src.0,
                base.0,
                *offset,
                *width,
            ),
            Op::Unknown { offset, bytes, note } => {
                s.append("Unknown { offset: ");
                push_dec(&mut s, *offset);
                s.append(", bytes: [");
                push_byte_list(&mut s, bytes);
                s.append("], note: ");
                let q = str_debug(note.as_str());
                s.append(q.as_str());
                s.append(" }");
                assert(s@ =~= op_text(self@));
            },
        }
        s
    }
}

} // verus!
