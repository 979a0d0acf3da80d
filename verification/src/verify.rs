//! Round-trip verification: SIR → encode → bytes → decode → SIR′, compared
//! literally (`SIR == SIR′`) and semantically (equal semantic keys), with the
//! per-target coverage that these comparisons and the executor give.

use vstd::prelude::*;

use crate::sir::{Op, OpModel, VReg, ops_model, duplicate_ops, gap_count};
use crate::target::TargetIsa;
use crate::text::{dec, sdec, push_dec, push_sdec, str_eq, text};
use crate::target::SuperHFlavor;
use crate::encode::{enc_ops, enc_op, encode_module, encode_error_text, entry_ops, lemma_enc_ops_first_error};
use crate::decode::{decode_ops, decode_spec, decode_error_text, decodable, DecodeError, DecodeErrorModel};
use crate::roundtrip::{
    SemOp, sem, all_faithful, decoded_ops, lemma_codec_roundtrip, faithful, regs_within, carried_reg,
    coldfire_memory_move, lemma_encodable_faithful,
};
use crate::semexec::{
    module_from, MachineState, StateModel, execute_isa, differential_ops, diff_model, diff_matches,
    run, isa_bits, isa_endian, set_reg, initial_state, LINK,
};

verus! {

/// Text of the meaning of an operation.
pub open spec fn sem_text(s: SemOp) -> Seq<char> {
    match s {
        SemOp::Nop => "nop"@,
        SemOp::Ret => "ret"@,
        SemOp::MovImm { dst, val } => "movimm("@ + dec(dst as nat) + ","@ + sdec(val) + ")"@,
        SemOp::AddImm { dst, val } => "addimm("@ + dec(dst as nat) + ","@ + sdec(val) + ")"@,
        SemOp::Push { src } => "push("@ + dec(src as nat) + ")"@,
        SemOp::Pop { dst } => "pop("@ + dec(dst as nat) + ")"@,
        SemOp::Call { name } => "call("@ + name + ")"@,
        SemOp::Jmp { name } => "jmp("@ + name + ")"@,
        SemOp::LdMem { dst, base, offset, width } => "ldmem("@ + dec(dst as nat) + ","@ + dec(
            base as nat,
        ) + ","@ + sdec(offset as int) + ","@ + dec(width as nat) + ")"@,
        SemOp::StMem { src, base, offset, width } => "stmem("@ + dec(src as nat) + ","@ + dec(
            base as nat,
        ) + ","@ + sdec(offset as int) + ","@ + dec(width as nat) + ")"@,
        SemOp::Gap => "gap"@,
    }
}

/// The semantic key of an operation model.
pub open spec fn key(op: OpModel) -> Seq<char> {
    sem_text(sem(op))
}

fn push_reg_call(s: &mut String, name: &str, r: u32)
    ensures
        final(s)@ == old(s)@ + name@ + dec(r as nat) + ")"@,
{
    s.append(name);
    push_dec(s, r as u64);
    s.append(")");
}

fn push_imm_call(s: &mut String, name: &str, r: u32, v: i64)
    ensures
        final(s)@ == old(s)@ + name@ + dec(r as nat) + ","@ + sdec(v as int) + ")"@,
{
    s.append(name);
    push_dec(s, r as u64);
    s.append(",");
    push_sdec(s, v);
    s.append(")");
}

fn push_mem_call(s: &mut String, name: &str, r: u32, base: u32, offset: i32, width: u8)
    ensures
        final(s)@ == old(s)@ + name@ + dec(r as nat) + ","@ + dec(base as nat) + ","@ + sdec(
            offset as int,
        ) + ","@ + dec(width as nat) + ")"@,
{
    s.append(name);
    push_dec(s, r as u64);
    s.append(",");
    push_dec(s, base as u64);
    s.append(",");
    push_sdec(s, offset as i64);
    s.append(",");
    push_dec(s, width as u64);
    s.append(")");
}

fn push_branch(s: &mut String, name: &str, symbol: &Option<String>)
    ensures
        final(s)@ == old(s)@ + name@ + crate::roundtrip::symbol_name(crate::sir::opt_text(*symbol))
            + ")"@,
{
    s.append(name);
    match symbol {
        Some(t) => s.append(t.as_str()),
        None => s.append("?"),
    }
    s.append(")");
}

/// Canonical semantic form of an operation: `Clear` is `movimm(·,0)`; `Inc`,
/// `Dec` and `SubImm` are `addimm(·,±n)`; immediates read as signed 32-bit,
/// a subtraction's amount negated with wrapping.
pub fn semantic_key(op: &Op) -> (s: String)
    ensures
        s@ == key(op@),
{
    let mut s = String::new();
    match op {
        Op::Nop => s.append("nop"),
        Op::Ret => s.append("ret"),
        Op::MovImm { dst, imm } => push_imm_call(&mut s, "movimm(", dst.0, (*imm as i32) as i64),
        Op::AddImm { dst, imm } => push_imm_call(&mut s, "addimm(", dst.0, (*imm as i32) as i64),
        Op::SubImm { dst, imm } => {
            let x: i32 = *imm as i32;
            let v: i64 = if x == i32::MIN {
                x as i64
            } else {
                -(x as i64)
            };
            push_imm_call(&mut s, "addimm(", dst.0, v)
        },
        Op::Clear { dst } => push_imm_call(&mut s, "movimm(", dst.0, 0),
        Op::Inc { dst } => push_imm_call(&mut s, "addimm(", dst.0, 1),
        Op::Dec { dst } => push_imm_call(&mut s, "addimm(", dst.0, -1),
        Op::Push { src } => push_reg_call(&mut s, "push(", src.0),
        Op::Pop { dst } => push_reg_call(&mut s, "pop(", dst.0),
        Op::CallRel { symbol, .. } => push_branch(&mut s, "call(", symbol),
        Op::JmpRel { symbol, .. } => push_branch(&mut s, "jmp(", symbol),
        Op::LdMem { dst, base, offset, width } => push_mem_call(
            &mut s,
            "ldmem(",
            dst.0,
            base.0,
            *offset,
            *width,
        ),
        Op::StMem { src, base, offset, width } => push_mem_call(
            &mut s,
            "stmem(",
            src.0,
            base.0,
            *offset,
            *width,
        ),
        Op::Unknown { .. } => s.append("gap"),
    }
    s
}

/// The two's-complement negation of a 32-bit immediate (`imm.wrapping_neg()`).
pub open spec fn wrapping_neg32(imm: u32) -> u32 {
    (!imm + 1) as u32
}

proof fn lemma_neg32_view(imm: u32)
    by (bit_vector)
    ensures
        (imm as i32) == i32::MIN ==> ((!imm + 1) as u32) as i32 == imm as i32,
        (imm as i32) != i32::MIN ==> (((!imm + 1) as u32) as i32) as i64 == -((imm as i32) as i64),
        0xFFFF_FFFFu32 as i32 == -1i32,
        1u32 as i32 == 1i32,
        0u32 as i32 == 0i32,
{
}

/// Semantic keys read immediates as signed 32-bit amounts: a subtraction has
/// the key of the addition of its wrapping negation, an increment that of
/// adding 1, a decrement that of adding `0xFFFF_FFFF` (that is, -1) and a
/// clear that of moving 0.
pub proof fn lemma_key_normalization(d: u32, imm: u32)
    ensures
        key(OpModel::SubImm { dst: d, imm }) == key(OpModel::AddImm { dst: d, imm: wrapping_neg32(imm) }),
        key(OpModel::Inc { dst: d }) == key(OpModel::AddImm { dst: d, imm: 1 }),
        key(OpModel::Dec { dst: d }) == key(OpModel::AddImm { dst: d, imm: 0xFFFF_FFFF }),
        key(OpModel::Clear { dst: d }) == key(OpModel::MovImm { dst: d, imm: 0 }),
{
    lemma_neg32_view(imm);
    assert(sem(OpModel::SubImm { dst: d, imm }) == sem(OpModel::AddImm { dst: d, imm: wrapping_neg32(imm) }));
}

/// Two sequences of operations have the same length and equal semantic keys
/// position by position.
pub open spec fn sem_equal(a: Seq<OpModel>, b: Seq<OpModel>) -> bool {
    a.len() == b.len() && forall|i: int| 0 <= i < a.len() ==> #[trigger] key(a[i]) == key(b[i])
}

/// Same length and equal semantic keys position by position.
pub fn semantically_equal(a: &[Op], b: &[Op]) -> (r: bool)
    ensures
        r == sem_equal(ops_model(a@), ops_model(b@)),
{
    if a.len() != b.len() {
        return false;
    }
    let mut i: usize = 0;
    while i < a.len()
        invariant
            i <= a@.len(),
            a@.len() == b@.len(),
            forall|k: int| 0 <= k < i ==> #[trigger] key(a@[k]@) == key(b@[k]@),
        decreases a@.len() - i,
    {
        let ka = semantic_key(&a[i]);
        let kb = semantic_key(&b[i]);
        if !ka.eq(&kb) {
            assert(!sem_equal(ops_model(a@), ops_model(b@))) by {
                assert(ops_model(a@)[i as int] == a@[i as int]@);
                assert(ops_model(b@)[i as int] == b@[i as int]@);
            }
            return false;
        }
        i = i + 1;
    }
    assert(sem_equal(ops_model(a@), ops_model(b@))) by {
        assert forall|k: int| 0 <= k < a@.len() implies #[trigger] key(ops_model(a@)[k]) == key(
            ops_model(b@)[k],
        ) by {
            assert(key(a@[k]@) == key(b@[k]@));
        }
    }
    true
}


/// The codec round trip for what the encoder accepts: a program that encodes,
/// on registers the target carries and without ColdFire memory moves, decodes
/// without gaps to a program of the same length whose operations have the
/// same semantic keys.
pub proof fn lemma_codec_roundtrip_encodable(ops: Seq<OpModel>, isa: TargetIsa)
    requires
        decodable(isa),
        enc_ops(ops, isa) is Ok,
        forall|i: int|
            0 <= i < ops.len() ==> regs_within(#[trigger] ops[i], carried_reg(isa))
                && !coldfire_memory_move(ops[i], isa),
    ensures
        decode_spec(enc_ops(ops, isa)->Ok_0, isa) matches Ok(out) && no_gaps(out) && sem_equal(ops, out),
{
    lemma_enc_ops_first_error(ops, isa);
    assert forall|i: int| 0 <= i < ops.len() implies #[trigger] faithful(ops[i], isa) by {
        assert(regs_within(ops[i], carried_reg(isa)));
        if enc_op(ops[i], isa) is Err {
            assert(enc_ops(ops, isa) is Err);
        }
        lemma_encodable_faithful(ops[i], isa);
    }
    lemma_codec_roundtrip(ops, isa);
    let out = decoded_ops(ops, isa);
    assert(no_gaps(out));
    assert(sem_equal(ops, out));
}

/// No operation of `ops` is a gap.
pub open spec fn no_gaps(ops: Seq<OpModel>) -> bool {
    forall|i: int| 0 <= i < ops.len() ==> !(#[trigger] ops[i] is Unknown)
}

/// `m` is the first position where `a` and `b` differ, with the two operations
/// there; `None` when they agree on their common length.
pub open spec fn first_mismatch_spec(m: Option<(usize, Op, Op)>, a: Seq<OpModel>, b: Seq<OpModel>) -> bool {
    match m {
        Some((i, x, y)) => {
            &&& i < a.len() && i < b.len()
            &&& a[i as int] != b[i as int]
            &&& x@ == a[i as int] && y@ == b[i as int]
            &&& forall|j: int| 0 <= j < i ==> #[trigger] a[j] == b[j]
        },
        None => forall|j: int| 0 <= j < a.len() && j < b.len() ==> #[trigger] a[j] == b[j],
    }
}

/// Result of one encode→decode round trip.
#[derive(Debug, Clone)]
pub struct RoundtripReport {
    pub target: TargetIsa,
    /// SIR operations fed in.
    pub ops_in: Vec<Op>,
    /// Operations recovered after encode→decode.
    pub ops_out: Vec<Op>,
    /// `encode` produced bytes.
    pub encode_ok: bool,
    /// `decode` recovered operations without errors or gaps.
    pub decode_ok: bool,
    pub literal_match: bool,
    pub semantic_match: bool,
    pub first_mismatch: Option<(usize, Op, Op)>,
    pub note: String,
}

impl RoundtripReport {
    /// Bytes round-trip and at least the semantic form agrees.
    pub open spec fn verified_spec(&self) -> bool {
        self.encode_ok && self.decode_ok && (self.literal_match || self.semantic_match)
    }

    /// Bytes round-trip and at least the semantic form agrees.
    pub fn verified(&self) -> (r: bool)
        ensures
            r == self.verified_spec(),
    {
        self.encode_ok && self.decode_ok && (self.literal_match || self.semantic_match)
    }
}

fn has_gap(ops: &Vec<Op>) -> (r: bool)
    ensures
        r == !no_gaps(ops_model(ops@)),
{
    let mut i: usize = 0;
    while i < ops.len()
        invariant
            i <= ops@.len(),
            forall|k: int| 0 <= k < i ==> !(#[trigger] ops@[k]@ is Unknown),
        decreases ops@.len() - i,
    {
        if ops[i].is_gap() {
            assert(ops_model(ops@)[i as int] == ops@[i as int]@);
            return true;
        }
        i = i + 1;
    }
    assert(no_gaps(ops_model(ops@))) by {
        assert forall|k: int| 0 <= k < ops@.len() implies !(#[trigger] ops_model(ops@)[k] is Unknown) by {
            assert(ops_model(ops@)[k] == ops@[k]@);
        }
    }
    false
}

fn same_ops(a: &Vec<Op>, b: &Vec<Op>) -> (r: bool)
    ensures
        r == (ops_model(a@) == ops_model(b@)),
{
    if a.len() != b.len() {
        assert(ops_model(a@).len() != ops_model(b@).len());
        return false;
    }
    let mut i: usize = 0;
    while i < a.len()
        invariant
            i <= a@.len(),
            a@.len() == b@.len(),
            forall|k: int| 0 <= k < i ==> #[trigger] ops_model(a@)[k] == ops_model(b@)[k],
        decreases a@.len() - i,
    {
        if !a[i].same_as(&b[i]) {
            assert(ops_model(a@)[i as int] != ops_model(b@)[i as int]);
            return false;
        }
        i = i + 1;
    }
    assert(ops_model(a@) =~= ops_model(b@));
    true
}

fn find_mismatch(a: &Vec<Op>, b: &Vec<Op>) -> (m: Option<(usize, Op, Op)>)
    ensures
        first_mismatch_spec(m, ops_model(a@), ops_model(b@)),
{
    let mut i: usize = 0;
    while i < a.len() && i < b.len()
        invariant
            i <= a@.len(),
            i <= b@.len(),
            forall|k: int| 0 <= k < i ==> #[trigger] ops_model(a@)[k] == ops_model(b@)[k],
        decreases a@.len() - i,
    {
        if !a[i].same_as(&b[i]) {
            return Some((i, a[i].duplicate(), b[i].duplicate()));
        }
        i = i + 1;
    }
    None
}

proof fn lemma_gap_free_keys(m: Seq<OpModel>, isa: TargetIsa)
    requires
        decodable(isa),
        all_faithful(m, isa),
    ensures
        no_gaps(decoded_ops(m, isa)),
        sem_equal(m, decoded_ops(m, isa)),
{
    lemma_codec_roundtrip(m, isa);
    let d = decoded_ops(m, isa);
    assert forall|i: int| 0 <= i < m.len() implies #[trigger] key(m[i]) == key(d[i]) by {
        assert(sem(d[i]) == sem(m[i]));
    }
    assert forall|i: int| 0 <= i < d.len() implies !(#[trigger] d[i] is Unknown) by {
        assert(sem(d[i]) == sem(m[i]));
    }
}

/// `SIR → encode → bytes → decode → SIR′` with literal and semantic comparison.
pub fn verify_ops(ops: Vec<Op>, target: TargetIsa) -> (r: RoundtripReport)
    ensures
        r.target == target,
        ops_model(r.ops_in@) == ops_model(ops@),
        match enc_ops(ops_model(ops@), target) {
            Err(e) => {
                &&& !r.encode_ok && !r.decode_ok && !r.literal_match && !r.semantic_match
                &&& r.ops_out@.len() == 0 && r.first_mismatch is None
                &&& r.note@ == "encode: "@ + encode_error_text(e)
            },
            Ok(b) => r.encode_ok && match decode_spec(b, target) {
                Err(DecodeErrorModel::NoDecoder(d)) => {
                    &&& !r.decode_ok && !r.literal_match && !r.semantic_match
                    &&& r.ops_out@.len() == 0 && r.first_mismatch is None
                    &&& r.note@ == "no decoder ("@ + d + ")"@
                },
                Err(e) => {
                    &&& !r.decode_ok && !r.literal_match && !r.semantic_match
                    &&& r.ops_out@.len() == 0 && r.first_mismatch is None
                    &&& r.note@ == "decode: "@ + decode_error_text(e)
                },
                Ok(out) => {
                    &&& ops_model(r.ops_out@) == out
                    &&& r.decode_ok == no_gaps(out)
                    &&& r.literal_match == (out == ops_model(ops@))
                    &&& r.semantic_match == sem_equal(ops_model(ops@), out)
                    &&& first_mismatch_spec(r.first_mismatch, ops_model(ops@), out)
                    &&& r.note@.len() == 0
                },
            },
        },
        decodable(target) && all_faithful(ops_model(ops@), target) ==> r.verified_spec()
            && r.semantic_match,
{
    let ghost m = ops_model(ops@);
    let module = module_from(ops, "verify", "v0");
    let ops_in = duplicate_ops(&module.functions[0].blocks[0].ops);
    proof {
        assert(entry_ops(module) == m);
        if decodable(target) && all_faithful(m, target) {
            lemma_codec_roundtrip(m, target);
            lemma_gap_free_keys(m, target);
        }
    }
    let empty_note = String::new();
    assert(empty_note@ =~= Seq::<char>::empty());
    let bytes = match encode_module(&module, target) {
        Ok(b) => b,
        Err(e) => {
            let mut note = text("encode: ");
            let msg = e.message();
            note.append(msg.as_str());
            return RoundtripReport {
                target,
                ops_in,
                ops_out: Vec::new(),
                encode_ok: false,
                decode_ok: false,
                literal_match: false,
                semantic_match: false,
                first_mismatch: None,
                note,
            };
        },
    };
    let ops_out = match decode_ops(bytes.as_slice(), target) {
        Ok(o) => o,
        Err(DecodeError::NoDecoder(d)) => {
            let mut note = text("no decoder (");
            note.append(d.as_str());
            note.append(")");
            return RoundtripReport {
                target,
                ops_in,
                ops_out: Vec::new(),
                encode_ok: true,
                decode_ok: false,
                literal_match: false,
                semantic_match: false,
                first_mismatch: None,
                note,
            };
        },
        Err(e) => {
            let mut note = text("decode: ");
            let msg = e.message();
            note.append(msg.as_str());
            return RoundtripReport {
                target,
                ops_in,
                ops_out: Vec::new(),
                encode_ok: true,
                decode_ok: false,
                literal_match: false,
                semantic_match: false,
                first_mismatch: None,
                note,
            };
        },
    };
    let decode_ok = !has_gap(&ops_out);
    let literal_match = same_ops(&ops_in, &ops_out);
    let semantic_match = semantically_equal(ops_in.as_slice(), ops_out.as_slice());
    let first_mismatch = if literal_match {
        None
    } else {
        find_mismatch(&ops_in, &ops_out)
    };
    RoundtripReport {
        target,
        ops_in,
        ops_out,
        encode_ok: true,
        decode_ok,
        literal_match,
        semantic_match,
        first_mismatch,
        note: empty_note,
    }
}


// ---------------------------------------------------------------------------
// Probes per operation kind
// ---------------------------------------------------------------------------

/// The SIR operation kinds scored (every kind but the `Unknown` gap).
pub const SIR_OP_KINDS: [&'static str; 12] = [
    "nop",
    "ret",
    "mov_imm",
    "add_imm",
    "sub_imm",
    "clear",
    "inc",
    "dec",
    "push",
    "pop",
    "call",
    "jmp",
];

/// The scored kinds, in order.
pub open spec fn kind_list() -> Seq<Seq<char>> {
    seq![
        "nop"@,
        "ret"@,
        "mov_imm"@,
        "add_imm"@,
        "sub_imm"@,
        "clear"@,
        "inc"@,
        "dec"@,
        "push"@,
        "pop"@,
        "call"@,
        "jmp"@,
    ]
}

/// `kind` names a scored kind.
pub open spec fn is_kind(kind: Seq<char>) -> bool {
    kind_list().contains(kind)
}

/// The probe program of a kind: one operation on register 0 (immediate 5;
/// branches to a resolved symbol `f`).
pub open spec fn probe_spec(kind: Seq<char>) -> Seq<OpModel> {
    if kind == "nop"@ {
        seq![OpModel::Nop]
    } else if kind == "ret"@ {
        seq![OpModel::Ret]
    } else if kind == "mov_imm"@ {
        seq![OpModel::MovImm { dst: 0, imm: 5 }]
    } else if kind == "add_imm"@ {
        seq![OpModel::AddImm { dst: 0, imm: 5 }]
    } else if kind == "sub_imm"@ {
        seq![OpModel::SubImm { dst: 0, imm: 5 }]
    } else if kind == "clear"@ {
        seq![OpModel::Clear { dst: 0 }]
    } else if kind == "inc"@ {
        seq![OpModel::Inc { dst: 0 }]
    } else if kind == "dec"@ {
        seq![OpModel::Dec { dst: 0 }]
    } else if kind == "push"@ {
        seq![OpModel::Push { src: 0 }]
    } else if kind == "pop"@ {
        seq![OpModel::Pop { dst: 0 }]
    } else if kind == "call"@ {
        seq![OpModel::CallRel { rel: 0, target: Some(0), symbol: Some("f"@) }]
    } else {
        seq![OpModel::JmpRel { rel: 0, target: Some(0), symbol: Some("f"@) }]
    }
}

/// The edge-case program of a kind: full-range immediates that exercise the
/// width-dependent semantics; the probe program for the other kinds.
pub open spec fn edge_spec(kind: Seq<char>) -> Seq<OpModel> {
    if kind == "mov_imm"@ {
        seq![OpModel::MovImm { dst: 0, imm: 0xFFFF_FFFF }, OpModel::Ret]
    } else if kind == "add_imm"@ {
        seq![
            OpModel::MovImm { dst: 0, imm: 0xFFFF_FFFF },
            OpModel::AddImm { dst: 0, imm: 0xFFFF_FFFF },
            OpModel::Ret,
        ]
    } else if kind == "sub_imm"@ {
        seq![
            OpModel::MovImm { dst: 0, imm: 0xFFFF_FFFF },
            OpModel::SubImm { dst: 0, imm: 0xFFFF_FFFF },
            OpModel::Ret,
        ]
    } else if kind == "inc"@ {
        seq![OpModel::MovImm { dst: 0, imm: 0xFFFF_FFFF }, OpModel::Inc { dst: 0 }, OpModel::Ret]
    } else if kind == "dec"@ {
        seq![OpModel::MovImm { dst: 0, imm: 0 }, OpModel::Dec { dst: 0 }, OpModel::Ret]
    } else {
        probe_spec(kind)
    }
}

/// The state the probes start from: a high-bit register 0, the stack pointer
/// at 0x4000 and a live link register.
pub open spec fn edge_state_spec() -> StateModel {
    set_reg(set_reg(set_reg(initial_state(), 0, 0xFFFF_FFFF), 4, 0x4000), LINK, 0x8000)
}

fn one_op(op: Op) -> (v: Vec<Op>)
    ensures
        ops_model(v@) == seq![op@],
{
    let v = vec![op];
    assert(ops_model(v@) =~= seq![op@]);
    v
}

fn three_ops(a: Op, b: Op, c: Op) -> (v: Vec<Op>)
    ensures
        ops_model(v@) == seq![a@, b@, c@],
{
    let v = vec![a, b, c];
    assert(ops_model(v@) =~= seq![a@, b@, c@]);
    v
}

fn probe_ops(kind: &str) -> (v: Vec<Op>)
    requires
        is_kind(kind@),
    ensures
        ops_model(v@) == probe_spec(kind@),
{
    let v0 = VReg(0);
    if str_eq(kind, "nop") {
        one_op(Op::Nop)
    } else if str_eq(kind, "ret") {
        one_op(Op::Ret)
    } else if str_eq(kind, "mov_imm") {
        one_op(Op::MovImm { dst: v0, imm: 5 })
    } else if str_eq(kind, "add_imm") {
        one_op(Op::AddImm { dst: v0, imm: 5 })
    } else if str_eq(kind, "sub_imm") {
        one_op(Op::SubImm { dst: v0, imm: 5 })
    } else if str_eq(kind, "clear") {
        one_op(Op::Clear { dst: v0 })
    } else if str_eq(kind, "inc") {
        one_op(Op::Inc { dst: v0 })
    } else if str_eq(kind, "dec") {
        one_op(Op::Dec { dst: v0 })
    } else if str_eq(kind, "push") {
        one_op(Op::Push { src: v0 })
    } else if str_eq(kind, "pop") {
        one_op(Op::Pop { dst: v0 })
    } else if str_eq(kind, "call") {
        one_op(Op::CallRel { rel: 0, target: Some(0), symbol: Some(text("f")) })
    } else {
        one_op(Op::JmpRel { rel: 0, target: Some(0), symbol: Some(text("f")) })
    }
}

fn edge_ops(kind: &str) -> (v: Vec<Op>)
    requires
        is_kind(kind@),
    ensures
        ops_model(v@) == edge_spec(kind@),
{
    let v0 = VReg(0);
    if str_eq(kind, "mov_imm") {
        let v = vec![Op::MovImm { dst: v0, imm: 0xFFFF_FFFF }, Op::Ret];
        assert(ops_model(v@) =~= edge_spec(kind@));
        v
    } else if str_eq(kind, "add_imm") {
        three_ops(Op::MovImm { dst: v0, imm: 0xFFFF_FFFF }, Op::AddImm { dst: v0, imm: 0xFFFF_FFFF }, Op::Ret)
    } else if str_eq(kind, "sub_imm") {
        three_ops(Op::MovImm { dst: v0, imm: 0xFFFF_FFFF }, Op::SubImm { dst: v0, imm: 0xFFFF_FFFF }, Op::Ret)
    } else if str_eq(kind, "inc") {
        three_ops(Op::MovImm { dst: v0, imm: 0xFFFF_FFFF }, Op::Inc { dst: v0 }, Op::Ret)
    } else if str_eq(kind, "dec") {
        three_ops(Op::MovImm { dst: v0, imm: 0 }, Op::Dec { dst: v0 }, Op::Ret)
    } else {
        probe_ops(kind)
    }
}

fn edge_state() -> (s: MachineState)
    ensures
        s@ == edge_state_spec(),
        s.gpr.len() == 32,
{
    MachineState::new().with_gpr(0, 0xFFFF_FFFF).with_gpr(4, 0x4000).with_gpr(LINK, 0x8000)
}

/// Whether the reference executor runs the probe of `kind` on `target` without
/// error, from the edge state.
pub open spec fn execute_kind_spec(target: TargetIsa, kind: Seq<char>) -> bool {
    run(probe_spec(kind), edge_state_spec(), isa_bits(target), isa_endian(target)).1 is None
}

/// Whether the probe and the edge program of `kind` both match in the
/// differential on `target`, from the edge state.
pub open spec fn differential_kind_spec(target: TargetIsa, kind: Seq<char>) -> bool {
    &&& diff_matches(diff_model(probe_spec(kind), target, edge_state_spec()))
    &&& diff_matches(diff_model(edge_spec(kind), target, edge_state_spec()))
}

/// Can the semantic executor run this kind for `target`?
pub fn execute_kind(target: TargetIsa, kind: &str) -> (r: bool)
    requires
        is_kind(kind@),
    ensures
        r == execute_kind_spec(target, kind@),
{
    let mut st = edge_state();
    let ops = probe_ops(kind);
    execute_isa(ops.as_slice(), &mut st, target).is_ok()
}

/// Behavioural check of one kind: the probe and its edge-case program, with
/// reference semantics against the ISA's, from the edge state.
pub fn differential_kind(target: TargetIsa, kind: &str) -> (r: bool)
    requires
        is_kind(kind@),
    ensures
        r == differential_kind_spec(target, kind@),
{
    let state = edge_state();
    let first = differential_ops(probe_ops(kind), target, &state);
    if !first.matched() {
        return false;
    }
    let second = differential_ops(edge_ops(kind), target, &state);
    second.matched()
}

/// Which round-trip dimensions one kind passes on a target.
#[derive(Debug, Clone, Copy, PartialEq, Eq, Structural)]
pub struct KindProbe {
    /// The encoder produces bytes for this kind.
    pub encoder: bool,
    /// The decoder recovers it without gaps.
    pub decoder: bool,
    /// Strict round trip: `SIR == SIR′`.
    pub literal: bool,
    /// Semantic round trip: equal semantic keys.
    pub semantic: bool,
}

/// The dimensions the round trip of `m` passes on `target`.
pub open spec fn rt_flags(m: Seq<OpModel>, target: TargetIsa) -> KindProbe {
    match enc_ops(m, target) {
        Err(_) => KindProbe { encoder: false, decoder: false, literal: false, semantic: false },
        Ok(b) => match decode_spec(b, target) {
            Err(_) => KindProbe { encoder: true, decoder: false, literal: false, semantic: false },
            Ok(out) => KindProbe {
                encoder: true,
                decoder: no_gaps(out),
                literal: out == m,
                semantic: sem_equal(m, out),
            },
        },
    }
}

/// The round-trip dimensions the probe of `kind` passes on `target`.
pub fn probe_kind(target: TargetIsa, kind: &str) -> (p: KindProbe)
    requires
        is_kind(kind@),
    ensures
        p == rt_flags(probe_spec(kind@), target),
{
    let r = verify_ops(probe_ops(kind), target);
    KindProbe {
        encoder: r.encode_ok,
        decoder: r.decode_ok,
        literal: r.literal_match,
        semantic: r.semantic_match,
    }
}


// ---------------------------------------------------------------------------
// Coverage per target
// ---------------------------------------------------------------------------

/// Whether `kind` passes dimension `dim` on `target`: 0 encoder, 1 decoder,
/// 2 literal, 3 semantic, 4 execution, 5 differential.
#[verifier::opaque]
pub open spec fn kind_passes(target: TargetIsa, kind: Seq<char>, dim: int) -> bool {
    let p = rt_flags(probe_spec(kind), target);
    if dim == 0 {
        p.encoder
    } else if dim == 1 {
        p.decoder
    } else if dim == 2 {
        p.literal
    } else if dim == 3 {
        p.semantic
    } else if dim == 4 {
        execute_kind_spec(target, kind)
    } else {
        differential_kind_spec(target, kind)
    }
}

/// How many of `kinds` pass dimension `dim` on `target`.
pub open spec fn dim_count(kinds: Seq<Seq<char>>, target: TargetIsa, dim: int) -> nat
    decreases kinds.len(),
{
    if kinds.len() == 0 {
        0
    } else {
        dim_count(kinds.drop_last(), target, dim) + if kind_passes(target, kinds.last(), dim) {
            1nat
        } else {
            0nat
        }
    }
}

/// The kinds of `kinds` whose round trip is semantic on `target`.
pub open spec fn covered_kinds(kinds: Seq<Seq<char>>, target: TargetIsa) -> Seq<Seq<char>>
    decreases kinds.len(),
{
    if kinds.len() == 0 {
        Seq::empty()
    } else if kind_passes(target, kinds.last(), 3) {
        covered_kinds(kinds.drop_last(), target).push(kinds.last())
    } else {
        covered_kinds(kinds.drop_last(), target)
    }
}

/// `c` of the twelve kinds, as a percentage rounded to the nearest integer.
pub open spec fn pct(c: nat) -> u32 {
    ((c * 100 + 6) / 12) as u32
}

/// FULL when every kind round-trips semantically, PARTIAL when some do,
/// PENDING when only the encoder works, NONE otherwise.
pub open spec fn status_text(semantic_pct: u32, encoder_pct: u32) -> Seq<char> {
    if semantic_pct == 100 {
        "FULL"@
    } else if semantic_pct > 0 {
        "PARTIAL"@
    } else if encoder_pct > 0 {
        "PENDING"@
    } else {
        "NONE"@
    }
}

/// Per-ISA coverage by dimension: no single preservation score.
#[derive(Debug, Clone)]
pub struct Coverage {
    pub target: TargetIsa,
    pub has_decoder: bool,
    pub encoder_pct: u32,
    pub decoder_pct: u32,
    pub literal_pct: u32,
    pub semantic_pct: u32,
    /// Kinds the reference executor runs.
    pub execute_pct: u32,
    /// Kinds whose reference and round-tripped executions agree, including edge
    /// immediates and state.
    pub differential_pct: u32,
    /// Kinds that round-trip semantically.
    pub covered: Vec<&'static str>,
    /// FULL | PARTIAL | PENDING | NONE.
    pub status: &'static str,
}

/// `c` is the coverage of `target`.
pub open spec fn coverage_spec(c: Coverage, target: TargetIsa) -> bool {
    &&& c.target == target
    &&& c.has_decoder == decodable(target)
    &&& c.encoder_pct == pct(dim_count(kind_list(), target, 0))
    &&& c.decoder_pct == pct(dim_count(kind_list(), target, 1))
    &&& c.literal_pct == pct(dim_count(kind_list(), target, 2))
    &&& c.semantic_pct == pct(dim_count(kind_list(), target, 3))
    &&& c.execute_pct == pct(dim_count(kind_list(), target, 4))
    &&& c.differential_pct == pct(dim_count(kind_list(), target, 5))
    &&& Seq::new(c.covered@.len(), |i: int| c.covered@[i]@) == covered_kinds(kind_list(), target)
    &&& c.status@ == status_text(c.semantic_pct, c.encoder_pct)
}

proof fn lemma_key_not_gap(op: OpModel)
    requires
        !(op is Unknown),
    ensures
        key(op) != "gap"@,
{
    reveal_strlit("gap");
    reveal_strlit("nop");
    reveal_strlit("ret");
    reveal_strlit("movimm(");
    reveal_strlit("addimm(");
    reveal_strlit("push(");
    reveal_strlit("pop(");
    reveal_strlit("call(");
    reveal_strlit("jmp(");
    reveal_strlit("ldmem(");
    reveal_strlit("stmem(");
    let k = key(op);
    if k.len() == 3 {
        assert(k[0] != 'g');
    }
}

/// Per kind, a literal round trip is semantic, a semantic one decodes without
/// gaps, and one that decodes was encoded.
proof fn lemma_passes_ordered(target: TargetIsa, kind: Seq<char>)
    ensures
        kind_passes(target, kind, 2) ==> kind_passes(target, kind, 3),
        kind_passes(target, kind, 3) ==> kind_passes(target, kind, 1),
        kind_passes(target, kind, 1) ==> kind_passes(target, kind, 0),
{
    reveal(kind_passes);
    let m = probe_spec(kind);
    assert(m.len() == 1 && !(m[0] is Unknown));
    if let Ok(b) = enc_ops(m, target) {
        if let Ok(out) = decode_spec(b, target) {
            if sem_equal(m, out) {
                lemma_key_not_gap(m[0]);
                assert(key(m[0]) == key(out[0]));
                assert(!(out[0] is Unknown));
                assert(no_gaps(out));
            }
        }
    }
}

proof fn lemma_counts_ordered(kinds: Seq<Seq<char>>, target: TargetIsa)
    ensures
        dim_count(kinds, target, 2) <= dim_count(kinds, target, 3),
        dim_count(kinds, target, 3) <= dim_count(kinds, target, 1),
        dim_count(kinds, target, 1) <= dim_count(kinds, target, 0),
    decreases kinds.len(),
{
    if kinds.len() > 0 {
        lemma_counts_ordered(kinds.drop_last(), target);
        lemma_passes_ordered(target, kinds.last());
    }
}

proof fn lemma_pct_ordered(a: nat, b: nat)
    requires
        a <= b <= 12,
    ensures
        pct(a) <= pct(b),
{
    vstd::arithmetic::div_mod::lemma_div_is_ordered((a * 100 + 6) as int, (b * 100 + 6) as int, 12);
    assert((b * 100 + 6) / 12 <= 100);
}

/// The coverage of a target: its status is FULL at a semantic 100%, PARTIAL
/// below it but above 0%, PENDING at a semantic 0% with a working encoder and
/// NONE otherwise; and the percentages are ordered literal ≤ semantic ≤
/// decoder ≤ encoder.
pub proof fn lemma_coverage_ordered(c: Coverage, target: TargetIsa)
    requires
        coverage_spec(c, target),
    ensures
        c.status@ == (if c.semantic_pct == 100 {
            "FULL"@
        } else if c.semantic_pct > 0 {
            "PARTIAL"@
        } else if c.encoder_pct > 0 {
            "PENDING"@
        } else {
            "NONE"@
        }),
        c.literal_pct <= c.semantic_pct,
        c.semantic_pct <= c.decoder_pct,
        c.decoder_pct <= c.encoder_pct,
        c.has_decoder == decodable(target),
{
    let kinds = kind_list();
    lemma_counts_ordered(kinds, target);
    lemma_dim_count_bound(kinds, target, 0);
    lemma_pct_ordered(dim_count(kinds, target, 2), dim_count(kinds, target, 3));
    lemma_pct_ordered(dim_count(kinds, target, 3), dim_count(kinds, target, 1));
    lemma_pct_ordered(dim_count(kinds, target, 1), dim_count(kinds, target, 0));
}

fn percent(c: usize) -> (p: u32)
    requires
        c <= 12,
    ensures
        p == pct(c as nat),
{
    ((c * 100 + 6) / 12) as u32
}

proof fn lemma_dim_count_bound(kinds: Seq<Seq<char>>, target: TargetIsa, dim: int)
    ensures
        dim_count(kinds, target, dim) <= kinds.len(),
    decreases kinds.len(),
{
    if kinds.len() > 0 {
        lemma_dim_count_bound(kinds.drop_last(), target, dim);
    }
}

/// Coverage of `target` over the twelve kinds.
pub fn coverage(target: TargetIsa) -> (c: Coverage)
    ensures
        coverage_spec(c, target),
{
    let ghost kinds = kind_list();
    let mut counts: [usize; 6] = [0, 0, 0, 0, 0, 0];
    let mut covered: Vec<&'static str> = Vec::new();
    let mut k: usize = 0;
    assert(SIR_OP_KINDS@ =~= seq![
        SIR_OP_KINDS[0],
        SIR_OP_KINDS[1],
        SIR_OP_KINDS[2],
        SIR_OP_KINDS[3],
        SIR_OP_KINDS[4],
        SIR_OP_KINDS[5],
        SIR_OP_KINDS[6],
        SIR_OP_KINDS[7],
        SIR_OP_KINDS[8],
        SIR_OP_KINDS[9],
        SIR_OP_KINDS[10],
        SIR_OP_KINDS[11],
    ]);
    while k < 12
        invariant
            k <= 12,
            kinds == kind_list(),
            forall|d: int| 0 <= d < 6 ==> #[trigger] counts[d] == dim_count(kinds.subrange(0, k as int), target, d),
            Seq::new(covered@.len(), |i: int| covered@[i]@) == covered_kinds(kinds.subrange(0, k as int), target),
        decreases 12 - k,
    {
        let kind = SIR_OP_KINDS[k];
        assert(kind@ == kinds[k as int]);
        assert(is_kind(kind@)) by {
            assert(kinds[k as int] == kind@);
        }
        let ghost pre = kinds.subrange(0, k as int);
        let ghost now = kinds.subrange(0, k as int + 1);
        proof {
            assert(now.drop_last() =~= pre);
            assert(now.last() == kind@);
            assert forall|d: int| 0 <= d < 6 implies dim_count(pre, target, d) <= k by {
                lemma_dim_count_bound(pre, target, d);
            }
        }
        let p = probe_kind(target, kind);
        let e = execute_kind(target, kind);
        let f = differential_kind(target, kind);
        let flags: [bool; 6] = [p.encoder, p.decoder, p.literal, p.semantic, e, f];
        proof {
            reveal(kind_passes);
        }
        let mut d: usize = 0;
        while d < 6
            invariant
                d <= 6,
                k < 12,
                forall|j: int| 0 <= j < d ==> #[trigger] counts[j] == dim_count(now, target, j),
                forall|j: int| d <= j < 6 ==> #[trigger] counts[j] == dim_count(pre, target, j),
                forall|j: int| 0 <= j < 6 ==> dim_count(pre, target, j) <= k,
                forall|j: int| 0 <= j < 6 ==> #[trigger] flags[j] == kind_passes(target, kind@, j),
                now.len() == k + 1,
                now.drop_last() == pre,
                now.last() == kind@,
            decreases 6 - d,
        {
            assert(dim_count(now, target, d as int) == dim_count(pre, target, d as int) + if kind_passes(
                target,
                kind@,
                d as int,
            ) {
                1nat
            } else {
                0nat
            });
            if flags[d] {
                counts[d] = counts[d] + 1;
            }
            d = d + 1;
        }
        assert(p.semantic == kind_passes(target, kind@, 3)) by {
            reveal(kind_passes);
        }
        if p.semantic {
            let ghost before = covered@;
            covered.push(kind);
            proof {
                assert(Seq::new(covered@.len(), |i: int| covered@[i]@) =~= Seq::new(
                    before.len(),
                    |i: int| before[i]@,
                ).push(kind@));
            }
        }
        k = k + 1;
    }
    proof {
        assert(kinds.subrange(0, 12) =~= kinds);
        assert forall|d: int| 0 <= d < 6 implies dim_count(kinds, target, d) <= 12 by {
            lemma_dim_count_bound(kinds, target, d);
        }
    }
    let encoder_pct = percent(counts[0]);
    let decoder_pct = percent(counts[1]);
    let literal_pct = percent(counts[2]);
    let semantic_pct = percent(counts[3]);
    let execute_pct = percent(counts[4]);
    let differential_pct = percent(counts[5]);
    let status = if semantic_pct == 100 {
        "FULL"
    } else if semantic_pct > 0 {
        "PARTIAL"
    } else if encoder_pct > 0 {
        "PENDING"
    } else {
        "NONE"
    };
    Coverage {
        target,
        has_decoder: crate::decode::has_decoder(target),
        encoder_pct,
        decoder_pct,
        literal_pct,
        semantic_pct,
        execute_pct,
        differential_pct,
        covered,
        status,
    }
}

/// Coverage of every canonical target, in catalog order.
pub fn all_coverages() -> (v: Vec<Coverage>)
    ensures
        v@.len() == TargetIsa::canonical().len(),
        forall|i: int| 0 <= i < v@.len() ==> coverage_spec(#[trigger] v@[i], TargetIsa::canonical()[i]),
{
    let targets = TargetIsa::all_canonical();
    let mut v: Vec<Coverage> = Vec::new();
    let mut i: usize = 0;
    while i < targets.len()
        invariant
            targets@ == TargetIsa::canonical(),
            i <= targets@.len(),
            v@.len() == i,
            forall|j: int| 0 <= j < i ==> coverage_spec(#[trigger] v@[j], TargetIsa::canonical()[j]),
        decreases targets@.len() - i,
    {
        v.push(coverage(targets[i]));
        i = i + 1;
    }
    v
}


/// ABI, privileged, MMU and system axes are not modeled yet: always 0.
pub const UNMODELED_AXES: &'static str =
    "abi=0% \u{b7} privileged=0% \u{b7} mmu=0% \u{b7} system=0% (not modeled \u{2014} separate axes)";

/// Header of the coverage table.
pub open spec fn table_header() -> Seq<char> {
    "| ISA | enc | dec | literal | semantic | exec | differential | status |\n|---|---|---|---|---|---|---|---|\n"@
}

/// One row of the coverage table.
pub open spec fn row_text(target: TargetIsa) -> Seq<char> {
    let p = |d: int| pct(dim_count(kind_list(), target, d));
    "| "@ + target.label() + " | "@ + dec(p(0) as nat) + "% | "@ + dec(p(1) as nat) + "% | "@ + dec(
        p(2) as nat,
    ) + "% | "@ + dec(p(3) as nat) + "% | "@ + dec(p(4) as nat) + "% | "@ + dec(p(5) as nat)
        + "% | "@ + status_text(p(3), p(0)) + " |\n"@
}

/// The rows of `targets`.
pub open spec fn rows_text(targets: Seq<TargetIsa>) -> Seq<char>
    decreases targets.len(),
{
    if targets.len() == 0 {
        Seq::empty()
    } else {
        rows_text(targets.drop_last()) + row_text(targets.last())
    }
}

/// The coverage table: header, one row per canonical target, and the
/// unmodeled axes.
pub open spec fn table_text() -> Seq<char> {
    table_header() + rows_text(TargetIsa::canonical()) + "\n"@ + UNMODELED_AXES@ + "\n"@
}

fn push_pct(s: &mut String, v: u32)
    ensures
        final(s)@ == old(s)@ + dec(v as nat) + "% | "@,
{
    push_dec(s, v as u64);
    s.append("% | ");
}

/// The coverage table of all canonical targets, as Markdown.
#[verifier::rlimit(40)]
pub fn coverage_table() -> (t: String)
    ensures
        t@ == table_text(),
{
    let mut out = text(
        "| ISA | enc | dec | literal | semantic | exec | differential | status |\n|---|---|---|---|---|---|---|---|\n",
    );
    let all = all_coverages();
    let ghost targets = TargetIsa::canonical();
    let mut i: usize = 0;
    while i < all.len()
        invariant
            i <= all@.len(),
            all@.len() == targets.len(),
            targets == TargetIsa::canonical(),
            forall|j: int| 0 <= j < all@.len() ==> coverage_spec(#[trigger] all@[j], targets[j]),
            out@ == table_header() + rows_text(targets.subrange(0, i as int)),
        decreases all@.len() - i,
    {
        let c = &all[i];
        assert(coverage_spec(*c, targets[i as int]));
        let ghost before = out@;
        out.append("| ");
        out.append(c.target.name());
        out.append(" | ");
        push_pct(&mut out, c.encoder_pct);
        push_pct(&mut out, c.decoder_pct);
        push_pct(&mut out, c.literal_pct);
        push_pct(&mut out, c.semantic_pct);
        push_pct(&mut out, c.execute_pct);
        push_pct(&mut out, c.differential_pct);
        out.append(c.status);
        out.append(" |\n");
        proof {
            let sub = targets.subrange(0, i as int + 1);
            assert(sub.drop_last() =~= targets.subrange(0, i as int));
            assert(sub.last() == targets[i as int]);
            assert(out@ =~= before + row_text(targets[i as int]));
        }
        i = i + 1;
    }
    out.append("\n");
    out.append(UNMODELED_AXES);
    out.append("\n");
    proof {
        assert(targets.subrange(0, i as int) =~= targets);
        assert(out@ =~= table_text());
    }
    out
}

} // verus!
