//! Textual assembly emitters per target (the SIR subset).

use vstd::prelude::*;

use crate::sir::{Module, Function, Op, OpModel, ops_model};
use crate::target::{SuperHFlavor, TargetIsa};
use crate::text::{dec, hex_alt, sdec, push_dec, push_hex_alt, push_sdec};
use crate::encode::clamp;

verus! {

/// Stated on every emitted file: what the recompiler does not claim.
pub const BANNER: &'static str =
    "honesty: static_recomp_complete=false win32_abi_complete=false runs_any_pe=false";

fn clamp_reg(r: u32, hi: u32) -> (c: u32)
    ensures
        c == clamp(r, hi),
{
    if r <= hi { r } else { hi }
}

/// x86 name of a 32-bit register (`eax` for numbers above 7).
pub open spec fn x64_reg_text(r: u32) -> Seq<char> {
    if r == 0 {
        "eax"@
    } else if r == 1 {
        "ecx"@
    } else if r == 2 {
        "edx"@
    } else if r == 3 {
        "ebx"@
    } else if r == 4 {
        "esp"@
    } else if r == 5 {
        "ebp"@
    } else if r == 6 {
        "esi"@
    } else if r == 7 {
        "edi"@
    } else {
        "eax"@
    }
}

/// Assembly name of register `r` on `isa`.
pub open spec fn reg_text(isa: TargetIsa, r: u32) -> Seq<char> {
    match isa {
        TargetIsa::X86_64 => x64_reg_text(r),
        TargetIsa::Arm => "r"@ + dec(clamp(r, 12) as nat),
        TargetIsa::AArch64 => "w"@ + dec(clamp(r, 30) as nat),
        TargetIsa::Mips => "$t"@ + dec(clamp(r, 7) as nat),
        TargetIsa::Ppc => "r"@ + dec(clamp(r, 31) as nat),
        TargetIsa::Sparc => "%l"@ + dec(clamp(r, 7) as nat),
        TargetIsa::SuperH(_) => "r"@ + dec(clamp(r, 15) as nat),
        TargetIsa::Alpha => "$"@ + dec(clamp(r, 30) as nat),
        TargetIsa::PaRisc => "%r"@ + dec((3 + clamp(r, 28)) as nat),
        TargetIsa::M88k | TargetIsa::Ia64 | TargetIsa::I860 => "r"@ + dec(clamp(r, 31) as nat),
        TargetIsa::ColdFire => "%d"@ + dec(clamp(r, 7) as nat),
    }
}

fn push_reg(s: &mut String, isa: TargetIsa, r: u32)
    ensures
        final(s)@ == old(s)@ + reg_text(isa, r),
{
    match isa {
        TargetIsa::X86_64 => {
            let name = if r == 0 {
                "eax"
            } else if r == 1 {
                "ecx"
            } else if r == 2 {
                "edx"
            } else if r == 3 {
                "ebx"
            } else if r == 4 {
                "esp"
            } else if r == 5 {
                "ebp"
            } else if r == 6 {
                "esi"
            } else if r == 7 {
                "edi"
            } else {
                "eax"
            };
            s.append(name);
        },
        TargetIsa::Arm => {
            s.append("r");
            push_dec(s, clamp_reg(r, 12) as u64);
        },
        TargetIsa::AArch64 => {
            s.append("w");
            push_dec(s, clamp_reg(r, 30) as u64);
        },
        TargetIsa::Mips => {
            s.append("$t");
            push_dec(s, clamp_reg(r, 7) as u64);
        },
        TargetIsa::Ppc => {
            s.append("r");
            push_dec(s, clamp_reg(r, 31) as u64);
        },
        TargetIsa::Sparc => {
            s.append("%l");
            push_dec(s, clamp_reg(r, 7) as u64);
        },
        TargetIsa::SuperH(_) => {
            s.append("r");
            push_dec(s, clamp_reg(r, 15) as u64);
        },
        TargetIsa::Alpha => {
            s.append("$");
            push_dec(s, clamp_reg(r, 30) as u64);
        },
        TargetIsa::PaRisc => {
            s.append("%r");
            push_dec(s, (3 + clamp_reg(r, 28)) as u64);
        },
        TargetIsa::M88k | TargetIsa::Ia64 | TargetIsa::I860 => {
            s.append("r");
            push_dec(s, clamp_reg(r, 31) as u64);
        },
        TargetIsa::ColdFire => {
            s.append("%d");
            push_dec(s, clamp_reg(r, 7) as u64);
        },
    }
}

/// `Debug` text of an optional address.
pub open spec fn opt_dbg(t: Option<u64>) -> Seq<char> {
    match t {
        Some(v) => "Some("@ + dec(v as nat) + ")"@,
        None => "None"@,
    }
}

fn push_opt(s: &mut String, t: &Option<u64>)
    ensures
        final(s)@ == old(s)@ + opt_dbg(*t),
{
    match t {
        Some(v) => {
            s.append("Some(");
            push_dec(s, *v);
            s.append(")");
        },
        None => s.append("None"),
    }
}

/// x86 text of the operations without an x86 instruction here: unresolved
/// branches, gaps and memory operations trap.
pub open spec fn x86_other_text(op: OpModel) -> Seq<char> {
    match op {
        OpModel::CallRel { rel, target, .. } => "  /* call rel="@ + sdec(rel as int) + " target="@
            + opt_dbg(target) + " \u{2014} unresolved symbol */\n  ud2\n"@,
        OpModel::JmpRel { rel, target, .. } => "  /* jmp rel="@ + sdec(rel as int) + " target="@
            + opt_dbg(target) + " \u{2014} unresolved label */\n  ud2\n"@,
        OpModel::Unknown { offset, note, .. } => "  /* gap @"@ + dec(offset as nat) + ": "@ + note
            + " */\n  ud2\n"@,
        OpModel::LdMem { .. } => "  /* ldmem pending */\n  ud2\n"@,
        OpModel::StMem { .. } => "  /* stmem pending */\n  ud2\n"@,
        _ => Seq::empty(),
    }
}

fn push_x86_other(s: &mut String, op: &Op)
    ensures
        final(s)@ == old(s)@ + x86_other_text(op@),
{
    match op {
        Op::CallRel { rel, target, .. } => {
            s.append("  /* call rel=");
            push_sdec(s, *rel as i64);
            s.append(" target=");
            push_opt(s, target);
            s.append(" \u{2014} unresolved symbol */\n  ud2\n");
        },
        Op::JmpRel { rel, target, .. } => {
            s.append("  /* jmp rel=");
            push_sdec(s, *rel as i64);
            s.append(" target=");
            push_opt(s, target);
            s.append(" \u{2014} unresolved label */\n  ud2\n");
        },
        Op::Unknown { offset, note, .. } => {
            s.append("  /* gap @");
            push_dec(s, *offset);
            s.append(": ");
            s.append(note.as_str());
            s.append(" */\n  ud2\n");
        },
        Op::LdMem { .. } => s.append("  /* ldmem pending */\n  ud2\n"),
        Op::StMem { .. } => s.append("  /* stmem pending */\n  ud2\n"),
        _ => {
            assert(old(s)@ + x86_other_text(op@) =~= old(s)@);
        },
    }
}

/// Text of the operations without an instruction on a target: a comment
/// (prefix `c`) and a filler `nop` for branches, a comment and the trap
/// instruction `trap` for gaps and pending memory operations.
pub open spec fn other_text(c: Seq<char>, trap: Seq<char>, op: OpModel) -> Seq<char> {
    match op {
        OpModel::CallRel { rel, target, .. } => "  "@ + c + " call rel "@ + sdec(rel as int)
            + " target="@ + opt_dbg(target) + "\n  nop\n"@,
        OpModel::JmpRel { rel, target, .. } => "  "@ + c + " jmp rel "@ + sdec(rel as int)
            + " target="@ + opt_dbg(target) + "\n  nop\n"@,
        OpModel::Unknown { offset, note, .. } => "  "@ + c + " gap @"@ + dec(offset as nat) + ": "@
            + note + "\n  "@ + trap + "\n"@,
        OpModel::LdMem { .. } => "  "@ + c + " ldmem pending\n  "@ + trap + "\n"@,
        OpModel::StMem { .. } => "  "@ + c + " stmem pending\n  "@ + trap + "\n"@,
        _ => Seq::empty(),
    }
}

fn push_other(s: &mut String, c: &str, trap: &str, op: &Op)
    ensures
        final(s)@ == old(s)@ + other_text(c@, trap@, op@),
{
    match op {
        Op::CallRel { rel, target, .. } => {
            s.append("  ");
            s.append(c);
            s.append(" call rel ");
            push_sdec(s, *rel as i64);
            s.append(" target=");
            push_opt(s, target);
            s.append("\n  nop\n");
        },
        Op::JmpRel { rel, target, .. } => {
            s.append("  ");
            s.append(c);
            s.append(" jmp rel ");
            push_sdec(s, *rel as i64);
            s.append(" target=");
            push_opt(s, target);
            s.append("\n  nop\n");
        },
        Op::Unknown { offset, note, .. } => {
            s.append("  ");
            s.append(c);
            s.append(" gap @");
            push_dec(s, *offset);
            s.append(": ");
            s.append(note.as_str());
            s.append("\n  ");
            s.append(trap);
            s.append("\n");
        },
        Op::LdMem { .. } => {
            s.append("  ");
            s.append(c);
            s.append(" ldmem pending\n  ");
            s.append(trap);
            s.append("\n");
        },
        Op::StMem { .. } => {
            s.append("  ");
            s.append(c);
            s.append(" stmem pending\n  ");
            s.append(trap);
            s.append("\n");
        },
        _ => {
            assert(old(s)@ + other_text(c@, trap@, op@) =~= old(s)@);
        },
    }
}

/// X86_64 assembly text of one operation.
pub open spec fn x86_op_text(op: OpModel) -> Seq<char> {
    match op {
        OpModel::Nop => "  nop\n"@,
        OpModel::Ret => "  ret\n"@,
        OpModel::MovImm { dst, imm } => "  mov $"@ + hex_alt(imm as nat, 0) + ", %"@ + reg_text(TargetIsa::X86_64, dst) + "\n"@,
        OpModel::AddImm { dst, imm } => "  add $"@ + hex_alt(imm as nat, 0) + ", %"@ + reg_text(TargetIsa::X86_64, dst) + "\n"@,
        OpModel::SubImm { dst, imm } => "  sub $"@ + hex_alt(imm as nat, 0) + ", %"@ + reg_text(TargetIsa::X86_64, dst) + "\n"@,
        OpModel::Clear { dst } => "  xor %"@ + reg_text(TargetIsa::X86_64, dst) + ", %"@ + reg_text(TargetIsa::X86_64, dst) + "\n"@,
        OpModel::Inc { dst } => "  inc %"@ + reg_text(TargetIsa::X86_64, dst) + "\n"@,
        OpModel::Dec { dst } => "  dec %"@ + reg_text(TargetIsa::X86_64, dst) + "\n"@,
        OpModel::Push { src } => "  push %"@ + reg_text(TargetIsa::X86_64, src) + "\n"@,
        OpModel::Pop { dst } => "  pop %"@ + reg_text(TargetIsa::X86_64, dst) + "\n"@,
        _ => x86_other_text(op),
    }
}

fn push_x86_op(s: &mut String, op: &Op)
    ensures
        final(s)@ == old(s)@ + x86_op_text(op@),
{
    let ghost start = s@;
    match op {
        Op::Nop => {
            s.append("  nop\n");
        },
        Op::Ret => {
            s.append("  ret\n");
        },
        Op::MovImm { dst, imm } => {
            s.append("  mov $");
            push_hex_alt(s, *imm as u64, 0);
            s.append(", %");
            push_reg(s, TargetIsa::X86_64, dst.0);
            s.append("\n");
        },
        Op::AddImm { dst, imm } => {
            s.append("  add $");
            push_hex_alt(s, *imm as u64, 0);
            s.append(", %");
            push_reg(s, TargetIsa::X86_64, dst.0);
            s.append("\n");
        },
        Op::SubImm { dst, imm } => {
            s.append("  sub $");
            push_hex_alt(s, *imm as u64, 0);
            s.append(", %");
            push_reg(s, TargetIsa::X86_64, dst.0);
            s.append("\n");
        },
        Op::Clear { dst } => {
            s.append("  xor %");
            push_reg(s, TargetIsa::X86_64, dst.0);
            s.append(", %");
            push_reg(s, TargetIsa::X86_64, dst.0);
            s.append("\n");
        },
        Op::Inc { dst } => {
            s.append("  inc %");
            push_reg(s, TargetIsa::X86_64, dst.0);
            s.append("\n");
        },
        Op::Dec { dst } => {
            s.append("  dec %");
            push_reg(s, TargetIsa::X86_64, dst.0);
            s.append("\n");
        },
        Op::Push { src } => {
            s.append("  push %");
            push_reg(s, TargetIsa::X86_64, src.0);
            s.append("\n");
        },
        Op::Pop { dst } => {
            s.append("  pop %");
            push_reg(s, TargetIsa::X86_64, dst.0);
            s.append("\n");
        },
        _ => push_x86_other(s, op),
    }
    proof {
        assert(s@ =~= start + x86_op_text(op@));
    }
}

/// Arm assembly text of one operation.
pub open spec fn arm_op_text(op: OpModel) -> Seq<char> {
    match op {
        OpModel::Nop => "  nop\n"@,
        OpModel::Ret => "  bx lr\n"@,
        OpModel::MovImm { dst, imm } => "  mov "@ + reg_text(TargetIsa::Arm, dst) + ", #"@ + dec(imm as nat) + "\n"@,
        OpModel::AddImm { dst, imm } => "  add "@ + reg_text(TargetIsa::Arm, dst) + ", "@ + reg_text(TargetIsa::Arm, dst) + ", #"@ + dec(imm as nat) + "\n"@,
        OpModel::SubImm { dst, imm } => "  sub "@ + reg_text(TargetIsa::Arm, dst) + ", "@ + reg_text(TargetIsa::Arm, dst) + ", #"@ + dec(imm as nat) + "\n"@,
        OpModel::Clear { dst } => "  mov "@ + reg_text(TargetIsa::Arm, dst) + ", #0\n"@,
        OpModel::Inc { dst } => "  add "@ + reg_text(TargetIsa::Arm, dst) + ", "@ + reg_text(TargetIsa::Arm, dst) + ", #1\n"@,
        OpModel::Dec { dst } => "  sub "@ + reg_text(TargetIsa::Arm, dst) + ", "@ + reg_text(TargetIsa::Arm, dst) + ", #1\n"@,
        OpModel::Push { src } => "  push {"@ + reg_text(TargetIsa::Arm, src) + "}\n"@,
        OpModel::Pop { dst } => "  pop {"@ + reg_text(TargetIsa::Arm, dst) + "}\n"@,
        _ => other_text("@"@, "udf #0"@, op),
    }
}

fn push_arm_op(s: &mut String, op: &Op)
    ensures
        final(s)@ == old(s)@ + arm_op_text(op@),
{
    let ghost start = s@;
    match op {
        Op::Nop => {
            s.append("  nop\n");
        },
        Op::Ret => {
            s.append("  bx lr\n");
        },
        Op::MovImm { dst, imm } => {
            s.append("  mov ");
            push_reg(s, TargetIsa::Arm, dst.0);
            s.append(", #");
            push_dec(s, *imm as u64);
            s.append("\n");
        },
        Op::AddImm { dst, imm } => {
            s.append("  add ");
            push_reg(s, TargetIsa::Arm, dst.0);
            s.append(", ");
            push_reg(s, TargetIsa::Arm, dst.0);
            s.append(", #");
            push_dec(s, *imm as u64);
            s.append("\n");
        },
        Op::SubImm { dst, imm } => {
            s.append("  sub ");
            push_reg(s, TargetIsa::Arm, dst.0);
            s.append(", ");
            push_reg(s, TargetIsa::Arm, dst.0);
            s.append(", #");
            push_dec(s, *imm as u64);
            s.append("\n");
        },
        Op::Clear { dst } => {
            s.append("  mov ");
            push_reg(s, TargetIsa::Arm, dst.0);
            s.append(", #0\n");
        },
        Op::Inc { dst } => {
            s.append("  add ");
            push_reg(s, TargetIsa::Arm, dst.0);
            s.append(", ");
            push_reg(s, TargetIsa::Arm, dst.0);
            s.append(", #1\n");
        },
        Op::Dec { dst } => {
            s.append("  sub ");
            push_reg(s, TargetIsa::Arm, dst.0);
            s.append(", ");
            push_reg(s, TargetIsa::Arm, dst.0);
            s.append(", #1\n");
        },
        Op::Push { src } => {
            s.append("  push {");
            push_reg(s, TargetIsa::Arm, src.0);
            s.append("}\n");
        },
        Op::Pop { dst } => {
            s.append("  pop {");
            push_reg(s, TargetIsa::Arm, dst.0);
            s.append("}\n");
        },
        _ => push_other(s, "@", "udf #0", op),
    }
    proof {
        assert(s@ =~= start + arm_op_text(op@));
    }
}

/// AArch64 assembly text of one operation.
pub open spec fn aarch64_op_text(op: OpModel) -> Seq<char> {
    match op {
        OpModel::Nop => "  nop\n"@,
        OpModel::Ret => "  ret\n"@,
        OpModel::MovImm { dst, imm } => "  mov "@ + reg_text(TargetIsa::AArch64, dst) + ", #"@ + dec(imm as nat) + "\n"@,
        OpModel::AddImm { dst, imm } => "  add "@ + reg_text(TargetIsa::AArch64, dst) + ", "@ + reg_text(TargetIsa::AArch64, dst) + ", #"@ + dec(imm as nat) + "\n"@,
        OpModel::SubImm { dst, imm } => "  sub "@ + reg_text(TargetIsa::AArch64, dst) + ", "@ + reg_text(TargetIsa::AArch64, dst) + ", #"@ + dec(imm as nat) + "\n"@,
        OpModel::Clear { dst } => "  mov "@ + reg_text(TargetIsa::AArch64, dst) + ", wzr\n"@,
        OpModel::Inc { dst } => "  add "@ + reg_text(TargetIsa::AArch64, dst) + ", "@ + reg_text(TargetIsa::AArch64, dst) + ", #1\n"@,
        OpModel::Dec { dst } => "  sub "@ + reg_text(TargetIsa::AArch64, dst) + ", "@ + reg_text(TargetIsa::AArch64, dst) + ", #1\n"@,
        OpModel::Push { src } => "  str "@ + "x"@ + dec(clamp(src, 30) as nat) + ", [sp, #-16]!\n"@,
        OpModel::Pop { dst } => "  ldr "@ + "x"@ + dec(clamp(dst, 30) as nat) + ", [sp], #16\n"@,
        _ => other_text("//"@, "brk #0"@, op),
    }
}

fn push_aarch64_op(s: &mut String, op: &Op)
    ensures
        final(s)@ == old(s)@ + aarch64_op_text(op@),
{
    let ghost start = s@;
    match op {
        Op::Nop => {
            s.append("  nop\n");
        },
        Op::Ret => {
            s.append("  ret\n");
        },
        Op::MovImm { dst, imm } => {
            s.append("  mov ");
            push_reg(s, TargetIsa::AArch64, dst.0);
            s.append(", #");
            push_dec(s, *imm as u64);
            s.append("\n");
        },
        Op::AddImm { dst, imm } => {
            s.append("  add ");
            push_reg(s, TargetIsa::AArch64, dst.0);
            s.append(", ");
            push_reg(s, TargetIsa::AArch64, dst.0);
            s.append(", #");
            push_dec(s, *imm as u64);
            s.append("\n");
        },
        Op::SubImm { dst, imm } => {
            s.append("  sub ");
            push_reg(s, TargetIsa::AArch64, dst.0);
            s.append(", ");
            push_reg(s, TargetIsa::AArch64, dst.0);
            s.append(", #");
            push_dec(s, *imm as u64);
            s.append("\n");
        },
        Op::Clear { dst } => {
            s.append("  mov ");
            push_reg(s, TargetIsa::AArch64, dst.0);
            s.append(", wzr\n");
        },
        Op::Inc { dst } => {
            s.append("  add ");
            push_reg(s, TargetIsa::AArch64, dst.0);
            s.append(", ");
            push_reg(s, TargetIsa::AArch64, dst.0);
            s.append(", #1\n");
        },
        Op::Dec { dst } => {
            s.append("  sub ");
            push_reg(s, TargetIsa::AArch64, dst.0);
            s.append(", ");
            push_reg(s, TargetIsa::AArch64, dst.0);
            s.append(", #1\n");
        },
        Op::Push { src } => {
            s.append("  str ");
            s.append("x");
            push_dec(s, clamp_reg(src.0, 30) as u64);
            s.append(", [sp, #-16]!\n");
        },
        Op::Pop { dst } => {
            s.append("  ldr ");
            s.append("x");
            push_dec(s, clamp_reg(dst.0, 30) as u64);
            s.append(", [sp], #16\n");
        },
        _ => push_other(s, "//", "brk #0", op),
    }
    proof {
        assert(s@ =~= start + aarch64_op_text(op@));
    }
}

/// Mips assembly text of one operation.
pub open spec fn mips_op_text(op: OpModel) -> Seq<char> {
    match op {
        OpModel::Nop => "  nop\n"@,
        OpModel::Ret => "  jr $ra\n  nop\n"@,
        OpModel::MovImm { dst, imm } => "  li "@ + reg_text(TargetIsa::Mips, dst) + ", "@ + dec(imm as nat) + "\n"@,
        OpModel::AddImm { dst, imm } => "  addiu "@ + reg_text(TargetIsa::Mips, dst) + ", "@ + reg_text(TargetIsa::Mips, dst) + ", "@ + dec(imm as nat) + "\n"@,
        OpModel::SubImm { dst, imm } => "  addiu "@ + reg_text(TargetIsa::Mips, dst) + ", "@ + reg_text(TargetIsa::Mips, dst) + ", -"@ + dec(imm as nat) + "\n"@,
        OpModel::Clear { dst } => "  move "@ + reg_text(TargetIsa::Mips, dst) + ", $zero\n"@,
        OpModel::Inc { dst } => "  addiu "@ + reg_text(TargetIsa::Mips, dst) + ", "@ + reg_text(TargetIsa::Mips, dst) + ", 1\n"@,
        OpModel::Dec { dst } => "  addiu "@ + reg_text(TargetIsa::Mips, dst) + ", "@ + reg_text(TargetIsa::Mips, dst) + ", -1\n"@,
        OpModel::Push { src } => "  addiu $sp, $sp, -4\n  sw "@ + reg_text(TargetIsa::Mips, src) + ", 0($sp)\n"@,
        OpModel::Pop { dst } => "  lw "@ + reg_text(TargetIsa::Mips, dst) + ", 0($sp)\n  addiu $sp, $sp, 4\n"@,
        _ => other_text("#"@, "break"@, op),
    }
}

fn push_mips_op(s: &mut String, op: &Op)
    ensures
        final(s)@ == old(s)@ + mips_op_text(op@),
{
    let ghost start = s@;
    match op {
        Op::Nop => {
            s.append("  nop\n");
        },
        Op::Ret => {
            s.append("  jr $ra\n  nop\n");
        },
        Op::MovImm { dst, imm } => {
            s.append("  li ");
            push_reg(s, TargetIsa::Mips, dst.0);
            s.append(", ");
            push_dec(s, *imm as u64);
            s.append("\n");
        },
        Op::AddImm { dst, imm } => {
            s.append("  addiu ");
            push_reg(s, TargetIsa::Mips, dst.0);
            s.append(", ");
            push_reg(s, TargetIsa::Mips, dst.0);
            s.append(", ");
            push_dec(s, *imm as u64);
            s.append("\n");
        },
        Op::SubImm { dst, imm } => {
            s.append("  addiu ");
            push_reg(s, TargetIsa::Mips, dst.0);
            s.append(", ");
            push_reg(s, TargetIsa::Mips, dst.0);
            s.append(", -");
            push_dec(s, *imm as u64);
            s.append("\n");
        },
        Op::Clear { dst } => {
            s.append("  move ");
            push_reg(s, TargetIsa::Mips, dst.0);
            s.append(", $zero\n");
        },
        Op::Inc { dst } => {
            s.append("  addiu ");
            push_reg(s, TargetIsa::Mips, dst.0);
            s.append(", ");
            push_reg(s, TargetIsa::Mips, dst.0);
            s.append(", 1\n");
        },
        Op::Dec { dst } => {
            s.append("  addiu ");
            push_reg(s, TargetIsa::Mips, dst.0);
            s.append(", ");
            push_reg(s, TargetIsa::Mips, dst.0);
            s.append(", -1\n");
        },
        Op::Push { src } => {
            s.append("  addiu $sp, $sp, -4\n  sw ");
            push_reg(s, TargetIsa::Mips, src.0);
            s.append(", 0($sp)\n");
        },
        Op::Pop { dst } => {
            s.append("  lw ");
            push_reg(s, TargetIsa::Mips, dst.0);
            s.append(", 0($sp)\n  addiu $sp, $sp, 4\n");
        },
        _ => push_other(s, "#", "break", op),
    }
    proof {
        assert(s@ =~= start + mips_op_text(op@));
    }
}

/// Ppc assembly text of one operation.
pub open spec fn ppc_op_text(op: OpModel) -> Seq<char> {
    match op {
        OpModel::Nop => "  nop\n"@,
        OpModel::Ret => "  blr\n"@,
        OpModel::MovImm { dst, imm } => "  li "@ + reg_text(TargetIsa::Ppc, dst) + ", "@ + dec(imm as nat) + "\n"@,
        OpModel::AddImm { dst, imm } => "  addi "@ + reg_text(TargetIsa::Ppc, dst) + ", "@ + reg_text(TargetIsa::Ppc, dst) + ", "@ + dec(imm as nat) + "\n"@,
        OpModel::SubImm { dst, imm } => "  addi "@ + reg_text(TargetIsa::Ppc, dst) + ", "@ + reg_text(TargetIsa::Ppc, dst) + ", -"@ + dec(imm as nat) + "\n"@,
        OpModel::Clear { dst } => "  li "@ + reg_text(TargetIsa::Ppc, dst) + ", 0\n"@,
        OpModel::Inc { dst } => "  addi "@ + reg_text(TargetIsa::Ppc, dst) + ", "@ + reg_text(TargetIsa::Ppc, dst) + ", 1\n"@,
        OpModel::Dec { dst } => "  addi "@ + reg_text(TargetIsa::Ppc, dst) + ", "@ + reg_text(TargetIsa::Ppc, dst) + ", -1\n"@,
        OpModel::Push { src } => "  stwu "@ + reg_text(TargetIsa::Ppc, src) + ", -16(1)\n"@,
        OpModel::Pop { dst } => "  lwz "@ + reg_text(TargetIsa::Ppc, dst) + ", 0(1)\n  addi 1, 1, 16\n"@,
        _ => other_text("#"@, "trap"@, op),
    }
}

fn push_ppc_op(s: &mut String, op: &Op)
    ensures
        final(s)@ == old(s)@ + ppc_op_text(op@),
{
    let ghost start = s@;
    match op {
        Op::Nop => {
            s.append("  nop\n");
        },
        Op::Ret => {
            s.append("  blr\n");
        },
        Op::MovImm { dst, imm } => {
            s.append("  li ");
            push_reg(s, TargetIsa::Ppc, dst.0);
            s.append(", ");
            push_dec(s, *imm as u64);
            s.append("\n");
        },
        Op::AddImm { dst, imm } => {
            s.append("  addi ");
            push_reg(s, TargetIsa::Ppc, dst.0);
            s.append(", ");
            push_reg(s, TargetIsa::Ppc, dst.0);
            s.append(", ");
            push_dec(s, *imm as u64);
            s.append("\n");
        },
        Op::SubImm { dst, imm } => {
            s.append("  addi ");
            push_reg(s, TargetIsa::Ppc, dst.0);
            s.append(", ");
            push_reg(s, TargetIsa::Ppc, dst.0);
            s.append(", -");
            push_dec(s, *imm as u64);
            s.append("\n");
        },
        Op::Clear { dst } => {
            s.append("  li ");
            push_reg(s, TargetIsa::Ppc, dst.0);
            s.append(", 0\n");
        },
        Op::Inc { dst } => {
            s.append("  addi ");
            push_reg(s, TargetIsa::Ppc, dst.0);
            s.append(", ");
            push_reg(s, TargetIsa::Ppc, dst.0);
            s.append(", 1\n");
        },
        Op::Dec { dst } => {
            s.append("  addi ");
            push_reg(s, TargetIsa::Ppc, dst.0);
            s.append(", ");
            push_reg(s, TargetIsa::Ppc, dst.0);
            s.append(", -1\n");
        },
        Op::Push { src } => {
            s.append("  stwu ");
            push_reg(s, TargetIsa::Ppc, src.0);
            s.append(", -16(1)\n");
        },
        Op::Pop { dst } => {
            s.append("  lwz ");
            push_reg(s, TargetIsa::Ppc, dst.0);
            s.append(", 0(1)\n  addi 1, 1, 16\n");
        },
        _ => push_other(s, "#", "trap", op),
    }
    proof {
        assert(s@ =~= start + ppc_op_text(op@));
    }
}

/// Sparc assembly text of one operation.
pub open spec fn sparc_op_text(op: OpModel) -> Seq<char> {
    match op {
        OpModel::Nop => "  nop\n"@,
        OpModel::Ret => "  retl\n  nop\n"@,
        OpModel::MovImm { dst, imm } => "  mov "@ + dec(imm as nat) + ", "@ + reg_text(TargetIsa::Sparc, dst) + "\n"@,
        OpModel::AddImm { dst, imm } => "  add "@ + reg_text(TargetIsa::Sparc, dst) + ", "@ + dec(imm as nat) + ", "@ + reg_text(TargetIsa::Sparc, dst) + "\n"@,
        OpModel::SubImm { dst, imm } => "  sub "@ + reg_text(TargetIsa::Sparc, dst) + ", "@ + dec(imm as nat) + ", "@ + reg_text(TargetIsa::Sparc, dst) + "\n"@,
        OpModel::Clear { dst } => "  clr "@ + reg_text(TargetIsa::Sparc, dst) + "\n"@,
        OpModel::Inc { dst } => "  inc "@ + reg_text(TargetIsa::Sparc, dst) + "\n"@,
        OpModel::Dec { dst } => "  dec "@ + reg_text(TargetIsa::Sparc, dst) + "\n"@,
        OpModel::Push { src } => "  save %sp, -96, %sp\n  mov "@ + reg_text(TargetIsa::Sparc, src) + ", %l0\n"@,
        OpModel::Pop { dst } => "  mov %l0, "@ + reg_text(TargetIsa::Sparc, dst) + "\n  restore\n"@,
        _ => other_text("!"@, "ta 1"@, op),
    }
}

fn push_sparc_op(s: &mut String, op: &Op)
    ensures
        final(s)@ == old(s)@ + sparc_op_text(op@),
{
    let ghost start = s@;
    match op {
        Op::Nop => {
            s.append("  nop\n");
        },
        Op::Ret => {
            s.append("  retl\n  nop\n");
        },
        Op::MovImm { dst, imm } => {
            s.append("  mov ");
            push_dec(s, *imm as u64);
            s.append(", ");
            push_reg(s, TargetIsa::Sparc, dst.0);
            s.append("\n");
        },
        Op::AddImm { dst, imm } => {
            s.append("  add ");
            push_reg(s, TargetIsa::Sparc, dst.0);
            s.append(", ");
            push_dec(s, *imm as u64);
            s.append(", ");
            push_reg(s, TargetIsa::Sparc, dst.0);
            s.append("\n");
        },
        Op::SubImm { dst, imm } => {
            s.append("  sub ");
            push_reg(s, TargetIsa::Sparc, dst.0);
            s.append(", ");
            push_dec(s, *imm as u64);
            s.append(", ");
            push_reg(s, TargetIsa::Sparc, dst.0);
            s.append("\n");
        },
        Op::Clear { dst } => {
            s.append("  clr ");
            push_reg(s, TargetIsa::Sparc, dst.0);
            s.append("\n");
        },
        Op::Inc { dst } => {
            s.append("  inc ");
            push_reg(s, TargetIsa::Sparc, dst.0);
            s.append("\n");
        },
        Op::Dec { dst } => {
            s.append("  dec ");
            push_reg(s, TargetIsa::Sparc, dst.0);
            s.append("\n");
        },
        Op::Push { src } => {
            s.append("  save %sp, -96, %sp\n  mov ");
            push_reg(s, TargetIsa::Sparc, src.0);
            s.append(", %l0\n");
        },
        Op::Pop { dst } => {
            s.append("  mov %l0, ");
            push_reg(s, TargetIsa::Sparc, dst.0);
            s.append("\n  restore\n");
        },
        _ => push_other(s, "!", "ta 1", op),
    }
    proof {
        assert(s@ =~= start + sparc_op_text(op@));
    }
}

/// SuperH assembly text of one operation.
pub open spec fn superh_op_text(op: OpModel) -> Seq<char> {
    match op {
        OpModel::Nop => "  nop\n"@,
        OpModel::Ret => "  rts\n  nop\n"@,
        OpModel::MovImm { dst, imm } => if imm <= 0x7f {
            "  mov #"@ + dec(imm as nat) + ", "@ + reg_text(TargetIsa::SuperH(SuperHFlavor::Sh2), dst) + "\n"@
        } else {
            "  ! mov imm "@ + hex_alt(imm as nat, 0) + " -> "@ + reg_text(TargetIsa::SuperH(SuperHFlavor::Sh2), dst) + " (literal pool TODO)\n  nop\n"@
        },
        OpModel::AddImm { dst, imm } => if imm <= 0x7f {
            "  add #"@ + dec(imm as nat) + ", "@ + reg_text(TargetIsa::SuperH(SuperHFlavor::Sh2), dst) + "\n"@
        } else {
            "  ! add imm "@ + hex_alt(imm as nat, 0) + " -> "@ + reg_text(TargetIsa::SuperH(SuperHFlavor::Sh2), dst) + " (literal pool TODO)\n  nop\n"@
        },
        OpModel::SubImm { dst, imm } => if imm <= 0x7f {
            "  add #-"@ + dec(imm as nat) + ", "@ + reg_text(TargetIsa::SuperH(SuperHFlavor::Sh2), dst) + "\n"@
        } else {
            "  ! sub imm "@ + hex_alt(imm as nat, 0) + " -> "@ + reg_text(TargetIsa::SuperH(SuperHFlavor::Sh2), dst) + " (literal pool TODO)\n  nop\n"@
        },
        OpModel::Clear { dst } => "  mov #0, "@ + reg_text(TargetIsa::SuperH(SuperHFlavor::Sh2), dst) + "\n"@,
        OpModel::Inc { dst } => "  add #1, "@ + reg_text(TargetIsa::SuperH(SuperHFlavor::Sh2), dst) + "\n"@,
        OpModel::Dec { dst } => "  add #-1, "@ + reg_text(TargetIsa::SuperH(SuperHFlavor::Sh2), dst) + "\n"@,
        OpModel::Push { src } => "  mov.l "@ + reg_text(TargetIsa::SuperH(SuperHFlavor::Sh2), src) + ", @-r15\n"@,
        OpModel::Pop { dst } => "  mov.l @r15+, "@ + reg_text(TargetIsa::SuperH(SuperHFlavor::Sh2), dst) + "\n"@,
        _ => other_text("!"@, "trapa #0"@, op),
    }
}

fn push_superh_op(s: &mut String, op: &Op)
    ensures
        final(s)@ == old(s)@ + superh_op_text(op@),
{
    let ghost start = s@;
    match op {
        Op::Nop => {
            s.append("  nop\n");
        },
        Op::Ret => {
            s.append("  rts\n  nop\n");
        },
        Op::MovImm { dst, imm } => {
            if *imm <= 0x7f {
                s.append("  mov #");
                push_dec(s, *imm as u64);
                s.append(", ");
                push_reg(s, TargetIsa::SuperH(SuperHFlavor::Sh2), dst.0);
                s.append("\n");
            } else {
                s.append("  ! mov imm ");
                push_hex_alt(s, *imm as u64, 0);
                s.append(" -> ");
                push_reg(s, TargetIsa::SuperH(SuperHFlavor::Sh2), dst.0);
                s.append(" (literal pool TODO)\n  nop\n");
            }
        },
        Op::AddImm { dst, imm } => {
            if *imm <= 0x7f {
                s.append("  add #");
                push_dec(s, *imm as u64);
                s.append(", ");
                push_reg(s, TargetIsa::SuperH(SuperHFlavor::Sh2), dst.0);
                s.append("\n");
            } else {
                s.append("  ! add imm ");
                push_hex_alt(s, *imm as u64, 0);
                s.append(" -> ");
                push_reg(s, TargetIsa::SuperH(SuperHFlavor::Sh2), dst.0);
                s.append(" (literal pool TODO)\n  nop\n");
            }
        },
        Op::SubImm { dst, imm } => {
            if *imm <= 0x7f {
                s.append("  add #-");
                push_dec(s, *imm as u64);
                s.append(", ");
                push_reg(s, TargetIsa::SuperH(SuperHFlavor::Sh2), dst.0);
                s.append("\n");
            } else {
                s.append("  ! sub imm ");
                push_hex_alt(s, *imm as u64, 0);
                s.append(" -> ");
                push_reg(s, TargetIsa::SuperH(SuperHFlavor::Sh2), dst.0);
                s.append(" (literal pool TODO)\n  nop\n");
            }
        },
        Op::Clear { dst } => {
            s.append("  mov #0, ");
            push_reg(s, TargetIsa::SuperH(SuperHFlavor::Sh2), dst.0);
            s.append("\n");
        },
        Op::Inc { dst } => {
            s.append("  add #1, ");
            push_reg(s, TargetIsa::SuperH(SuperHFlavor::Sh2), dst.0);
            s.append("\n");
        },
        Op::Dec { dst } => {
            s.append("  add #-1, ");
            push_reg(s, TargetIsa::SuperH(SuperHFlavor::Sh2), dst.0);
            s.append("\n");
        },
        Op::Push { src } => {
            s.append("  mov.l ");
            push_reg(s, TargetIsa::SuperH(SuperHFlavor::Sh2), src.0);
            s.append(", @-r15\n");
        },
        Op::Pop { dst } => {
            s.append("  mov.l @r15+, ");
            push_reg(s, TargetIsa::SuperH(SuperHFlavor::Sh2), dst.0);
            s.append("\n");
        },
        _ => push_other(s, "!", "trapa #0", op),
    }
    proof {
        assert(s@ =~= start + superh_op_text(op@));
    }
}

/// Alpha assembly text of one operation.
pub open spec fn alpha_op_text(op: OpModel) -> Seq<char> {
    match op {
        OpModel::Nop => "  nop\n"@,
        OpModel::Ret => "  ret $31, ($26), 1\n"@,
        OpModel::MovImm { dst, imm } => "  lda "@ + reg_text(TargetIsa::Alpha, dst) + ", "@ + dec(imm as nat) + "($31)\n"@,
        OpModel::AddImm { dst, imm } => "  lda "@ + reg_text(TargetIsa::Alpha, dst) + ", "@ + dec(imm as nat) + "("@ + reg_text(TargetIsa::Alpha, dst) + ")\n"@,
        OpModel::SubImm { dst, imm } => "  lda "@ + reg_text(TargetIsa::Alpha, dst) + ", -"@ + dec(imm as nat) + "("@ + reg_text(TargetIsa::Alpha, dst) + ")\n"@,
        OpModel::Clear { dst } => "  mov $31, "@ + reg_text(TargetIsa::Alpha, dst) + "\n"@,
        OpModel::Inc { dst } => "  addq "@ + reg_text(TargetIsa::Alpha, dst) + ", 1, "@ + reg_text(TargetIsa::Alpha, dst) + "\n"@,
        OpModel::Dec { dst } => "  subq "@ + reg_text(TargetIsa::Alpha, dst) + ", 1, "@ + reg_text(TargetIsa::Alpha, dst) + "\n"@,
        OpModel::Push { src } => "  subq $30, 8, $30\n  stq "@ + reg_text(TargetIsa::Alpha, src) + ", 0($30)\n"@,
        OpModel::Pop { dst } => "  ldq "@ + reg_text(TargetIsa::Alpha, dst) + ", 0($30)\n  addq $30, 8, $30\n"@,
        _ => other_text("#"@, "call_pal 0x81"@, op),
    }
}

fn push_alpha_op(s: &mut String, op: &Op)
    ensures
        final(s)@ == old(s)@ + alpha_op_text(op@),
{
    let ghost start = s@;
    match op {
        Op::Nop => {
            s.append("  nop\n");
        },
        Op::Ret => {
            s.append("  ret $31, ($26), 1\n");
        },
        Op::MovImm { dst, imm } => {
            s.append("  lda ");
            push_reg(s, TargetIsa::Alpha, dst.0);
            s.append(", ");
            push_dec(s, *imm as u64);
            s.append("($31)\n");
        },
        Op::AddImm { dst, imm } => {
            s.append("  lda ");
            push_reg(s, TargetIsa::Alpha, dst.0);
            s.append(", ");
            push_dec(s, *imm as u64);
            s.append("(");
            push_reg(s, TargetIsa::Alpha, dst.0);
            s.append(")\n");
        },
        Op::SubImm { dst, imm } => {
            s.append("  lda ");
            push_reg(s, TargetIsa::Alpha, dst.0);
            s.append(", -");
            push_dec(s, *imm as u64);
            s.append("(");
            push_reg(s, TargetIsa::Alpha, dst.0);
            s.append(")\n");
        },
        Op::Clear { dst } => {
            s.append("  mov $31, ");
            push_reg(s, TargetIsa::Alpha, dst.0);
            s.append("\n");
        },
        Op::Inc { dst } => {
            s.append("  addq ");
            push_reg(s, TargetIsa::Alpha, dst.0);
            s.append(", 1, ");
            push_reg(s, TargetIsa::Alpha, dst.0);
            s.append("\n");
        },
        Op::Dec { dst } => {
            s.append("  subq ");
            push_reg(s, TargetIsa::Alpha, dst.0);
            s.append(", 1, ");
            push_reg(s, TargetIsa::Alpha, dst.0);
            s.append("\n");
        },
        Op::Push { src } => {
            s.append("  subq $30, 8, $30\n  stq ");
            push_reg(s, TargetIsa::Alpha, src.0);
            s.append(", 0($30)\n");
        },
        Op::Pop { dst } => {
            s.append("  ldq ");
            push_reg(s, TargetIsa::Alpha, dst.0);
            s.append(", 0($30)\n  addq $30, 8, $30\n");
        },
        _ => push_other(s, "#", "call_pal 0x81", op),
    }
    proof {
        assert(s@ =~= start + alpha_op_text(op@));
    }
}

/// PaRisc assembly text of one operation.
pub open spec fn parisc_op_text(op: OpModel) -> Seq<char> {
    match op {
        OpModel::Nop => "  nop\n"@,
        OpModel::Ret => "  bv %r0(%rp)\n  nop\n"@,
        OpModel::MovImm { dst, imm } => "  ldi "@ + dec(imm as nat) + ", "@ + reg_text(TargetIsa::PaRisc, dst) + "\n"@,
        OpModel::AddImm { dst, imm } => "  ldo "@ + dec(imm as nat) + "("@ + reg_text(TargetIsa::PaRisc, dst) + "), "@ + reg_text(TargetIsa::PaRisc, dst) + "\n"@,
        OpModel::SubImm { dst, imm } => "  ldo -"@ + dec(imm as nat) + "("@ + reg_text(TargetIsa::PaRisc, dst) + "), "@ + reg_text(TargetIsa::PaRisc, dst) + "\n"@,
        OpModel::Clear { dst } => "  copy %r0, "@ + reg_text(TargetIsa::PaRisc, dst) + "\n"@,
        OpModel::Inc { dst } => "  ldo 1("@ + reg_text(TargetIsa::PaRisc, dst) + "), "@ + reg_text(TargetIsa::PaRisc, dst) + "\n"@,
        OpModel::Dec { dst } => "  ldo -1("@ + reg_text(TargetIsa::PaRisc, dst) + "), "@ + reg_text(TargetIsa::PaRisc, dst) + "\n"@,
        OpModel::Push { src } => "  stwm "@ + reg_text(TargetIsa::PaRisc, src) + ", 64(%sp)\n"@,
        OpModel::Pop { dst } => "  ldwm -64(%sp), "@ + reg_text(TargetIsa::PaRisc, dst) + "\n"@,
        _ => other_text(";"@, "break 0, 0"@, op),
    }
}

fn push_parisc_op(s: &mut String, op: &Op)
    ensures
        final(s)@ == old(s)@ + parisc_op_text(op@),
{
    let ghost start = s@;
    match op {
        Op::Nop => {
            s.append("  nop\n");
        },
        Op::Ret => {
            s.append("  bv %r0(%rp)\n  nop\n");
        },
        Op::MovImm { dst, imm } => {
            s.append("  ldi ");
            push_dec(s, *imm as u64);
            s.append(", ");
            push_reg(s, TargetIsa::PaRisc, dst.0);
            s.append("\n");
        },
        Op::AddImm { dst, imm } => {
            s.append("  ldo ");
            push_dec(s, *imm as u64);
            s.append("(");
            push_reg(s, TargetIsa::PaRisc, dst.0);
            s.append("), ");
            push_reg(s, TargetIsa::PaRisc, dst.0);
            s.append("\n");
        },
        Op::SubImm { dst, imm } => {
            s.append("  ldo -");
            push_dec(s, *imm as u64);
            s.append("(");
            push_reg(s, TargetIsa::PaRisc, dst.0);
            s.append("), ");
            push_reg(s, TargetIsa::PaRisc, dst.0);
            s.append("\n");
        },
        Op::Clear { dst } => {
            s.append("  copy %r0, ");
            push_reg(s, TargetIsa::PaRisc, dst.0);
            s.append("\n");
        },
        Op::Inc { dst } => {
            s.append("  ldo 1(");
            push_reg(s, TargetIsa::PaRisc, dst.0);
            s.append("), ");
            push_reg(s, TargetIsa::PaRisc, dst.0);
            s.append("\n");
        },
        Op::Dec { dst } => {
            s.append("  ldo -1(");
            push_reg(s, TargetIsa::PaRisc, dst.0);
            s.append("), ");
            push_reg(s, TargetIsa::PaRisc, dst.0);
            s.append("\n");
        },
        Op::Push { src } => {
            s.append("  stwm ");
            push_reg(s, TargetIsa::PaRisc, src.0);
            s.append(", 64(%sp)\n");
        },
        Op::Pop { dst } => {
            s.append("  ldwm -64(%sp), ");
            push_reg(s, TargetIsa::PaRisc, dst.0);
            s.append("\n");
        },
        _ => push_other(s, ";", "break 0, 0", op),
    }
    proof {
        assert(s@ =~= start + parisc_op_text(op@));
    }
}

/// M88k assembly text of one operation.
pub open spec fn m88k_op_text(op: OpModel) -> Seq<char> {
    match op {
        OpModel::Nop => "  or r0, r0, r0\n"@,
        OpModel::Ret => "  jmp r1\n"@,
        OpModel::MovImm { dst, imm } => "  or "@ + reg_text(TargetIsa::M88k, dst) + ", r0, "@ + dec(imm as nat) + "\n"@,
        OpModel::AddImm { dst, imm } => "  addu "@ + reg_text(TargetIsa::M88k, dst) + ", "@ + reg_text(TargetIsa::M88k, dst) + ", "@ + dec(imm as nat) + "\n"@,
        OpModel::SubImm { dst, imm } => "  subu "@ + reg_text(TargetIsa::M88k, dst) + ", "@ + reg_text(TargetIsa::M88k, dst) + ", "@ + dec(imm as nat) + "\n"@,
        OpModel::Clear { dst } => "  or "@ + reg_text(TargetIsa::M88k, dst) + ", r0, r0\n"@,
        OpModel::Inc { dst } => "  addu "@ + reg_text(TargetIsa::M88k, dst) + ", "@ + reg_text(TargetIsa::M88k, dst) + ", 1\n"@,
        OpModel::Dec { dst } => "  subu "@ + reg_text(TargetIsa::M88k, dst) + ", "@ + reg_text(TargetIsa::M88k, dst) + ", 1\n"@,
        OpModel::Push { src } => "  subu r31, r31, 8\n  st "@ + reg_text(TargetIsa::M88k, src) + ", r31, 0\n"@,
        OpModel::Pop { dst } => "  ld "@ + reg_text(TargetIsa::M88k, dst) + ", r31, 0\n  addu r31, r31, 8\n"@,
        _ => other_text(";"@, "tb0 0, r0, 0"@, op),
    }
}

fn push_m88k_op(s: &mut String, op: &Op)
    ensures
        final(s)@ == old(s)@ + m88k_op_text(op@),
{
    let ghost start = s@;
    match op {
        Op::Nop => {
            s.append("  or r0, r0, r0\n");
        },
        Op::Ret => {
            s.append("  jmp r1\n");
        },
        Op::MovImm { dst, imm } => {
            s.append("  or ");
            push_reg(s, TargetIsa::M88k, dst.0);
            s.append(", r0, ");
            push_dec(s, *imm as u64);
            s.append("\n");
        },
        Op::AddImm { dst, imm } => {
            s.append("  addu ");
            push_reg(s, TargetIsa::M88k, dst.0);
            s.append(", ");
            push_reg(s, TargetIsa::M88k, dst.0);
            s.append(", ");
            push_dec(s, *imm as u64);
            s.append("\n");
        },
        Op::SubImm { dst, imm } => {
            s.append("  subu ");
            push_reg(s, TargetIsa::M88k, dst.0);
            s.append(", ");
            push_reg(s, TargetIsa::M88k, dst.0);
            s.append(", ");
            push_dec(s, *imm as u64);
            s.append("\n");
        },
        Op::Clear { dst } => {
            s.append("  or ");
            push_reg(s, TargetIsa::M88k, dst.0);
            s.append(", r0, r0\n");
        },
        Op::Inc { dst } => {
            s.append("  addu ");
            push_reg(s, TargetIsa::M88k, dst.0);
            s.append(", ");
            push_reg(s, TargetIsa::M88k, dst.0);
            s.append(", 1\n");
        },
        Op::Dec { dst } => {
            s.append("  subu ");
            push_reg(s, TargetIsa::M88k, dst.0);
            s.append(", ");
            push_reg(s, TargetIsa::M88k, dst.0);
            s.append(", 1\n");
        },
        Op::Push { src } => {
            s.append("  subu r31, r31, 8\n  st ");
            push_reg(s, TargetIsa::M88k, src.0);
            s.append(", r31, 0\n");
        },
        Op::Pop { dst } => {
            s.append("  ld ");
            push_reg(s, TargetIsa::M88k, dst.0);
            s.append(", r31, 0\n  addu r31, r31, 8\n");
        },
        _ => push_other(s, ";", "tb0 0, r0, 0", op),
    }
    proof {
        assert(s@ =~= start + m88k_op_text(op@));
    }
}

/// Ia64 assembly text of one operation.
pub open spec fn ia64_op_text(op: OpModel) -> Seq<char> {
    match op {
        OpModel::Nop => "  nop 0\n"@,
        OpModel::Ret => "  br.ret.sptk.many b0\n"@,
        OpModel::MovImm { dst, imm } => "  mov "@ + reg_text(TargetIsa::Ia64, dst) + " = "@ + dec(imm as nat) + "\n"@,
        OpModel::AddImm { dst, imm } => "  adds "@ + reg_text(TargetIsa::Ia64, dst) + " = "@ + dec(imm as nat) + ", "@ + reg_text(TargetIsa::Ia64, dst) + "\n"@,
        OpModel::SubImm { dst, imm } => "  adds "@ + reg_text(TargetIsa::Ia64, dst) + " = -"@ + dec(imm as nat) + ", "@ + reg_text(TargetIsa::Ia64, dst) + "\n"@,
        OpModel::Clear { dst } => "  mov "@ + reg_text(TargetIsa::Ia64, dst) + " = r0\n"@,
        OpModel::Inc { dst } => "  adds "@ + reg_text(TargetIsa::Ia64, dst) + " = 1, "@ + reg_text(TargetIsa::Ia64, dst) + "\n"@,
        OpModel::Dec { dst } => "  adds "@ + reg_text(TargetIsa::Ia64, dst) + " = -1, "@ + reg_text(TargetIsa::Ia64, dst) + "\n"@,
        OpModel::Push { src } => "  st8 [r12] = "@ + reg_text(TargetIsa::Ia64, src) + ", -16\n"@,
        OpModel::Pop { dst } => "  adds r12 = 16, r12\n  ld8 "@ + reg_text(TargetIsa::Ia64, dst) + " = [r12]\n"@,
        _ => other_text("//"@, "break 0"@, op),
    }
}

fn push_ia64_op(s: &mut String, op: &Op)
    ensures
        final(s)@ == old(s)@ + ia64_op_text(op@),
{
    let ghost start = s@;
    match op {
        Op::Nop => {
            s.append("  nop 0\n");
        },
        Op::Ret => {
            s.append("  br.ret.sptk.many b0\n");
        },
        Op::MovImm { dst, imm } => {
            s.append("  mov ");
            push_reg(s, TargetIsa::Ia64, dst.0);
            s.append(" = ");
            push_dec(s, *imm as u64);
            s.append("\n");
        },
        Op::AddImm { dst, imm } => {
            s.append("  adds ");
            push_reg(s, TargetIsa::Ia64, dst.0);
            s.append(" = ");
            push_dec(s, *imm as u64);
            s.append(", ");
            push_reg(s, TargetIsa::Ia64, dst.0);
            s.append("\n");
        },
        Op::SubImm { dst, imm } => {
            s.append("  adds ");
            push_reg(s, TargetIsa::Ia64, dst.0);
            s.append(" = -");
            push_dec(s, *imm as u64);
            s.append(", ");
            push_reg(s, TargetIsa::Ia64, dst.0);
            s.append("\n");
        },
        Op::Clear { dst } => {
            s.append("  mov ");
            push_reg(s, TargetIsa::Ia64, dst.0);
            s.append(" = r0\n");
        },
        Op::Inc { dst } => {
            s.append("  adds ");
            push_reg(s, TargetIsa::Ia64, dst.0);
            s.append(" = 1, ");
            push_reg(s, TargetIsa::Ia64, dst.0);
            s.append("\n");
        },
        Op::Dec { dst } => {
            s.append("  adds ");
            push_reg(s, TargetIsa::Ia64, dst.0);
            s.append(" = -1, ");
            push_reg(s, TargetIsa::Ia64, dst.0);
            s.append("\n");
        },
        Op::Push { src } => {
            s.append("  st8 [r12] = ");
            push_reg(s, TargetIsa::Ia64, src.0);
            s.append(", -16\n");
        },
        Op::Pop { dst } => {
            s.append("  adds r12 = 16, r12\n  ld8 ");
            push_reg(s, TargetIsa::Ia64, dst.0);
            s.append(" = [r12]\n");
        },
        _ => push_other(s, "//", "break 0", op),
    }
    proof {
        assert(s@ =~= start + ia64_op_text(op@));
    }
}

/// I860 assembly text of one operation.
pub open spec fn i860_op_text(op: OpModel) -> Seq<char> {
    match op {
        OpModel::Nop => "  nop\n"@,
        OpModel::Ret => "  bri r1\n  nop\n"@,
        OpModel::MovImm { dst, imm } => "  or "@ + dec(imm as nat) + ", r0, "@ + reg_text(TargetIsa::I860, dst) + "\n"@,
        OpModel::AddImm { dst, imm } => "  addu "@ + dec(imm as nat) + ", "@ + reg_text(TargetIsa::I860, dst) + ", "@ + reg_text(TargetIsa::I860, dst) + "\n"@,
        OpModel::SubImm { dst, imm } => "  subu "@ + reg_text(TargetIsa::I860, dst) + ", "@ + dec(imm as nat) + ", "@ + reg_text(TargetIsa::I860, dst) + "\n"@,
        OpModel::Clear { dst } => "  mov r0, "@ + reg_text(TargetIsa::I860, dst) + "\n"@,
        OpModel::Inc { dst } => "  addu 1, "@ + reg_text(TargetIsa::I860, dst) + ", "@ + reg_text(TargetIsa::I860, dst) + "\n"@,
        OpModel::Dec { dst } => "  subu "@ + reg_text(TargetIsa::I860, dst) + ", 1, "@ + reg_text(TargetIsa::I860, dst) + "\n"@,
        OpModel::Push { src } => "  addu -16, sp, sp\n  st.l "@ + reg_text(TargetIsa::I860, src) + ", 0(sp)\n"@,
        OpModel::Pop { dst } => "  ld.l 0(sp), "@ + reg_text(TargetIsa::I860, dst) + "\n  addu 16, sp, sp\n"@,
        _ => other_text("//"@, "trap r0, r0, r0"@, op),
    }
}

fn push_i860_op(s: &mut String, op: &Op)
    ensures
        final(s)@ == old(s)@ + i860_op_text(op@),
{
    let ghost start = s@;
    match op {
        Op::Nop => {
            s.append("  nop\n");
        },
        Op::Ret => {
            s.append("  bri r1\n  nop\n");
        },
        Op::MovImm { dst, imm } => {
            s.append("  or ");
            push_dec(s, *imm as u64);
            s.append(", r0, ");
            push_reg(s, TargetIsa::I860, dst.0);
            s.append("\n");
        },
        Op::AddImm { dst, imm } => {
            s.append("  addu ");
            push_dec(s, *imm as u64);
            s.append(", ");
            push_reg(s, TargetIsa::I860, dst.0);
            s.append(", ");
            push_reg(s, TargetIsa::I860, dst.0);
            s.append("\n");
        },
        Op::SubImm { dst, imm } => {
            s.append("  subu ");
            push_reg(s, TargetIsa::I860, dst.0);
            s.append(", ");
            push_dec(s, *imm as u64);
            s.append(", ");
            push_reg(s, TargetIsa::I860, dst.0);
            s.append("\n");
        },
        Op::Clear { dst } => {
            s.append("  mov r0, ");
            push_reg(s, TargetIsa::I860, dst.0);
            s.append("\n");
        },
        Op::Inc { dst } => {
            s.append("  addu 1, ");
            push_reg(s, TargetIsa::I860, dst.0);
            s.append(", ");
            push_reg(s, TargetIsa::I860, dst.0);
            s.append("\n");
        },
        Op::Dec { dst } => {
            s.append("  subu ");
            push_reg(s, TargetIsa::I860, dst.0);
            s.append(", 1, ");
            push_reg(s, TargetIsa::I860, dst.0);
            s.append("\n");
        },
        Op::Push { src } => {
            s.append("  addu -16, sp, sp\n  st.l ");
            push_reg(s, TargetIsa::I860, src.0);
            s.append(", 0(sp)\n");
        },
        Op::Pop { dst } => {
            s.append("  ld.l 0(sp), ");
            push_reg(s, TargetIsa::I860, dst.0);
            s.append("\n  addu 16, sp, sp\n");
        },
        _ => push_other(s, "//", "trap r0, r0, r0", op),
    }
    proof {
        assert(s@ =~= start + i860_op_text(op@));
    }
}

/// ColdFire assembly text of one operation.
pub open spec fn coldfire_op_text(op: OpModel) -> Seq<char> {
    match op {
        OpModel::Nop => "  nop\n"@,
        OpModel::Ret => "  rts\n"@,
        OpModel::MovImm { dst, imm } => "  move.l #"@ + dec(imm as nat) + ", "@ + reg_text(TargetIsa::ColdFire, dst) + "\n"@,
        OpModel::AddImm { dst, imm } => "  addi.l #"@ + dec(imm as nat) + ", "@ + reg_text(TargetIsa::ColdFire, dst) + "\n"@,
        OpModel::SubImm { dst, imm } => "  subi.l #"@ + dec(imm as nat) + ", "@ + reg_text(TargetIsa::ColdFire, dst) + "\n"@,
        OpModel::Clear { dst } => "  clr.l "@ + reg_text(TargetIsa::ColdFire, dst) + "\n"@,
        OpModel::Inc { dst } => "  addq.l #1, "@ + reg_text(TargetIsa::ColdFire, dst) + "\n"@,
        OpModel::Dec { dst } => "  subq.l #1, "@ + reg_text(TargetIsa::ColdFire, dst) + "\n"@,
        OpModel::Push { src } => "  move.l "@ + reg_text(TargetIsa::ColdFire, src) + ", -(%sp)\n"@,
        OpModel::Pop { dst } => "  move.l (%sp)+, "@ + reg_text(TargetIsa::ColdFire, dst) + "\n"@,
        OpModel::LdMem { dst, base, .. } => "  move.l ("@ + "%a"@ + dec(clamp(base, 7) as nat) + "), "@ + reg_text(TargetIsa::ColdFire, dst) + "\n"@,
        OpModel::StMem { src, base, .. } => "  move.l "@ + reg_text(TargetIsa::ColdFire, src) + ", ("@ + "%a"@ + dec(clamp(base, 7) as nat) + ")\n"@,
        _ => other_text("|"@, "illegal"@, op),
    }
}

fn push_coldfire_op(s: &mut String, op: &Op)
    ensures
        final(s)@ == old(s)@ + coldfire_op_text(op@),
{
    let ghost start = s@;
    match op {
        Op::Nop => {
            s.append("  nop\n");
        },
        Op::Ret => {
            s.append("  rts\n");
        },
        Op::MovImm { dst, imm } => {
            s.append("  move.l #");
            push_dec(s, *imm as u64);
            s.append(", ");
            push_reg(s, TargetIsa::ColdFire, dst.0);
            s.append("\n");
        },
        Op::AddImm { dst, imm } => {
            s.append("  addi.l #");
            push_dec(s, *imm as u64);
            s.append(", ");
            push_reg(s, TargetIsa::ColdFire, dst.0);
            s.append("\n");
        },
        Op::SubImm { dst, imm } => {
            s.append("  subi.l #");
            push_dec(s, *imm as u64);
            s.append(", ");
            push_reg(s, TargetIsa::ColdFire, dst.0);
            s.append("\n");
        },
        Op::Clear { dst } => {
            s.append("  clr.l ");
            push_reg(s, TargetIsa::ColdFire, dst.0);
            s.append("\n");
        },
        Op::Inc { dst } => {
            s.append("  addq.l #1, ");
            push_reg(s, TargetIsa::ColdFire, dst.0);
            s.append("\n");
        },
        Op::Dec { dst } => {
            s.append("  subq.l #1, ");
            push_reg(s, TargetIsa::ColdFire, dst.0);
            s.append("\n");
        },
        Op::Push { src } => {
            s.append("  move.l ");
            push_reg(s, TargetIsa::ColdFire, src.0);
            s.append(", -(%sp)\n");
        },
        Op::Pop { dst } => {
            s.append("  move.l (%sp)+, ");
            push_reg(s, TargetIsa::ColdFire, dst.0);
            s.append("\n");
        },
        Op::LdMem { dst, base, .. } => {
            s.append("  move.l (");
            s.append("%a");
            push_dec(s, clamp_reg(base.0, 7) as u64);
            s.append("), ");
            push_reg(s, TargetIsa::ColdFire, dst.0);
            s.append("\n");
        },
        Op::StMem { src, base, .. } => {
            s.append("  move.l ");
            push_reg(s, TargetIsa::ColdFire, src.0);
            s.append(", (");
            s.append("%a");
            push_dec(s, clamp_reg(base.0, 7) as u64);
            s.append(")\n");
        },
        _ => push_other(s, "|", "illegal", op),
    }
    proof {
        assert(s@ =~= start + coldfire_op_text(op@));
    }
}

/// Assembly text of one operation on `isa`.
pub open spec fn op_text(isa: TargetIsa, op: OpModel) -> Seq<char> {
    match isa {
        TargetIsa::X86_64 => x86_op_text(op),
        TargetIsa::Arm => arm_op_text(op),
        TargetIsa::AArch64 => aarch64_op_text(op),
        TargetIsa::Mips => mips_op_text(op),
        TargetIsa::Ppc => ppc_op_text(op),
        TargetIsa::Sparc => sparc_op_text(op),
        TargetIsa::SuperH(_) => superh_op_text(op),
        TargetIsa::Alpha => alpha_op_text(op),
        TargetIsa::PaRisc => parisc_op_text(op),
        TargetIsa::M88k => m88k_op_text(op),
        TargetIsa::Ia64 => ia64_op_text(op),
        TargetIsa::I860 => i860_op_text(op),
        TargetIsa::ColdFire => coldfire_op_text(op),
    }
}

fn push_op(s: &mut String, isa: TargetIsa, op: &Op)
    ensures
        final(s)@ == old(s)@ + op_text(isa, op@),
{
    match isa {
        TargetIsa::X86_64 => push_x86_op(s, op),
        TargetIsa::Arm => push_arm_op(s, op),
        TargetIsa::AArch64 => push_aarch64_op(s, op),
        TargetIsa::Mips => push_mips_op(s, op),
        TargetIsa::Ppc => push_ppc_op(s, op),
        TargetIsa::Sparc => push_sparc_op(s, op),
        TargetIsa::SuperH(_) => push_superh_op(s, op),
        TargetIsa::Alpha => push_alpha_op(s, op),
        TargetIsa::PaRisc => push_parisc_op(s, op),
        TargetIsa::M88k => push_m88k_op(s, op),
        TargetIsa::Ia64 => push_ia64_op(s, op),
        TargetIsa::I860 => push_i860_op(s, op),
        TargetIsa::ColdFire => push_coldfire_op(s, op),
    }
}


/// Assembly text of a sequence of operations.
pub open spec fn ops_text(isa: TargetIsa, ops: Seq<OpModel>) -> Seq<char>
    decreases ops.len(),
{
    if ops.len() == 0 {
        Seq::empty()
    } else {
        ops_text(isa, ops.drop_last()) + op_text(isa, ops.last())
    }
}

/// The comment naming a SuperH generation.
pub open spec fn superh_comment(f: SuperHFlavor) -> Seq<char> {
    match f {
        SuperHFlavor::Sh2 => "SH-2 (Saturn class)"@,
        SuperHFlavor::Sh4 => "SH-4 (Dreamcast class)"@,
    }
}

/// The symbol directive and label that open a function.
pub open spec fn function_header(isa: TargetIsa, name: Seq<char>) -> Seq<char> {
    match isa {
        TargetIsa::SuperH(f) => "! "@ + superh_comment(f) + "\n.global "@ + name + "\n"@ + name
            + ":\n"@,
        TargetIsa::X86_64 | TargetIsa::Mips | TargetIsa::Ppc | TargetIsa::Alpha | TargetIsa::PaRisc
        | TargetIsa::I860 | TargetIsa::ColdFire => ".globl "@ + name + "\n"@ + name + ":\n"@,
        _ => ".global "@ + name + "\n"@ + name + ":\n"@,
    }
}

/// Assembly text of a function: header, then its operations.
pub open spec fn function_text(isa: TargetIsa, name: Seq<char>, ops: Seq<OpModel>) -> Seq<char> {
    function_header(isa, name) + ops_text(isa, ops)
}

fn emit_function(name: &str, ops: &Vec<Op>, target: TargetIsa) -> (s: String)
    ensures
        s@ == function_text(target, name@, ops_model(ops@)),
{
    let mut s = String::new();
    match target {
        TargetIsa::SuperH(f) => {
            s.append("! ");
            match f {
                SuperHFlavor::Sh2 => s.append("SH-2 (Saturn class)"),
                SuperHFlavor::Sh4 => s.append("SH-4 (Dreamcast class)"),
            }
            s.append("\n.global ");
        },
        TargetIsa::X86_64 | TargetIsa::Mips | TargetIsa::Ppc | TargetIsa::Alpha | TargetIsa::PaRisc
        | TargetIsa::I860 | TargetIsa::ColdFire => s.append(".globl "),
        _ => s.append(".global "),
    }
    s.append(name);
    s.append("\n");
    s.append(name);
    s.append(":\n");
    proof {
        assert(s@ =~= function_header(target, name@) + ops_text(target, ops_model(ops@).subrange(0, 0)));
    }
    let ghost header = function_header(target, name@);
    let mut i: usize = 0;
    while i < ops.len()
        invariant
            i <= ops@.len(),
            s@ == header + ops_text(target, ops_model(ops@).subrange(0, i as int)),
        decreases ops@.len() - i,
    {
        push_op(&mut s, target, &ops[i]);
        proof {
            let sub = ops_model(ops@).subrange(0, i as int + 1);
            assert(sub.drop_last() =~= ops_model(ops@).subrange(0, i as int));
            assert(sub.last() == ops@[i as int]@);
        }
        i = i + 1;
    }
    assert(ops_model(ops@).subrange(0, ops@.len() as int) =~= ops_model(ops@));
    s
}

/// Text of the functions of a module, each followed by an empty line.
pub open spec fn functions_text(target: TargetIsa, fns: Seq<Function>) -> Seq<char>
    decreases fns.len(),
{
    if fns.len() == 0 {
        Seq::empty()
    } else {
        functions_text(target, fns.drop_last()) + function_text(
            target,
            fns.last().name@,
            ops_model(fns.last().blocks@[0].ops@),
        ) + "\n"@
    }
}

/// Assembly text of a module: a header comment (target, source ISA, gap
/// count, honesty banner), then each function's entry block.
pub open spec fn module_text(m: Module, target: TargetIsa) -> Seq<char> {
    "; SIR emit target="@ + target.label() + " source="@ + m.source_isa@ + " gaps="@ + dec(
        m.lift_gaps as nat,
    ) + "\n; "@ + BANNER@ + "\n"@ + functions_text(target, m.functions@)
}

/// Emits textual assembly for `target`: the entry block of every function.
pub fn emit_module(module: &Module, target: TargetIsa) -> (s: String)
    requires
        forall|i: int| 0 <= i < module.functions@.len() ==> (#[trigger] module.functions@[i]).blocks.len() > 0,
    ensures
        s@ == module_text(*module, target),
{
    let mut out = String::new();
    out.append("; SIR emit target=");
    out.append(target.name());
    out.append(" source=");
    out.append(module.source_isa.as_str());
    out.append(" gaps=");
    push_dec(&mut out, module.lift_gaps as u64);
    out.append("\n; ");
    out.append(BANNER);
    out.append("\n");
    let ghost header = out@;
    assert(functions_text(target, module.functions@.subrange(0, 0)) =~= Seq::<char>::empty());
    let mut i: usize = 0;
    while i < module.functions.len()
        invariant
            i <= module.functions@.len(),
            forall|j: int| 0 <= j < module.functions@.len() ==> (#[trigger] module.functions@[j]).blocks.len() > 0,
            out@ == header + functions_text(target, module.functions@.subrange(0, i as int)),
        decreases module.functions@.len() - i,
    {
        let func = &module.functions[i];
        let text = emit_function(func.name.as_str(), &func.blocks[0].ops, target);
        out.append(text.as_str());
        out.append("\n");
        proof {
            let sub = module.functions@.subrange(0, i as int + 1);
            assert(sub.drop_last() =~= module.functions@.subrange(0, i as int));
            assert(sub.last() == module.functions@[i as int]);
        }
        i = i + 1;
    }
    assert(module.functions@.subrange(0, i as int) =~= module.functions@);
    assert(out@ =~= module_text(*module, target));
    out
}

/// On MIPS a subtraction is listed as the addition of the negated amount:
/// for `imm > 0`, the listing of `SubImm { dst, imm }` is that of
/// `AddImm { dst, imm }` with the immediate `imm` replaced by the signed
/// decimal of `-imm`.
pub proof fn lemma_mips_sub_lists_negated(dst: u32, imm: u32)
    requires
        imm > 0,
    ensures
        exists|p: Seq<char>|
            op_text(TargetIsa::Mips, OpModel::AddImm { dst, imm }) == p + dec(imm as nat) + "\n"@
                && op_text(TargetIsa::Mips, OpModel::SubImm { dst, imm }) == #[trigger] (p + sdec(
                -(imm as int),
            )) + "\n"@,
{
    reveal_strlit("-");
    reveal_strlit(", -");
    reveal_strlit(", ");
    let p = "  addiu "@ + reg_text(TargetIsa::Mips, dst) + ", "@ + reg_text(TargetIsa::Mips, dst) + ", "@;
    assert(sdec(-(imm as int)) == seq!['-'] + dec(imm as nat));
    assert(op_text(TargetIsa::Mips, OpModel::AddImm { dst, imm }) =~= p + dec(imm as nat) + "\n"@);
    assert(op_text(TargetIsa::Mips, OpModel::SubImm { dst, imm }) =~= (p + sdec(-(imm as int))) + "\n"@);
}

} // verus!
