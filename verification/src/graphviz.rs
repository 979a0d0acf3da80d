//! Graphviz DOT rendering of the inferred behavioral graph: the CPU, the
//! memory map, each functional block with its registers, and interrupt edges.

use vstd::prelude::*;
use crate::hw::{BlockKind, FunctionalBlock, HardwareSpec, MemoryRegion, Register};
use crate::text::{dec, hex, hex_w, push_dec, push_hex, push_hex_w, str_debug, str_debug_text};

verus! {

/// Name for what `char::is_alphanumeric` (alphabetic or numeric, in the
/// Unicode sense) answers for a character.
pub uninterp spec fn char_is_alphanumeric(c: char) -> bool;

/// Calls `char::is_alphanumeric`; its answer is a function of the character,
/// named [`char_is_alphanumeric`].
#[verifier::external_body]
fn is_alphanumeric(c: char) -> (r: bool)
    ensures
        r == char_is_alphanumeric(c),
{
    c.is_alphanumeric()
}

/// `s` with every character that is neither alphanumeric nor `_` replaced by `_`.
pub open spec fn sanitize(s: Seq<char>) -> Seq<char> {
    Seq::new(s.len(), |i: int| if char_is_alphanumeric(s[i]) || s[i] == '_' { s[i] } else { '_' })
}

/// `s` with every `"` escaped as `\"`.
pub open spec fn escape_quotes(s: Seq<char>) -> Seq<char>
    decreases s.len(),
{
    if s.len() == 0 {
        Seq::empty()
    } else {
        escape_quotes(s.drop_last()) + if s.last() == '"' {
            seq!['\\', '"']
        } else {
            seq![s.last()]
        }
    }
}

/// Display name of a block kind.
pub open spec fn block_name(k: BlockKind) -> Seq<char> {
    match k {
        BlockKind::Gpu => "GPU"@,
        BlockKind::Audio => "Audio"@,
        BlockKind::Dma => "DMA"@,
        BlockKind::Usb => "USB"@,
        BlockKind::Ethernet => "Ethernet"@,
        BlockKind::Spi => "SPI"@,
        BlockKind::I2c => "I2C"@,
        BlockKind::Uart => "UART"@,
        BlockKind::Timer => "Timer"@,
        BlockKind::InterruptController => "IRQ Ctrl"@,
        BlockKind::MemoryController => "Mem Ctrl"@,
        BlockKind::Crypto => "Crypto"@,
        BlockKind::VideoCodec => "Video"@,
        BlockKind::Isp => "ISP"@,
        BlockKind::Npu => "NPU"@,
        BlockKind::Unknown => "Unknown"@,
    }
}

/// Fill color of a block kind.
pub open spec fn block_color(k: BlockKind) -> Seq<char> {
    match k {
        BlockKind::Gpu => "#ff6b6b"@,
        BlockKind::Audio => "#ffd43b"@,
        BlockKind::Dma => "#da77f2"@,
        BlockKind::Usb => "#20c997"@,
        BlockKind::Ethernet => "#5c7cfa"@,
        BlockKind::Spi => "#f06595"@,
        BlockKind::I2c => "#9775fa"@,
        BlockKind::Uart => "#748ffc"@,
        BlockKind::Timer => "#38d9a9"@,
        BlockKind::InterruptController => "#fcc419"@,
        _ => "#adb5bd"@,
    }
}

/// Memory regions as `Kind@base`, separated by `,<br/>`.
pub open spec fn region_labels(rs: Seq<MemoryRegion>) -> Seq<char>
    decreases rs.len(),
{
    if rs.len() == 0 {
        Seq::empty()
    } else {
        region_labels(rs.drop_last()) + (if rs.len() > 1 { ",<br/>"@ } else { Seq::empty() })
            + rs.last().region_type@ + "@"@ + hex_w(rs.last().base as nat, 8)
    }
}

/// A register note of block `sid` and its edge.
pub open spec fn register_dot(sid: Seq<char>, r: Register) -> Seq<char> {
    let rid = sid + "_"@ + hex(r.offset as nat);
    let name = match r.name {
        Some(n) => n@,
        None => "reg"@,
    };
    "  "@ + rid + " [label=\""@ + str_debug_text(name)
        + "\", shape=note, style=filled, fillcolor=\"#e0e0e0\", fontsize=9];\n"@ + "  "@ + sid + " -> "@
        + rid + " [label=\"+0x"@ + hex(r.offset as nat) + "\", arrowhead=none];\n"@
}

/// Register notes of a block.
pub open spec fn registers_dot(sid: Seq<char>, rs: Seq<Register>) -> Seq<char>
    decreases rs.len(),
{
    if rs.len() == 0 {
        Seq::empty()
    } else {
        registers_dot(sid, rs.drop_last()) + register_dot(sid, rs.last())
    }
}

/// A block node, its MMIO edge from the CPU, its registers, and the IRQ
/// edge of an interrupt controller.
pub open spec fn block_dot(b: FunctionalBlock) -> Seq<char> {
    let sid = sanitize(b.id@);
    "  "@ + sid + " [label=<"@ + block_name(b.kind) + "<br/><font point-size=\"10\">0x"@ + hex_w(
        b.base_address as nat,
        8,
    ) + "</font>>, fillcolor=\""@ + block_color(b.kind) + "\"];\n"@ + "  cpu -> "@ + sid
        + " [label=\"MMIO\", style=dashed];\n"@ + registers_dot(sid, b.registers@) + if b.kind
        == BlockKind::InterruptController {
        "  "@ + sid + " -> cpu [label=\"IRQ\", style=dashed, color=\"#fcc419\"];\n"@
    } else {
        Seq::empty()
    }
}

/// Nodes of a list of blocks.
pub open spec fn blocks_dot(bs: Seq<FunctionalBlock>) -> Seq<char>
    decreases bs.len(),
{
    if bs.len() == 0 {
        Seq::empty()
    } else {
        blocks_dot(bs.drop_last()) + block_dot(bs.last())
    }
}

/// The DOT graph of `spec` titled `title`, with the global confidence
/// already rendered as a percentage.
pub open spec fn dot_text(spec: HardwareSpec, title: Seq<char>, confidence_pct: Seq<char>) -> Seq<char> {
    "// B.A.S.E. Behavioral Graph\n"@ + "digraph \""@ + escape_quotes(title) + "\" {\n"@
        + "  rankdir=LR;\n"@ + "  splines=ortho;\n"@
        + "  node [shape=box, style=rounded, fontname=\"JetBrains Mono\"];\n"@
        + "  edge [fontname=\"JetBrains Mono\", fontsize=10];\n\n"@
        + "  cpu [label=<CPU<br/><font point-size=\"10\">"@ + spec.cpu.architecture@ + " @ "@ + dec(
        spec.cpu.clock_mhz as nat,
    ) + "MHz</font>>, shape=box, style=filled, fillcolor=\"#4a9eff\"];\n"@
        + "  mem [label=<Memory<br/><font point-size=\"10\">"@ + region_labels(spec.memory.regions@)
        + "</font>>, shape=box, style=filled, fillcolor=\"#69db7c\"];\n"@
        + "  cpu -> mem [label=\"bus\", style=bold];\n"@ + blocks_dot(spec.blocks@)
        + "\n  // Confidence: "@ + confidence_pct + "%\n"@ + "}\n"@
}

/// Replaces every character of `s` that is neither alphanumeric nor `_` by `_`.
pub fn sanitize_dot_id(s: &str) -> (r: String)
    ensures
        r@ == sanitize(s@),
{
    let n = s.unicode_len();
    let mut out = String::new();
    let mut i: usize = 0;
    while i < n
        invariant
            i <= n,
            n == s@.len(),
            out@ == sanitize(s@).subrange(0, i as int),
        decreases n - i,
    {
        let c = s.get_char(i);
        if is_alphanumeric(c) || c == '_' {
            out.append(s.substring_char(i, i + 1));
        } else {
            out.append("_");
            proof {
                reveal_strlit("_");
            }
        }
        assert(out@ =~= sanitize(s@).subrange(0, i as int + 1));
        i = i + 1;
    }
    assert(out@ =~= sanitize(s@));
    out
}

/// Escapes every `"` of `s` as `\"`.
pub fn escape_dot(s: &str) -> (r: String)
    ensures
        r@ == escape_quotes(s@),
{
    let n = s.unicode_len();
    let mut out = String::new();
    let mut i: usize = 0;
    assert(s@.subrange(0, 0) =~= Seq::<char>::empty());
    while i < n
        invariant
            i <= n,
            n == s@.len(),
            out@ == escape_quotes(s@.subrange(0, i as int)),
        decreases n - i,
    {
        let c = s.get_char(i);
        if c == '"' {
            out.append("\\\"");
            proof {
                reveal_strlit("\\\"");
            }
        } else {
            out.append(s.substring_char(i, i + 1));
        }
        proof {
            let sub = s@.subrange(0, i as int + 1);
            assert(sub.drop_last() =~= s@.subrange(0, i as int));
            assert(sub.last() == c);
        }
        assert(out@ =~= escape_quotes(s@.subrange(0, i as int + 1)));
        i = i + 1;
    }
    assert(s@.subrange(0, n as int) =~= s@);
    out
}

fn push_block_name(s: &mut String, k: BlockKind)
    ensures
        final(s)@ == old(s)@ + block_name(k),
{
    match k {
        BlockKind::Gpu => s.append("GPU"),
        BlockKind::Audio => s.append("Audio"),
        BlockKind::Dma => s.append("DMA"),
        BlockKind::Usb => s.append("USB"),
        BlockKind::Ethernet => s.append("Ethernet"),
        BlockKind::Spi => s.append("SPI"),
        BlockKind::I2c => s.append("I2C"),
        BlockKind::Uart => s.append("UART"),
        BlockKind::Timer => s.append("Timer"),
        BlockKind::InterruptController => s.append("IRQ Ctrl"),
        BlockKind::MemoryController => s.append("Mem Ctrl"),
        BlockKind::Crypto => s.append("Crypto"),
        BlockKind::VideoCodec => s.append("Video"),
        BlockKind::Isp => s.append("ISP"),
        BlockKind::Npu => s.append("NPU"),
        BlockKind::Unknown => s.append("Unknown"),
    }
}

fn push_block_color(s: &mut String, k: BlockKind)
    ensures
        final(s)@ == old(s)@ + block_color(k),
{
    match k {
        BlockKind::Gpu => s.append("#ff6b6b"),
        BlockKind::Audio => s.append("#ffd43b"),
        BlockKind::Dma => s.append("#da77f2"),
        BlockKind::Usb => s.append("#20c997"),
        BlockKind::Ethernet => s.append("#5c7cfa"),
        BlockKind::Spi => s.append("#f06595"),
        BlockKind::I2c => s.append("#9775fa"),
        BlockKind::Uart => s.append("#748ffc"),
        BlockKind::Timer => s.append("#38d9a9"),
        BlockKind::InterruptController => s.append("#fcc419"),
        _ => s.append("#adb5bd"),
    }
}

fn push_register_dot(s: &mut String, sid: &str, r: &Register)
    ensures
        final(s)@ == old(s)@ + register_dot(sid@, *r),
{
    let mut rid = String::new();
    rid.append(sid);
    rid.append("_");
    push_hex(&mut rid, r.offset);
    let label = match &r.name {
        Some(n) => str_debug(n.as_str()),
        None => str_debug("reg"),
    };
    s.append("  ");
    s.append(rid.as_str());
    s.append(" [label=\"");
    s.append(label.as_str());
    s.append("\", shape=note, style=filled, fillcolor=\"#e0e0e0\", fontsize=9];\n");
    s.append("  ");
    s.append(sid);
    s.append(" -> ");
    s.append(rid.as_str());
    s.append(" [label=\"+0x");
    push_hex(s, r.offset);
    s.append("\", arrowhead=none];\n");
    assert(s@ =~= old(s)@ + register_dot(sid@, *r));
}

fn push_block_dot(s: &mut String, b: &FunctionalBlock)
    ensures
        final(s)@ == old(s)@ + block_dot(*b),
{
    let sid = sanitize_dot_id(b.id.as_str());
    s.append("  ");
    s.append(sid.as_str());
    s.append(" [label=<");
    push_block_name(s, b.kind);
    s.append("<br/><font point-size=\"10\">0x");
    push_hex_w(s, b.base_address, 8);
    s.append("</font>>, fillcolor=\"");
    push_block_color(s, b.kind);
    s.append("\"];\n");
    s.append("  cpu -> ");
    s.append(sid.as_str());
    s.append(" [label=\"MMIO\", style=dashed];\n");
    let ghost head = s@;
    let regs = &b.registers;
    assert(regs@.subrange(0, 0) =~= Seq::<Register>::empty());
    assert(s@ =~= head + registers_dot(sid@, regs@.subrange(0, 0)));
    let mut i: usize = 0;
    while i < regs.len()
        invariant
            i <= regs@.len(),
            s@ == head + registers_dot(sid@, regs@.subrange(0, i as int)),
        decreases regs@.len() - i,
    {
        push_register_dot(s, sid.as_str(), &regs[i]);
        proof {
            let sub = regs@.subrange(0, i as int + 1);
            assert(sub.drop_last() =~= regs@.subrange(0, i as int));
            assert(sub.last() == regs@[i as int]);
        }
        assert(s@ =~= head + registers_dot(sid@, regs@.subrange(0, i as int + 1)));
        i = i + 1;
    }
    assert(regs@.subrange(0, i as int) =~= regs@);
    if b.kind == BlockKind::InterruptController {
        s.append("  ");
        s.append(sid.as_str());
        s.append(" -> cpu [label=\"IRQ\", style=dashed, color=\"#fcc419\"];\n");
    }
    assert(s@ =~= old(s)@ + block_dot(*b));
}

fn push_region_labels(s: &mut String, rs: &Vec<MemoryRegion>)
    ensures
        final(s)@ == old(s)@ + region_labels(rs@),
{
    let ghost head = s@;
    assert(rs@.subrange(0, 0) =~= Seq::<MemoryRegion>::empty());
    assert(s@ =~= head + region_labels(rs@.subrange(0, 0)));
    let mut i: usize = 0;
    while i < rs.len()
        invariant
            i <= rs@.len(),
            s@ == head + region_labels(rs@.subrange(0, i as int)),
        decreases rs@.len() - i,
    {
        if i > 0 {
            s.append(",<br/>");
        }
        s.append(rs[i].region_type.as_str());
        s.append("@");
        push_hex_w(s, rs[i].base, 8);
        proof {
            let sub = rs@.subrange(0, i as int + 1);
            assert(sub.drop_last() =~= rs@.subrange(0, i as int));
            assert(sub.last() == rs@[i as int]);
        }
        assert(s@ =~= head + region_labels(rs@.subrange(0, i as int + 1)));
        i = i + 1;
    }
    assert(rs@.subrange(0, i as int) =~= rs@);
}

/// Renders the behavioral graph of `spec` as Graphviz DOT. The global
/// confidence comes rendered as a percentage with one decimal (`80.0`).
pub fn generate_dot(spec: &HardwareSpec, title: &str, confidence_pct: &str) -> (dot: String)
    ensures
        dot@ == dot_text(*spec, title@, confidence_pct@),
{
    let mut dot = String::new();
    dot.append("// B.A.S.E. Behavioral Graph\n");
    dot.append("digraph \"");
    let t = escape_dot(title);
    dot.append(t.as_str());
    dot.append("\" {\n");
    dot.append("  rankdir=LR;\n");
    dot.append("  splines=ortho;\n");
    dot.append("  node [shape=box, style=rounded, fontname=\"JetBrains Mono\"];\n");
    dot.append("  edge [fontname=\"JetBrains Mono\", fontsize=10];\n\n");
    dot.append("  cpu [label=<CPU<br/><font point-size=\"10\">");
    dot.append(spec.cpu.architecture.as_str());
    dot.append(" @ ");
    push_dec(&mut dot, spec.cpu.clock_mhz as u64);
    dot.append("MHz</font>>, shape=box, style=filled, fillcolor=\"#4a9eff\"];\n");
    dot.append("  mem [label=<Memory<br/><font point-size=\"10\">");
    push_region_labels(&mut dot, &spec.memory.regions);
    dot.append("</font>>, shape=box, style=filled, fillcolor=\"#69db7c\"];\n");
    dot.append("  cpu -> mem [label=\"bus\", style=bold];\n");
    let ghost head = dot@;
    let blocks = &spec.blocks;
    assert(blocks@.subrange(0, 0) =~= Seq::<FunctionalBlock>::empty());
    assert(dot@ =~= head + blocks_dot(blocks@.subrange(0, 0)));
    let mut i: usize = 0;
    while i < blocks.len()
        invariant
            i <= blocks@.len(),
            dot@ == head + blocks_dot(blocks@.subrange(0, i as int)),
        decreases blocks@.len() - i,
    {
        push_block_dot(&mut dot, &blocks[i]);
        proof {
            let sub = blocks@.subrange(0, i as int + 1);
            assert(sub.drop_last() =~= blocks@.subrange(0, i as int));
            assert(sub.last() == blocks@[i as int]);
        }
        assert(dot@ =~= head + blocks_dot(blocks@.subrange(0, i as int + 1)));
        i = i + 1;
    }
    assert(blocks@.subrange(0, i as int) =~= blocks@);
    dot.append("\n  // Confidence: ");
    dot.append(confidence_pct);
    dot.append("%\n");
    dot.append("}\n");
    assert(dot@ =~= dot_text(*spec, title@, confidence_pct@));
    dot
}

} // verus!
