//! Industrial Gate A: the HIL lab pre-conditions A1–A5, decided from what the
//! host reports (probe presence, programmer gating, SOP file, signed SOW).
//! The report never claims production.

use vstd::prelude::*;
use crate::classify::{parse_u64_radix, parse_uint, trim, trimmed};
use crate::text::text;

verus! {

/// Default USB vendor id of the lab probe.
pub const DEFAULT_PROBE_VID: u16 = 0xCAFE;

/// Default USB product id of the lab probe.
pub const DEFAULT_PROBE_PID: u16 = 0x4007;

/// Environment variable that forces a Detected probe without USB.
pub const ENV_MOCK_DETECTED: &'static str = "BASE_HIL_MOCK_DETECTED";

/// Environment variable that allows flashing.
pub const ENV_ALLOW_FLASH: &'static str = "BASE_HIL_ALLOW_FLASH";

/// Environment variable naming the external programmer command.
pub const ENV_PROGRAMMER_CMD: &'static str = "BASE_HIL_PROGRAMMER_CMD";

/// Whether a probe answered on the bus.
#[derive(Clone, Copy, Debug, PartialEq, Eq, Structural)]
pub enum ProbePresence {
    /// A real (or explicitly mocked) probe answered.
    Detected,
    /// No probe: the agent runs simulated and never flashes.
    Simulated,
}

/// One pre-condition of Gate A.
#[derive(Debug, Clone)]
pub struct GateCheck {
    pub id: String,
    pub name: String,
    pub green: bool,
    pub detail: String,
}

/// The verdict of Gate A.
#[derive(Debug, Clone)]
pub struct LabGateReport {
    /// Industrial Gate claim letter.
    pub claim: &'static str,
    pub production: bool,
    pub lab_assist_ready: bool,
    pub checks: Vec<GateCheck>,
    pub sow_path_hint: &'static str,
}

/// Options of the evaluation.
#[derive(Debug, Clone)]
pub struct LabGateOptions {
    pub sow_signed: bool,
    /// Displayed path of the lab SOP, when one was given.
    pub sop_path: Option<String>,
    /// Force A1 Detected offline (lab rehearsal; not a real USB probe).
    pub mock_detected: bool,
}

/// What the host reported for Gate A.
#[derive(Debug, Clone, Copy, PartialEq, Eq, Structural)]
pub struct GateHostFacts {
    /// Enumeration result for the probe (consulted unless the probe is mocked).
    pub presence: ProbePresence,
    /// `ENV_MOCK_DETECTED` is set.
    pub mock_env: bool,
    /// The programmer backend was built in.
    pub programmer_feature: bool,
    /// `ENV_ALLOW_FLASH` is set.
    pub allow_flash: bool,
    /// `ENV_PROGRAMMER_CMD` is set to a non-blank command.
    pub programmer_cmd: bool,
    /// The SOP path names an existing file.
    pub sop_is_file: bool,
}

/// A check as plain values: id, name, green, detail.
pub type CheckModel = (Seq<char>, Seq<char>, bool, Seq<char>);

/// Model of a check.
pub open spec fn check_model(c: GateCheck) -> CheckModel {
    (c.id@, c.name@, c.green, c.detail@)
}

/// Text of a boolean.
pub open spec fn bool_text(b: bool) -> Seq<char> {
    if b { "true"@ } else { "false"@ }
}

/// Name of a presence.
pub open spec fn presence_text(p: ProbePresence) -> Seq<char> {
    match p {
        ProbePresence::Detected => "Detected"@,
        ProbePresence::Simulated => "Simulated"@,
    }
}

/// The presence Gate A uses: Detected when mocked, else the host's.
pub open spec fn gate_presence(opts: LabGateOptions, host: GateHostFacts) -> ProbePresence {
    if opts.mock_detected { ProbePresence::Detected } else { host.presence }
}

/// A2: the programmer is built in, allowed, and has a command.
pub open spec fn programmer_gated(host: GateHostFacts) -> bool {
    host.programmer_feature && host.allow_flash && host.programmer_cmd
}

/// A3: a SOP path was given and it is a file.
pub open spec fn sop_written(opts: LabGateOptions, host: GateHostFacts) -> bool {
    opts.sop_path is Some && host.sop_is_file
}

/// The five checks of Gate A, in order.
pub open spec fn gate_checks(opts: LabGateOptions, host: GateHostFacts) -> Seq<CheckModel> {
    let p = gate_presence(opts, host);
    seq![
        (
            "A1"@,
            "Probe Detected"@,
            p == ProbePresence::Detected,
            "presence="@ + presence_text(p) + " mock_flag="@ + bool_text(opts.mock_detected)
                + " mock_env="@ + bool_text(host.mock_env) + " (Simulated blocks lab flash)"@,
        ),
        (
            "A2"@,
            "Programmer gated"@,
            programmer_gated(host),
            "feature="@ + bool_text(host.programmer_feature) + " "@ + ENV_ALLOW_FLASH@ + "="@
                + bool_text(host.allow_flash) + " "@ + ENV_PROGRAMMER_CMD@ + "="@ + bool_text(
                host.programmer_cmd,
            ),
        ),
        (
            "A3"@,
            "SOP written"@,
            sop_written(opts, host),
            match opts.sop_path {
                Some(path) => "sop="@ + path@,
                None => "no --sop path"@,
            },
        ),
        ("A4"@, "Receipt \u{2260} production"@, true, "FlashReceipt.mode never \"production\" (invariant)"@),
        (
            "A5"@,
            "SOW \u{a7}HIL signed"@,
            opts.sow_signed,
            if opts.sow_signed { "sow_signed=true"@ } else { "pass --sow-signed only after contract"@ },
        ),
    ]
}

fn push_bool(s: &mut String, b: bool)
    ensures
        final(s)@ == old(s)@ + bool_text(b),
{
    if b {
        s.append("true");
    } else {
        s.append("false");
    }
}

fn check(id: &str, name: &str, green: bool, detail: String) -> (c: GateCheck)
    ensures
        check_model(c) == (id@, name@, green, detail@),
{
    GateCheck { id: text(id), name: text(name), green, detail }
}

/// Evaluates Gate A from the options and what the host reported. `production`
/// is never set; the lab is ready only when all five checks are green.
pub fn evaluate_lab_gate_opts(opts: &LabGateOptions, host: &GateHostFacts) -> (r: LabGateReport)
    ensures
        r.claim@ == "A"@,
        !r.production,
        r.checks@.len() == 5,
        forall|i: int| 0 <= i < 5 ==> check_model(#[trigger] r.checks@[i]) == gate_checks(*opts, *host)[i],
        r.lab_assist_ready == (forall|i: int| 0 <= i < 5 ==> (#[trigger] r.checks@[i]).green),
        r.sow_path_hint@ == "base-vault/22 - Path to v1.2/22.30 - SOW Industrial Gate.md"@,
{
    let presence = if opts.mock_detected { ProbePresence::Detected } else { host.presence };
    let a1 = presence == ProbePresence::Detected;
    let a2 = host.programmer_feature && host.allow_flash && host.programmer_cmd;
    let a3 = match &opts.sop_path {
        Some(_) => host.sop_is_file,
        None => false,
    };
    let a5 = opts.sow_signed;

    let mut d1 = text("presence=");
    match presence {
        ProbePresence::Detected => d1.append("Detected"),
        ProbePresence::Simulated => d1.append("Simulated"),
    }
    d1.append(" mock_flag=");
    push_bool(&mut d1, opts.mock_detected);
    d1.append(" mock_env=");
    push_bool(&mut d1, host.mock_env);
    d1.append(" (Simulated blocks lab flash)");

    let mut d2 = text("feature=");
    push_bool(&mut d2, host.programmer_feature);
    d2.append(" ");
    d2.append(ENV_ALLOW_FLASH);
    d2.append("=");
    push_bool(&mut d2, host.allow_flash);
    d2.append(" ");
    d2.append(ENV_PROGRAMMER_CMD);
    d2.append("=");
    push_bool(&mut d2, host.programmer_cmd);

    let d3 = match &opts.sop_path {
        Some(p) => {
            let mut d = text("sop=");
            d.append(p.as_str());
            d
        },
        None => text("no --sop path"),
    };
    let d4 = text("FlashReceipt.mode never \"production\" (invariant)");
    let d5 = if a5 { text("sow_signed=true") } else { text("pass --sow-signed only after contract") };

    let mut checks: Vec<GateCheck> = Vec::new();
    checks.push(check("A1", "Probe Detected", a1, d1));
    checks.push(check("A2", "Programmer gated", a2, d2));
    checks.push(check("A3", "SOP written", a3, d3));
    checks.push(check("A4", "Receipt \u{2260} production", true, d4));
    checks.push(check("A5", "SOW \u{a7}HIL signed", a5, d5));

    let lab_assist_ready = a1 && a2 && a3 && a5;
    proof {
        let g = gate_checks(*opts, *host);
        assert(check_model(checks@[0]) == g[0]);
        assert(check_model(checks@[1]) == g[1]);
        assert(check_model(checks@[2]) == g[2]);
        assert(check_model(checks@[3]) == g[3]);
        assert(check_model(checks@[4]) == g[4]);
    }
    let ghost cs = checks@;
    let r = LabGateReport {
        claim: "A",
        production: false,
        lab_assist_ready,
        checks,
        sow_path_hint: "base-vault/22 - Path to v1.2/22.30 - SOW Industrial Gate.md",
    };
    assert(r.checks@ == cs);
    r
}

/// Evaluates Gate A without mocking the probe.
pub fn evaluate_lab_gate(sow_signed: bool, sop_path: Option<String>, host: &GateHostFacts) -> (r:
    LabGateReport)
    ensures
        ({
            let opts = LabGateOptions { sow_signed, sop_path, mock_detected: false };
            &&& r.claim@ == "A"@
            &&& !r.production
            &&& r.checks@.len() == 5
            &&& forall|i: int|
                0 <= i < 5 ==> check_model(#[trigger] r.checks@[i]) == gate_checks(opts, *host)[i]
            &&& r.lab_assist_ready == (forall|i: int| 0 <= i < 5 ==> (#[trigger] r.checks@[i]).green)
        }),
{
    let opts = LabGateOptions { sow_signed, sop_path, mock_detected: false };
    evaluate_lab_gate_opts(&opts, host)
}

/// `s` without any leading repetitions of the two-character prefix `p0 p1`.
pub open spec fn strip_repeated(s: Seq<char>, p0: char, p1: char) -> Seq<char>
    decreases s.len(),
{
    if s.len() >= 2 && s[0] == p0 && s[1] == p1 {
        strip_repeated(s.subrange(2, s.len() as int), p0, p1)
    } else {
        s
    }
}

/// The USB id an operator wrote: hexadecimal, blanks around it ignored,
/// leading `0x` (then `0X`) prefixes dropped, at most 0xFFFF.
pub open spec fn usb_id(s: Seq<char>) -> Option<u16> {
    let t = strip_repeated(strip_repeated(trimmed(s), '0', 'x'), '0', 'X');
    match parse_uint(t, 16) {
        Some(v) => if v <= 0xFFFF { Some(v as u16) } else { None },
        None => None,
    }
}

fn strip_repeated_exec<'a>(s: &'a str, p1: char) -> (t: &'a str)
    ensures
        t@ == strip_repeated(s@, '0', p1),
    decreases s@.len(),
{
    let n = s.unicode_len();
    if n >= 2 && s.get_char(0) == '0' && s.get_char(1) == p1 {
        strip_repeated_exec(s.substring_char(2, n), p1)
    } else {
        s
    }
}

/// Parses a USB vendor or product id (hexadecimal, optional `0x`).
pub fn parse_usb_id(s: &str) -> (r: Option<u16>)
    ensures
        r == usb_id(s@),
{
    let t = strip_repeated_exec(strip_repeated_exec(trim(s), 'x'), 'X');
    match parse_u64_radix(t, 16) {
        Some(v) => if v <= 0xFFFF {
            Some(v as u16)
        } else {
            None
        },
        None => None,
    }
}

/// The default probe ids.
pub fn default_vid_pid() -> (r: (u16, u16))
    ensures
        r == (DEFAULT_PROBE_VID, DEFAULT_PROBE_PID),
{
    (DEFAULT_PROBE_VID, DEFAULT_PROBE_PID)
}

} // verus!
