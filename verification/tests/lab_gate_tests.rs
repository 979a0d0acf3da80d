use base_lib::lab_gate::{
    default_vid_pid, evaluate_lab_gate, evaluate_lab_gate_opts, parse_usb_id, GateHostFacts,
    LabGateOptions, ProbePresence,
};

/// What a CI host without a probe, programmer or SOP reports.
fn ci_host() -> GateHostFacts {
    GateHostFacts {
        presence: ProbePresence::Simulated,
        mock_env: false,
        programmer_feature: false,
        allow_flash: false,
        programmer_cmd: false,
        sop_is_file: false,
    }
}

#[test]
fn gate_never_production() {
    let r = evaluate_lab_gate(false, None, &ci_host());
    assert!(!r.production);
    assert!(!r.lab_assist_ready);
    assert!(r.checks.iter().any(|c| c.id == "A4" && c.green));
}

#[test]
fn sow_signed_alone_not_enough() {
    let r = evaluate_lab_gate(true, None, &ci_host());
    assert!(!r.lab_assist_ready);
    assert!(r.checks.iter().find(|c| c.id == "A5").unwrap().green);
}

#[test]
fn mock_detected_greens_a1() {
    let r = evaluate_lab_gate_opts(
        &LabGateOptions { sow_signed: false, sop_path: None, mock_detected: true },
        &ci_host(),
    );
    assert!(!r.production);
    assert!(r.checks.iter().find(|c| c.id == "A1").unwrap().green);
    assert!(!r.lab_assist_ready);
}

#[test]
fn all_five_green_make_the_lab_ready_but_never_production() {
    let host = GateHostFacts {
        presence: ProbePresence::Detected,
        mock_env: false,
        programmer_feature: true,
        allow_flash: true,
        programmer_cmd: true,
        sop_is_file: true,
    };
    let opts = LabGateOptions { sow_signed: true, sop_path: Some("lab/SOP.md".into()), mock_detected: false };
    let r = evaluate_lab_gate_opts(&opts, &host);
    assert!(r.lab_assist_ready);
    assert!(!r.production);
    assert_eq!(r.claim, "A");
    let ids: Vec<&str> = r.checks.iter().map(|c| c.id.as_str()).collect();
    assert_eq!(ids, vec!["A1", "A2", "A3", "A4", "A5"]);
    assert_eq!(r.checks[2].detail, "sop=lab/SOP.md");
    assert_eq!(r.checks[0].detail, "presence=Detected mock_flag=false mock_env=false (Simulated blocks lab flash)");
}

#[test]
fn sop_path_must_name_a_file() {
    let opts = LabGateOptions { sow_signed: true, sop_path: Some("missing.md".into()), mock_detected: false };
    let r = evaluate_lab_gate_opts(&opts, &ci_host());
    assert!(!r.checks[2].green);
    assert_eq!(r.checks[4].detail, "sow_signed=true");
    let none = evaluate_lab_gate(false, None, &ci_host());
    assert_eq!(none.checks[2].detail, "no --sop path");
    assert_eq!(none.checks[4].detail, "pass --sow-signed only after contract");
}

#[test]
fn default_probe_ids() {
    assert_eq!(default_vid_pid(), (0xCAFE, 0x4007));
}

#[test]
fn usb_ids_are_hexadecimal() {
    assert_eq!(parse_usb_id("0xcafe"), Some(0xCAFE));
    assert_eq!(parse_usb_id(" 0X4007 "), Some(0x4007));
    assert_eq!(parse_usb_id("0x0xbeef"), Some(0xBEEF));
    assert_eq!(parse_usb_id("4007"), Some(0x4007));
    assert_eq!(parse_usb_id("10000"), None);
    assert_eq!(parse_usb_id("cafez"), None);
    assert_eq!(parse_usb_id(""), None);
}
