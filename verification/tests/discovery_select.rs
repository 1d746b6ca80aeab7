//! Discovery: USB identity filtering and device selection.

use usmu::discovery::{filter_usmu_ports, select, DiscoveryError, PortCandidate, SmuConnectionParameter};
use usmu::{USB_PID, USB_VID};

fn candidate(name: &str, identity: Option<&str>) -> PortCandidate {
    PortCandidate {
        port_name: name.as_bytes().to_vec(),
        vid: USB_VID,
        pid: USB_PID,
        identity: identity.map(|s| s.as_bytes().to_vec()),
    }
}

fn sel(text: &str) -> Option<Vec<u8>> {
    Some(text.as_bytes().to_vec())
}

#[test]
fn filtering_keeps_only_the_device_identity() {
    let ports = vec![
        candidate("/dev/ttyACM0", None),
        PortCandidate {
            port_name: b"/dev/ttyUSB7".to_vec(),
            vid: 1027,
            pid: 24577,
            identity: None,
        },
        candidate("/dev/ttyACM2", Some("7")),
    ];
    let kept = filter_usmu_ports(ports);
    assert_eq!(kept.len(), 2);
    assert_eq!(kept[0].port_name.as_slice(), b"/dev/ttyACM0");
    assert_eq!(kept[1].port_name.as_slice(), b"/dev/ttyACM2");
}

#[test]
fn zero_candidates_are_not_found() {
    let r = select(Vec::new(), None, None);
    assert!(matches!(r, Err(DiscoveryError::NotFound)));
}

#[test]
fn a_single_candidate_is_selected_without_selectors() {
    let r = select(vec![candidate("/dev/ttyACM0", Some("42"))], None, None);
    assert_eq!(r.unwrap().port_name.as_slice(), b"/dev/ttyACM0");
}

#[test]
fn a_single_candidate_wins_even_against_the_selectors() {
    // One candidate is selected regardless of what the selectors say.
    let r = select(vec![candidate("/dev/ttyACM0", Some("42"))], sel("/dev/ttyACM9"), None);
    assert_eq!(r.unwrap().port_name.as_slice(), b"/dev/ttyACM0");
}

#[test]
fn two_candidates_without_selectors_are_ambiguous() {
    let cands = vec![candidate("/dev/ttyACM0", Some("1")), candidate("/dev/ttyACM1", Some("2"))];
    match select(cands, None, None) {
        Err(DiscoveryError::Ambiguous(listed)) => {
            assert_eq!(listed.len(), 2);
            assert_eq!(listed[0].port_name.as_slice(), b"/dev/ttyACM0");
            assert_eq!(listed[1].port_name.as_slice(), b"/dev/ttyACM1");
        },
        other => panic!("expected ambiguity, got {:?}", other),
    }
}

#[test]
fn a_port_selector_picks_the_single_match() {
    let cands = vec![candidate("/dev/ttyACM0", Some("1")), candidate("/dev/ttyACM1", Some("2"))];
    let r = select(cands, sel("/dev/ttyACM1"), None);
    assert_eq!(r.unwrap().port_name.as_slice(), b"/dev/ttyACM1");
}

#[test]
fn an_identity_selector_picks_the_single_match() {
    let cands = vec![candidate("/dev/ttyACM0", Some("1")), candidate("/dev/ttyACM1", Some("2"))];
    let r = select(cands, None, sel("2"));
    assert_eq!(r.unwrap().port_name.as_slice(), b"/dev/ttyACM1");
}

#[test]
fn a_selector_matching_nothing_is_not_found() {
    let cands = vec![candidate("/dev/ttyACM0", Some("1")), candidate("/dev/ttyACM1", Some("2"))];
    let r = select(cands, sel("/dev/ttyACM9"), None);
    assert!(matches!(r, Err(DiscoveryError::NotFound)));
}

#[test]
fn a_selector_matching_both_stays_ambiguous() {
    let cands = vec![candidate("/dev/ttyACM0", Some("7")), candidate("/dev/ttyACM1", Some("7"))];
    match select(cands, None, sel("7")) {
        Err(DiscoveryError::Ambiguous(listed)) => assert_eq!(listed.len(), 2),
        other => panic!("expected ambiguity, got {:?}", other),
    }
}

#[test]
fn a_failed_identity_read_never_passes_an_identity_selector() {
    let cands = vec![candidate("/dev/ttyACM0", None), candidate("/dev/ttyACM1", Some("7"))];
    let r = select(cands, None, sel("7"));
    assert_eq!(r.unwrap().port_name.as_slice(), b"/dev/ttyACM1");
}

#[test]
fn both_selectors_apply_together() {
    let cands = vec![
        candidate("/dev/ttyACM0", Some("7")),
        candidate("/dev/ttyACM1", Some("7")),
        candidate("/dev/ttyACM1", Some("8")),
    ];
    let params = SmuConnectionParameter { port: sel("/dev/ttyACM1"), serial_number: sel("7") };
    let r = params.select(cands);
    assert_eq!(r.unwrap().identity.unwrap().as_slice(), b"7");
}
