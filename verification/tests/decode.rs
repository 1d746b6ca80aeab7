//! Reply decoding: the grammar, the error taxonomy, and lossless numerals.

use usmu::codec::{
    DifferentialConversionResponse, IdentityResponse, MeasureResponse, ReadEepromResponse,
};
use usmu::errors::ProtocolError;

fn line(text: &str) -> Vec<u8> {
    text.as_bytes().to_vec()
}

fn to_f32(bytes: &[u8]) -> f32 {
    std::str::from_utf8(bytes).unwrap().parse().unwrap()
}

#[test]
fn measure_parses_voltage_and_current() {
    let input = line("1.5,0.002");
    let (resp, used) = MeasureResponse::deserialize(&input, 0).unwrap();
    assert_eq!(resp.voltage.bytes().as_slice(), b"1.5");
    assert_eq!(resp.current.bytes().as_slice(), b"0.002");
    assert_eq!(used, input.len());
    assert_eq!(to_f32(resp.voltage.bytes()), 1.5f32);
    assert_eq!(to_f32(resp.current.bytes()), 0.002f32);
}

#[test]
fn measure_requires_the_comma_separator() {
    let input = line("1.5 0.002");
    let r = MeasureResponse::deserialize(&input, 0);
    assert!(matches!(r, Err(ProtocolError::UnexpectedToken { .. })));
}

#[test]
fn measure_rejects_a_malformed_numeral() {
    let input = line("abc,0.002");
    assert!(matches!(
        MeasureResponse::deserialize(&input, 0),
        Err(ProtocolError::Malformed)
    ));
    let input = line("1.5,x");
    assert!(matches!(
        MeasureResponse::deserialize(&input, 0),
        Err(ProtocolError::Malformed)
    ));
}

#[test]
fn measure_line_needs_its_terminator() {
    let full = line("1.5,0.002\n");
    let resp = MeasureResponse::from_line(&full).unwrap();
    assert_eq!(resp.voltage.bytes().as_slice(), b"1.5");
    let missing = line("1.5,0.002");
    assert!(matches!(
        MeasureResponse::from_line(&missing),
        Err(ProtocolError::UnexpectedToken { .. })
    ));
}

#[test]
fn measure_line_rejects_trailing_bytes() {
    let trailing = line("1.5,0.002\nx");
    assert!(matches!(
        MeasureResponse::from_line(&trailing),
        Err(ProtocolError::TrailingData)
    ));
}

#[test]
fn identity_parses_the_banner_and_id() {
    let input = line("uSMU version 1.0 ID:42");
    let (resp, used) = IdentityResponse::deserialize(&input, 0).unwrap();
    assert_eq!(resp.uid, 42);
    assert_eq!(used, input.len());
    let full = line("uSMU version 1.0 ID:42\n");
    assert_eq!(IdentityResponse::from_line(&full).unwrap().uid, 42);
}

#[test]
fn identity_requires_the_exact_banner() {
    let input = line("uSMU 1.0 ID:42");
    let r = IdentityResponse::deserialize(&input, 0);
    match r {
        Err(ProtocolError::UnexpectedToken { expected, found: _ }) => {
            assert_eq!(expected.as_slice(), b"uSMU version 1.0 ID:");
        },
        other => panic!("expected a banner mismatch, got {:?}", other),
    }
    // Case matters.
    let input = line("usmu version 1.0 ID:42");
    assert!(matches!(
        IdentityResponse::deserialize(&input, 0),
        Err(ProtocolError::UnexpectedToken { .. })
    ));
}

#[test]
fn identity_id_must_fit_thirty_two_bits() {
    let input = line("uSMU version 1.0 ID:4294967295");
    assert_eq!(IdentityResponse::deserialize(&input, 0).unwrap().0.uid, 4294967295);
    let input = line("uSMU version 1.0 ID:4294967296");
    assert!(matches!(
        IdentityResponse::deserialize(&input, 0),
        Err(ProtocolError::Malformed)
    ));
    let input = line("uSMU version 1.0 ID:");
    assert!(matches!(
        IdentityResponse::deserialize(&input, 0),
        Err(ProtocolError::Malformed)
    ));
}

#[test]
fn differential_conversion_reads_one_word() {
    let input = line("512\n");
    assert_eq!(DifferentialConversionResponse::from_line(&input).unwrap().value, 512);
    let input = line("65535\n");
    assert_eq!(DifferentialConversionResponse::from_line(&input).unwrap().value, 65535);
    let input = line("65536\n");
    assert!(matches!(
        DifferentialConversionResponse::from_line(&input),
        Err(ProtocolError::Malformed)
    ));
}

#[test]
fn eeprom_read_keeps_the_numeral_exact() {
    let input = line("1.25e-3\n");
    let resp = ReadEepromResponse::from_line(&input).unwrap();
    assert_eq!(resp.value.bytes().as_slice(), b"1.25e-3");
    assert_eq!(to_f32(resp.value.bytes()), 1.25e-3f32);
}
