//! Lossless numeral round trips and the accepted grammar.

use usmu::codec::ReadEepromResponse;
use usmu::commands::{Command, MeasureRequest, Voltage};
use usmu::decimal::Decimal;

fn render(value: f32) -> Vec<u8> {
    format!("{}", value).into_bytes()
}

fn parse_back(bytes: &[u8]) -> f32 {
    std::str::from_utf8(bytes).unwrap().parse().unwrap()
}

#[test]
fn float_conversion_is_reasonably_lossless() {
    // The finest measurement resolution of the device is 10 nanoamps, so it
    // suffices that such magnitudes survive the wire without loss: the
    // shortest decimal form goes out, comes back byte for byte, and reads
    // back as the identical value.
    let one_nano_amp = 0.000000001f32;
    let mut buffer = render(one_nano_amp);
    assert_eq!(buffer.as_slice(), b"0.000000001");
    buffer.push(b'\n');
    let reply = ReadEepromResponse::from_line(&buffer).unwrap();
    let decoded = parse_back(reply.value.bytes());
    assert_eq!(decoded, one_nano_amp);
}

#[test]
fn representative_magnitudes_round_trip_exactly() {
    for &value in
        &[0.0f32, 1.0, -1.0, 1.5, 0.002, 1e-9, 3.4e38, 1.1754944e-38, 0.1, -0.0408163, 2.0 / 49.0]
    {
        let token = render(value);
        let mut line = token.clone();
        line.push(b'\n');
        let reply = ReadEepromResponse::from_line(&line).unwrap();
        assert_eq!(reply.value.bytes(), &token);
        assert_eq!(parse_back(reply.value.bytes()).to_bits(), value.to_bits());
    }
}

#[test]
fn encoded_voltages_carry_the_exact_numeral() {
    let value = -0.9591837f32;
    let voltage = Voltage::from_bytes(render(value)).unwrap();
    let line = Command::Measure(MeasureRequest { voltage }).encode();
    let expected = [b"CH1:MEA:VOL ".to_vec(), render(value)].concat();
    assert_eq!(line, expected);
}

#[test]
fn the_grammar_accepts_plain_and_scientific_numerals() {
    for ok in ["0", "42", "-1", "+4", "1.5", "-0.001", "1e7", "1.5e-3", "2E+5", "007", "1e007"] {
        assert!(Decimal::from_bytes(ok.as_bytes().to_vec()).is_ok(), "{}", ok);
    }
}

#[test]
fn the_grammar_rejects_what_is_not_a_finite_numeral() {
    for bad in [
        "", " ", "1.", ".5", "-", "e5", "1e", "1e+", "abc", "NaN", "inf", "-inf", "1,5", "1 5",
        "1e12345678901", "--1", "1.5.2",
    ] {
        assert!(Decimal::from_bytes(bad.as_bytes().to_vec()).is_err(), "{}", bad);
    }
}
