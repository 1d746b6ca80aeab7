//! Command construction domains and exact wire encodings.

use usmu::commands::{
    Command, Current, CurrentRange, DifferentialConversionRequest, DisableRequest, EepromAddress,
    EnableRequest, EnableVoltageCalibrationModeRequest, IdentityRequest,
    LockCurrentRangeAndClearCalibrationRequest, MeasureRequest, ReadEepromRequest, ResetRequest,
    SetCurrentLimitDacRequest, SetCurrentLimitRequest, SetOverSampleRateRequest,
    SetVoltageDacRequest, SetVoltageRequest, Voltage, WriteCurrentLimitCalibrationRequest,
    WriteCurrentLimitDacCalibrationRequest, WriteEepromRequest, WriteVoltageAdcCalibrationRequest,
    WriteVoltageDacCalibrationRequest,
};
use usmu::decimal::Decimal;
use usmu::session::frame_command;

fn amps(text: &str) -> Current {
    Current::from_bytes(text.as_bytes().to_vec()).unwrap()
}

fn volts(text: &str) -> Voltage {
    Voltage::from_bytes(text.as_bytes().to_vec()).unwrap()
}

fn num(text: &str) -> Decimal {
    Decimal::from_bytes(text.as_bytes().to_vec()).unwrap()
}

#[test]
fn current_limit_accepts_the_device_domain() {
    // Zero and forty milliamperes, written in amperes.
    assert!(SetCurrentLimitRequest::new(amps("0")).is_ok());
    assert!(SetCurrentLimitRequest::new(amps("0.04")).is_ok());
    assert!(SetCurrentLimitRequest::new(amps("0.02")).is_ok());
    assert!(SetCurrentLimitRequest::new(amps("0.039999")).is_ok());
    assert!(SetCurrentLimitRequest::new(amps("4e-2")).is_ok());
}

#[test]
fn current_limit_rejects_out_of_domain_values() {
    // Minus one milliampere and one hundred milliamperes.
    assert!(SetCurrentLimitRequest::new(amps("-0.001")).is_err());
    assert!(SetCurrentLimitRequest::new(amps("0.1")).is_err());
    assert!(SetCurrentLimitRequest::new(amps("0.040001")).is_err());
    assert!(SetCurrentLimitRequest::new(amps("-0")).is_err());
    assert!(SetCurrentLimitRequest::new(amps("5e-2")).is_err());
}

#[test]
#[should_panic]
fn current_limit_panics_for_values_below_zero() {
    // Minus one milliampere is minus a thousandth of an ampere.
    SetCurrentLimitRequest::new(amps("-0.001")).unwrap();
}

#[test]
#[should_panic]
fn current_limit_panics_for_excessive_values() {
    // One hundred milliamperes is a tenth of an ampere.
    SetCurrentLimitRequest::new(amps("0.1")).unwrap();
}

#[test]
#[should_panic]
fn current_limit_dac_cannot_exceed_12_bit() {
    SetCurrentLimitDacRequest::new(0b0001_0000_0000_0000).unwrap();
}

#[test]
fn current_limit_dac_accepts_twelve_bits() {
    assert!(SetCurrentLimitDacRequest::new(0).is_ok());
    assert!(SetCurrentLimitDacRequest::new(1).is_ok());
    assert!(SetCurrentLimitDacRequest::new(2047).is_ok());
    assert!(SetCurrentLimitDacRequest::new(4095).is_ok());
    assert!(SetCurrentLimitDacRequest::new(4096).is_err());
    assert!(SetCurrentLimitDacRequest::new(u16::MAX).is_err());
}

#[test]
fn differential_conversion_allows_channels_zero_and_two() {
    assert!(DifferentialConversionRequest::new(0).is_ok());
    assert!(DifferentialConversionRequest::new(2).is_ok());
    assert!(DifferentialConversionRequest::new(1).is_err());
    assert!(DifferentialConversionRequest::new(3).is_err());
    assert!(DifferentialConversionRequest::new(255).is_err());
}

#[test]
fn current_range_allows_one_through_four() {
    assert!(CurrentRange::new(1).is_ok());
    assert!(CurrentRange::new(2).is_ok());
    assert!(CurrentRange::new(3).is_ok());
    assert!(CurrentRange::new(4).is_ok());
    assert!(CurrentRange::new(0).is_err());
    assert!(CurrentRange::new(5).is_err());
}

#[test]
fn write_eeprom_is_always_refused() {
    let req = WriteEepromRequest { address: EepromAddress { value: 3 }, value: num("1.5") };
    assert!(req.command().is_err());
}

#[test]
fn plain_commands_encode_to_their_mnemonics() {
    assert_eq!(Command::Enable(EnableRequest).encode(), b"CH1:ENA");
    assert_eq!(Command::Disable(DisableRequest).encode(), b"CH1:DIS");
    assert_eq!(
        Command::EnableVoltageCalibrationMode(EnableVoltageCalibrationModeRequest).encode(),
        b"CH1:VCAL"
    );
    assert_eq!(Command::Reset(ResetRequest).encode(), b"*RST");
    assert_eq!(Command::Identity(IdentityRequest).encode(), b"*IDN?");
}

#[test]
fn parameter_commands_encode_their_fields() {
    assert_eq!(
        Command::SetVoltage(SetVoltageRequest { voltage: volts("1.5") }).encode(),
        b"CH1:VOL 1.5"
    );
    assert_eq!(
        Command::Measure(MeasureRequest { voltage: volts("-0.5") }).encode(),
        b"CH1:MEA:VOL -0.5"
    );
    assert_eq!(
        Command::SetOverSampleRate(SetOverSampleRateRequest { samples: 10 }).encode(),
        b"CH1:OSR 10"
    );
    assert_eq!(Command::SetVoltageDac(SetVoltageDacRequest { level: 512 }).encode(), b"DAC 512");
    assert_eq!(
        Command::DifferentialConversion(DifferentialConversionRequest::channel_two()).encode(),
        b"ADC 2"
    );
    assert_eq!(
        Command::SetCurrentLimitDac(SetCurrentLimitDacRequest::new(4095).unwrap()).encode(),
        b"ILIM 4095"
    );
    assert_eq!(
        Command::LockCurrentRangeAndClearCalibration(LockCurrentRangeAndClearCalibrationRequest {
            range: CurrentRange::new(2).unwrap(),
        })
        .encode(),
        b"CH1:RANGE2"
    );
    assert_eq!(
        Command::ReadEeprom(ReadEepromRequest { address: EepromAddress { value: 17 } }).encode(),
        b"*READ 17"
    );
}

#[test]
fn current_limit_encodes_as_milliamperes() {
    // Twenty milliamperes is 0.02 A; the decimal point moves three places.
    let req = SetCurrentLimitRequest::new(amps("0.02")).unwrap();
    assert_eq!(Command::SetCurrentLimit(req).encode(), b"CH1:CUR 0020");
    let req = SetCurrentLimitRequest::new(amps("0.0015")).unwrap();
    assert_eq!(Command::SetCurrentLimit(req).encode(), b"CH1:CUR 0001.5");
    let req = SetCurrentLimitRequest::new(amps("4e-2")).unwrap();
    assert_eq!(Command::SetCurrentLimit(req).encode(), b"CH1:CUR 4000e-2");
}

#[test]
fn calibration_commands_encode_their_pairs() {
    assert_eq!(
        Command::WriteVoltageDacCalibration(WriteVoltageDacCalibrationRequest {
            slope: num("1.5"),
            intercept: num("-0.25"),
        })
        .encode(),
        b"CAL:DAC 1.5 -0.25"
    );
    assert_eq!(
        Command::WriteVoltageAdcCalibration(WriteVoltageAdcCalibrationRequest {
            slope: num("2"),
            intercept: num("3"),
        })
        .encode(),
        b"CAL:VOL 2 3"
    );
    assert_eq!(
        Command::WriteCurrentLimitCalibration(WriteCurrentLimitCalibrationRequest {
            range: CurrentRange::new(3).unwrap(),
            slope: num("1.5"),
            intercept: num("2.5"),
        })
        .encode(),
        b"CAL:CUR:RANGE 3 1.5 2.5"
    );
    assert_eq!(
        Command::WriteCurrentLimitDacCalibration(WriteCurrentLimitDacCalibrationRequest {
            slope: num("1"),
            intercept: num("2"),
        })
        .encode(),
        b"CAL:ILIM 1 2"
    );
}

#[test]
fn framing_appends_the_terminator() {
    let cmd = Command::SetVoltage(SetVoltageRequest { voltage: volts("1") });
    assert_eq!(frame_command(&cmd), b"CH1:VOL 1\n");
}
