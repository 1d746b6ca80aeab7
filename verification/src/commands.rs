//! The command catalog: the closed set of operations the device accepts.
//!
//! Each request type carries validated parameters; construction of a request
//! with an out-of-domain parameter fails with a `ConfigurationError` and the
//! value never reaches the encoder. The encoder turns a request into its
//! exact wire line (without the terminator), as one byte sequence.

use vstd::prelude::*;

use crate::decimal::{
    clean_ascii_line, dec_rep, is_decimal_token, mant_val, scale, scaled_le, shifted_milli,
    token_neg, Decimal,
};
use crate::errors::{ConfigurationError, UnsupportedOperation};

verus! {

/// A voltage in volts, held as its exact decimal numeral.
#[derive(Debug)]
pub struct Voltage(pub Decimal);

impl View for Voltage {
    type V = Seq<u8>;

    open spec fn view(&self) -> Seq<u8> {
        self.0@
    }
}

impl Voltage {
    /// Accepts the bytes as a voltage numeral in volts.
    pub fn from_bytes(bytes: Vec<u8>) -> (r: Result<Voltage, ConfigurationError>)
        ensures
            r is Ok <==> is_decimal_token(bytes@),
            r matches Ok(v) ==> v@ == bytes@,
    {
        match Decimal::from_bytes(bytes) {
            Ok(d) => Ok(Voltage(d)),
            Err(e) => Err(e),
        }
    }

    /// A second copy of the voltage.
    pub fn duplicate(&self) -> (r: Voltage)
        ensures
            r@ == self@,
    {
        Voltage(self.0.duplicate())
    }

    /// The numeral's bytes.
    pub fn bytes(&self) -> (r: &Vec<u8>)
        ensures
            r@ == self@,
    {
        self.0.bytes()
    }
}

/// A current in amperes, held as its exact decimal numeral.
#[derive(Debug)]
pub struct Current(pub Decimal);

impl View for Current {
    type V = Seq<u8>;

    open spec fn view(&self) -> Seq<u8> {
        self.0@
    }
}

impl Current {
    /// Accepts the bytes as a current numeral in amperes.
    pub fn from_bytes(bytes: Vec<u8>) -> (r: Result<Current, ConfigurationError>)
        ensures
            r is Ok <==> is_decimal_token(bytes@),
            r matches Ok(c) ==> c@ == bytes@,
    {
        match Decimal::from_bytes(bytes) {
            Ok(d) => Ok(Current(d)),
            Err(e) => Err(e),
        }
    }

    /// A second copy of the current.
    pub fn duplicate(&self) -> (r: Current)
        ensures
            r@ == self@,
    {
        Current(self.0.duplicate())
    }

    /// The numeral's bytes.
    pub fn bytes(&self) -> (r: &Vec<u8>)
        ensures
            r@ == self@,
    {
        self.0.bytes()
    }
}

/// The current-limit domain: not negative and at most forty milliamperes.
/// The numeral is in amperes, so the magnitude bound is `4 * 10^-2`.
pub open spec fn valid_current_limit(s: Seq<u8>) -> bool {
    &&& !token_neg(s)
    &&& scaled_le(mant_val(s), scale(s), 4, 2)
}

/// Enables the device output.
#[derive(Debug)]
pub struct EnableRequest;

/// Disables the device output (high impedance).
#[derive(Debug)]
pub struct DisableRequest;

/// Sets the sink/source current limit.
///
/// The limit is an absolute value applied to both source and sink current.
/// It must lie in `[0, 40]` milliamperes, the device's current capability;
/// construction fails on any other value.
#[derive(Debug)]
pub struct SetCurrentLimitRequest {
    limit: Current,
}

impl View for SetCurrentLimitRequest {
    type V = Seq<u8>;

    closed spec fn view(&self) -> Seq<u8> {
        self.limit@
    }
}

impl SetCurrentLimitRequest {
    /// A held limit is always within the device's domain.
    #[verifier::type_invariant]
    pub open spec fn wf(self) -> bool {
        valid_current_limit(self@)
    }

    /// A second copy of the request.
    pub fn duplicate(&self) -> (r: SetCurrentLimitRequest)
        ensures
            r@ == self@,
    {
        proof {
            use_type_invariant(self);
        }
        SetCurrentLimitRequest { limit: self.limit.duplicate() }
    }

    /// Validates the limit: succeeds exactly when it is not negative and at
    /// most forty milliamperes.
    pub fn new(limit: Current) -> (r: Result<SetCurrentLimitRequest, ConfigurationError>)
        ensures
            r is Ok <==> valid_current_limit(limit@),
            r matches Ok(req) ==> req@ == limit@,
    {
        if !limit.0.is_negative() && limit.0.magnitude_le(4, 2) {
            Ok(SetCurrentLimitRequest { limit })
        } else {
            Err(ConfigurationError)
        }
    }
}

/// Sets the output voltage.
#[derive(Debug)]
pub struct SetVoltageRequest {
    pub voltage: Voltage,
}

/// Sets the output voltage and measures voltage and current.
#[derive(Debug)]
pub struct MeasureRequest {
    pub voltage: Voltage,
}

/// Sets the number of raw samples averaged per reported measurement.
#[derive(Debug)]
pub struct SetOverSampleRateRequest {
    pub samples: u16,
}

/// Sets the voltage DAC to a raw level.
#[derive(Debug)]
pub struct SetVoltageDacRequest {
    pub level: u16,
}

/// Performs a differential conversion between adjacent ADC channels.
///
/// Only channels `0` and `2` can start a differential conversion; the
/// measurement is sampled against the next adjacent channel.
#[derive(Debug)]
pub struct DifferentialConversionRequest {
    channel: u8,
}

impl DifferentialConversionRequest {
    /// The channel under conversion.
    pub closed spec fn spec_channel(&self) -> u8 {
        self.channel
    }

    /// A held channel is always valid for differential conversion.
    #[verifier::type_invariant]
    pub open spec fn wf(self) -> bool {
        self.spec_channel() == 0 || self.spec_channel() == 2
    }

    /// Validates the channel: succeeds exactly for `0` and `2`.
    pub fn new(channel: u8) -> (r: Result<DifferentialConversionRequest, ConfigurationError>)
        ensures
            r is Ok <==> (channel == 0 || channel == 2),
            r matches Ok(req) ==> req.spec_channel() == channel,
    {
        if channel == 0 || channel == 2 {
            Ok(DifferentialConversionRequest { channel })
        } else {
            Err(ConfigurationError)
        }
    }

    /// The conversion on channel zero.
    pub fn channel_zero() -> (r: DifferentialConversionRequest)
        ensures
            r.spec_channel() == 0,
    {
        DifferentialConversionRequest { channel: 0 }
    }

    /// The conversion on channel two.
    pub fn channel_two() -> (r: DifferentialConversionRequest)
        ensures
            r.spec_channel() == 2,
    {
        DifferentialConversionRequest { channel: 2 }
    }
}

/// Sets the current-limit DAC to a raw level.
///
/// The level must fit the DAC's twelve bits; construction fails beyond
/// `4095`.
#[derive(Debug)]
pub struct SetCurrentLimitDacRequest {
    level: u16,
}

impl SetCurrentLimitDacRequest {
    /// The raw DAC level.
    pub closed spec fn spec_level(&self) -> u16 {
        self.level
    }

    /// A held level always fits twelve bits.
    #[verifier::type_invariant]
    pub open spec fn wf(self) -> bool {
        self.spec_level() < 4096
    }

    /// Validates the level: succeeds exactly below `4096`.
    pub fn new(level: u16) -> (r: Result<SetCurrentLimitDacRequest, ConfigurationError>)
        ensures
            r is Ok <==> level < 4096,
            r matches Ok(req) ==> req.spec_level() == level,
    {
        if level < 4096 {
            Ok(SetCurrentLimitDacRequest { level })
        } else {
            Err(ConfigurationError)
        }
    }
}

/// Enables the voltage calibration mode.
#[derive(Debug)]
pub struct EnableVoltageCalibrationModeRequest;

/// One of the device's four current ranges.
#[derive(Debug)]
pub struct CurrentRange {
    value: u8,
}

impl CurrentRange {
    /// The range selector.
    pub closed spec fn spec_value(&self) -> u8 {
        self.value
    }

    /// A held selector is always one of the four ranges.
    #[verifier::type_invariant]
    pub open spec fn wf(self) -> bool {
        1 <= self.spec_value() <= 4
    }

    /// Validates the selector: succeeds exactly for `1` through `4`.
    pub fn new(value: u8) -> (r: Result<CurrentRange, ConfigurationError>)
        ensures
            r is Ok <==> (1 <= value <= 4),
            r matches Ok(range) ==> range.spec_value() == value,
    {
        if 1 <= value && value <= 4 {
            Ok(CurrentRange { value })
        } else {
            Err(ConfigurationError)
        }
    }
}

/// Locks the current range and temporarily clears current calibration data.
#[derive(Debug)]
pub struct LockCurrentRangeAndClearCalibrationRequest {
    pub range: CurrentRange,
}

/// An EEPROM cell address.
#[derive(Debug, Clone, Copy)]
pub struct EepromAddress {
    pub value: u8,
}

/// Writes a value to an EEPROM address.
///
/// The device firmware does not implement this command the way its
/// documentation states, so sending it is unsafe; turning the request into a
/// command always fails with `UnsupportedOperation`. The other calibration
/// write commands cover the EEPROM cells that matter.
#[derive(Debug)]
pub struct WriteEepromRequest {
    pub address: EepromAddress,
    pub value: Decimal,
}

impl WriteEepromRequest {
    /// Always refused: the device cannot safely perform the write.
    pub fn command(self) -> (r: Result<Command, UnsupportedOperation>)
        ensures
            r is Err,
    {
        Err(UnsupportedOperation)
    }
}

/// Reads the value stored at an EEPROM address.
#[derive(Debug)]
pub struct ReadEepromRequest {
    pub address: EepromAddress,
}

/// Resets the device. A successful reset disconnects the serial link, so the
/// connection is gone afterwards and the device must be rediscovered.
#[derive(Debug)]
pub struct ResetRequest;

/// Asks for the device identity banner.
#[derive(Debug)]
pub struct IdentityRequest;

/// Writes the voltage DAC calibration to the EEPROM.
#[derive(Debug)]
pub struct WriteVoltageDacCalibrationRequest {
    pub slope: Decimal,
    pub intercept: Decimal,
}

/// Writes the voltage ADC calibration to the EEPROM.
#[derive(Debug)]
pub struct WriteVoltageAdcCalibrationRequest {
    pub slope: Decimal,
    pub intercept: Decimal,
}

/// Writes the current calibration of one range to the EEPROM.
#[derive(Debug)]
pub struct WriteCurrentLimitCalibrationRequest {
    pub range: CurrentRange,
    pub slope: Decimal,
    pub intercept: Decimal,
}

/// Writes the current-limit DAC calibration to the EEPROM.
#[derive(Debug)]
pub struct WriteCurrentLimitDacCalibrationRequest {
    pub slope: Decimal,
    pub intercept: Decimal,
}

/// The closed set of commands the device accepts, each carrying its
/// validated request.
#[derive(Debug)]
pub enum Command {
    Enable(EnableRequest),
    Disable(DisableRequest),
    SetCurrentLimit(SetCurrentLimitRequest),
    SetVoltage(SetVoltageRequest),
    Measure(MeasureRequest),
    SetOverSampleRate(SetOverSampleRateRequest),
    SetVoltageDac(SetVoltageDacRequest),
    DifferentialConversion(DifferentialConversionRequest),
    SetCurrentLimitDac(SetCurrentLimitDacRequest),
    EnableVoltageCalibrationMode(EnableVoltageCalibrationModeRequest),
    LockCurrentRangeAndClearCalibration(LockCurrentRangeAndClearCalibrationRequest),
    ReadEeprom(ReadEepromRequest),
    Reset(ResetRequest),
    Identity(IdentityRequest),
    WriteVoltageDacCalibration(WriteVoltageDacCalibrationRequest),
    WriteVoltageAdcCalibration(WriteVoltageAdcCalibrationRequest),
    WriteCurrentLimitCalibration(WriteCurrentLimitCalibrationRequest),
    WriteCurrentLimitDacCalibration(WriteCurrentLimitDacCalibrationRequest),
}

/// The wire text `CH1:ENA` (7 bytes).
pub open spec fn lit_enable() -> Seq<u8> {
    seq![67u8, 72u8, 49u8, 58u8, 69u8, 78u8, 65u8]
}

/// Appends `CH1:ENA`.
fn push_lit_enable(out: &mut Vec<u8>)
    ensures
        final(out)@ == old(out)@ + lit_enable(),
{
    let lit: [u8; 7] = [67, 72, 49, 58, 69, 78, 65];
    out.extend_from_slice(lit.as_slice());
    assert(out@ =~= old(out)@ + lit_enable());
}

/// The wire text `CH1:DIS` (7 bytes).
pub open spec fn lit_disable() -> Seq<u8> {
    seq![67u8, 72u8, 49u8, 58u8, 68u8, 73u8, 83u8]
}

/// Appends `CH1:DIS`.
fn push_lit_disable(out: &mut Vec<u8>)
    ensures
        final(out)@ == old(out)@ + lit_disable(),
{
    let lit: [u8; 7] = [67, 72, 49, 58, 68, 73, 83];
    out.extend_from_slice(lit.as_slice());
    assert(out@ =~= old(out)@ + lit_disable());
}

/// The wire text `CH1:CUR ` (8 bytes).
pub open spec fn lit_current_limit() -> Seq<u8> {
    seq![67u8, 72u8, 49u8, 58u8, 67u8, 85u8, 82u8, 32u8]
}

/// Appends `CH1:CUR `.
fn push_lit_current_limit(out: &mut Vec<u8>)
    ensures
        final(out)@ == old(out)@ + lit_current_limit(),
{
    let lit: [u8; 8] = [67, 72, 49, 58, 67, 85, 82, 32];
    out.extend_from_slice(lit.as_slice());
    assert(out@ =~= old(out)@ + lit_current_limit());
}

/// The wire text `CH1:VOL ` (8 bytes).
pub open spec fn lit_voltage() -> Seq<u8> {
    seq![67u8, 72u8, 49u8, 58u8, 86u8, 79u8, 76u8, 32u8]
}

/// Appends `CH1:VOL `.
fn push_lit_voltage(out: &mut Vec<u8>)
    ensures
        final(out)@ == old(out)@ + lit_voltage(),
{
    let lit: [u8; 8] = [67, 72, 49, 58, 86, 79, 76, 32];
    out.extend_from_slice(lit.as_slice());
    assert(out@ =~= old(out)@ + lit_voltage());
}

/// The wire text `CH1:MEA:VOL ` (12 bytes).
pub open spec fn lit_measure() -> Seq<u8> {
    seq![67u8, 72u8, 49u8, 58u8, 77u8, 69u8, 65u8, 58u8, 86u8, 79u8, 76u8, 32u8]
}

/// Appends `CH1:MEA:VOL `.
fn push_lit_measure(out: &mut Vec<u8>)
    ensures
        final(out)@ == old(out)@ + lit_measure(),
{
    let lit: [u8; 12] = [67, 72, 49, 58, 77, 69, 65, 58, 86, 79, 76, 32];
    out.extend_from_slice(lit.as_slice());
    assert(out@ =~= old(out)@ + lit_measure());
}

/// The wire text `CH1:OSR ` (8 bytes).
pub open spec fn lit_over_sample_rate() -> Seq<u8> {
    seq![67u8, 72u8, 49u8, 58u8, 79u8, 83u8, 82u8, 32u8]
}

/// Appends `CH1:OSR `.
fn push_lit_over_sample_rate(out: &mut Vec<u8>)
    ensures
        final(out)@ == old(out)@ + lit_over_sample_rate(),
{
    let lit: [u8; 8] = [67, 72, 49, 58, 79, 83, 82, 32];
    out.extend_from_slice(lit.as_slice());
    assert(out@ =~= old(out)@ + lit_over_sample_rate());
}

/// The wire text `DAC ` (4 bytes).
pub open spec fn lit_voltage_dac() -> Seq<u8> {
    seq![68u8, 65u8, 67u8, 32u8]
}

/// Appends `DAC `.
fn push_lit_voltage_dac(out: &mut Vec<u8>)
    ensures
        final(out)@ == old(out)@ + lit_voltage_dac(),
{
    let lit: [u8; 4] = [68, 65, 67, 32];
    out.extend_from_slice(lit.as_slice());
    assert(out@ =~= old(out)@ + lit_voltage_dac());
}

/// The wire text `ADC ` (4 bytes).
pub open spec fn lit_adc() -> Seq<u8> {
    seq![65u8, 68u8, 67u8, 32u8]
}

/// Appends `ADC `.
fn push_lit_adc(out: &mut Vec<u8>)
    ensures
        final(out)@ == old(out)@ + lit_adc(),
{
    let lit: [u8; 4] = [65, 68, 67, 32];
    out.extend_from_slice(lit.as_slice());
    assert(out@ =~= old(out)@ + lit_adc());
}

/// The wire text `ILIM ` (5 bytes).
pub open spec fn lit_current_limit_dac() -> Seq<u8> {
    seq![73u8, 76u8, 73u8, 77u8, 32u8]
}

/// Appends `ILIM `.
fn push_lit_current_limit_dac(out: &mut Vec<u8>)
    ensures
        final(out)@ == old(out)@ + lit_current_limit_dac(),
{
    let lit: [u8; 5] = [73, 76, 73, 77, 32];
    out.extend_from_slice(lit.as_slice());
    assert(out@ =~= old(out)@ + lit_current_limit_dac());
}

/// The wire text `CH1:VCAL` (8 bytes).
pub open spec fn lit_voltage_cal() -> Seq<u8> {
    seq![67u8, 72u8, 49u8, 58u8, 86u8, 67u8, 65u8, 76u8]
}

/// Appends `CH1:VCAL`.
fn push_lit_voltage_cal(out: &mut Vec<u8>)
    ensures
        final(out)@ == old(out)@ + lit_voltage_cal(),
{
    let lit: [u8; 8] = [67, 72, 49, 58, 86, 67, 65, 76];
    out.extend_from_slice(lit.as_slice());
    assert(out@ =~= old(out)@ + lit_voltage_cal());
}

/// The wire text `CH1:RANGE` (9 bytes).
pub open spec fn lit_current_range() -> Seq<u8> {
    seq![67u8, 72u8, 49u8, 58u8, 82u8, 65u8, 78u8, 71u8, 69u8]
}

/// Appends `CH1:RANGE`.
fn push_lit_current_range(out: &mut Vec<u8>)
    ensures
        final(out)@ == old(out)@ + lit_current_range(),
{
    let lit: [u8; 9] = [67, 72, 49, 58, 82, 65, 78, 71, 69];
    out.extend_from_slice(lit.as_slice());
    assert(out@ =~= old(out)@ + lit_current_range());
}

/// The wire text `*READ ` (6 bytes).
pub open spec fn lit_read_eeprom() -> Seq<u8> {
    seq![42u8, 82u8, 69u8, 65u8, 68u8, 32u8]
}

/// Appends `*READ `.
fn push_lit_read_eeprom(out: &mut Vec<u8>)
    ensures
        final(out)@ == old(out)@ + lit_read_eeprom(),
{
    let lit: [u8; 6] = [42, 82, 69, 65, 68, 32];
    out.extend_from_slice(lit.as_slice());
    assert(out@ =~= old(out)@ + lit_read_eeprom());
}

/// The wire text `*RST` (4 bytes).
pub open spec fn lit_reset() -> Seq<u8> {
    seq![42u8, 82u8, 83u8, 84u8]
}

/// Appends `*RST`.
fn push_lit_reset(out: &mut Vec<u8>)
    ensures
        final(out)@ == old(out)@ + lit_reset(),
{
    let lit: [u8; 4] = [42, 82, 83, 84];
    out.extend_from_slice(lit.as_slice());
    assert(out@ =~= old(out)@ + lit_reset());
}

/// The wire text `*IDN?` (5 bytes).
pub open spec fn lit_identity() -> Seq<u8> {
    seq![42u8, 73u8, 68u8, 78u8, 63u8]
}

/// Appends `*IDN?`.
fn push_lit_identity(out: &mut Vec<u8>)
    ensures
        final(out)@ == old(out)@ + lit_identity(),
{
    let lit: [u8; 5] = [42, 73, 68, 78, 63];
    out.extend_from_slice(lit.as_slice());
    assert(out@ =~= old(out)@ + lit_identity());
}

/// The wire text `CAL:DAC ` (8 bytes).
pub open spec fn lit_cal_voltage_dac() -> Seq<u8> {
    seq![67u8, 65u8, 76u8, 58u8, 68u8, 65u8, 67u8, 32u8]
}

/// Appends `CAL:DAC `.
fn push_lit_cal_voltage_dac(out: &mut Vec<u8>)
    ensures
        final(out)@ == old(out)@ + lit_cal_voltage_dac(),
{
    let lit: [u8; 8] = [67, 65, 76, 58, 68, 65, 67, 32];
    out.extend_from_slice(lit.as_slice());
    assert(out@ =~= old(out)@ + lit_cal_voltage_dac());
}

/// The wire text `CAL:VOL ` (8 bytes).
pub open spec fn lit_cal_voltage_adc() -> Seq<u8> {
    seq![67u8, 65u8, 76u8, 58u8, 86u8, 79u8, 76u8, 32u8]
}

/// Appends `CAL:VOL `.
fn push_lit_cal_voltage_adc(out: &mut Vec<u8>)
    ensures
        final(out)@ == old(out)@ + lit_cal_voltage_adc(),
{
    let lit: [u8; 8] = [67, 65, 76, 58, 86, 79, 76, 32];
    out.extend_from_slice(lit.as_slice());
    assert(out@ =~= old(out)@ + lit_cal_voltage_adc());
}

/// The wire text `CAL:CUR:RANGE ` (14 bytes).
pub open spec fn lit_cal_current_limit() -> Seq<u8> {
    seq![67u8, 65u8, 76u8, 58u8, 67u8, 85u8, 82u8, 58u8, 82u8, 65u8, 78u8, 71u8, 69u8, 32u8]
}

/// Appends `CAL:CUR:RANGE `.
fn push_lit_cal_current_limit(out: &mut Vec<u8>)
    ensures
        final(out)@ == old(out)@ + lit_cal_current_limit(),
{
    let lit: [u8; 14] = [67, 65, 76, 58, 67, 85, 82, 58, 82, 65, 78, 71, 69, 32];
    out.extend_from_slice(lit.as_slice());
    assert(out@ =~= old(out)@ + lit_cal_current_limit());
}

/// The wire text `CAL:ILIM ` (9 bytes).
pub open spec fn lit_cal_current_limit_dac() -> Seq<u8> {
    seq![67u8, 65u8, 76u8, 58u8, 73u8, 76u8, 73u8, 77u8, 32u8]
}

/// Appends `CAL:ILIM `.
fn push_lit_cal_current_limit_dac(out: &mut Vec<u8>)
    ensures
        final(out)@ == old(out)@ + lit_cal_current_limit_dac(),
{
    let lit: [u8; 9] = [67, 65, 76, 58, 73, 76, 73, 77, 32];
    out.extend_from_slice(lit.as_slice());
    assert(out@ =~= old(out)@ + lit_cal_current_limit_dac());
}

/// The wire text ` ` (1 bytes).
pub open spec fn lit_space() -> Seq<u8> {
    seq![32u8]
}

/// Appends ` `.
fn push_lit_space(out: &mut Vec<u8>)
    ensures
        final(out)@ == old(out)@ + lit_space(),
{
    let lit: [u8; 1] = [32];
    out.extend_from_slice(lit.as_slice());
    assert(out@ =~= old(out)@ + lit_space());
}
/// The exact wire line of a command, without the terminator. Voltage fields
/// are written as decimal volts; the current-limit field is written as
/// decimal milliamperes by moving the numeral's decimal point.
pub open spec fn spec_encode(c: Command) -> Seq<u8> {
    match c {
        Command::Enable(_) => lit_enable(),
        Command::Disable(_) => lit_disable(),
        Command::SetCurrentLimit(r) => lit_current_limit() + shifted_milli(r@),
        Command::SetVoltage(r) => lit_voltage() + r.voltage@,
        Command::Measure(r) => lit_measure() + r.voltage@,
        Command::SetOverSampleRate(r) => lit_over_sample_rate() + dec_rep(r.samples as nat),
        Command::SetVoltageDac(r) => lit_voltage_dac() + dec_rep(r.level as nat),
        Command::DifferentialConversion(r) => lit_adc() + dec_rep(r.spec_channel() as nat),
        Command::SetCurrentLimitDac(r) => lit_current_limit_dac() + dec_rep(r.spec_level() as nat),
        Command::EnableVoltageCalibrationMode(_) => lit_voltage_cal(),
        Command::LockCurrentRangeAndClearCalibration(r) => lit_current_range() + dec_rep(
            r.range.spec_value() as nat,
        ),
        Command::ReadEeprom(r) => lit_read_eeprom() + dec_rep(r.address.value as nat),
        Command::Reset(_) => lit_reset(),
        Command::Identity(_) => lit_identity(),
        Command::WriteVoltageDacCalibration(r) => lit_cal_voltage_dac() + r.slope@ + lit_space()
            + r.intercept@,
        Command::WriteVoltageAdcCalibration(r) => lit_cal_voltage_adc() + r.slope@ + lit_space()
            + r.intercept@,
        Command::WriteCurrentLimitCalibration(r) => lit_cal_current_limit() + dec_rep(
            r.range.spec_value() as nat,
        ) + lit_space() + r.slope@ + lit_space() + r.intercept@,
        Command::WriteCurrentLimitDacCalibration(r) => lit_cal_current_limit_dac() + r.slope@
            + lit_space() + r.intercept@,
    }
}

/// Appends a numeral's bytes.
fn push_decimal(out: &mut Vec<u8>, d: &Decimal)
    ensures
        final(out)@ == old(out)@ + d@,
{
    out.extend_from_slice(d.bytes().as_slice());
    assert(out@ =~= old(out)@ + d@);
}

/// Appends an unsigned number's canonical numeral.
fn push_number(out: &mut Vec<u8>, n: u64)
    ensures
        final(out)@ == old(out)@ + dec_rep(n as nat),
{
    crate::decimal::push_uint(out, n);
}

impl Command {
    /// Encodes the command to its exact wire line, without the terminator.
    /// The line is printable ASCII, so no terminator is embedded in it.
    pub fn encode(&self) -> (line: Vec<u8>)
        ensures
            line@ == spec_encode(*self),
            clean_ascii_line(line@),
    {
        proof {
            match self {
                Command::SetCurrentLimit(r) => {
                    use_type_invariant(&r.limit.0);
                },
                Command::SetVoltage(r) => {
                    use_type_invariant(&r.voltage.0);
                },
                Command::Measure(r) => {
                    use_type_invariant(&r.voltage.0);
                },
                Command::WriteVoltageDacCalibration(r) => {
                    use_type_invariant(&r.slope);
                    use_type_invariant(&r.intercept);
                },
                Command::WriteVoltageAdcCalibration(r) => {
                    use_type_invariant(&r.slope);
                    use_type_invariant(&r.intercept);
                },
                Command::WriteCurrentLimitCalibration(r) => {
                    use_type_invariant(&r.slope);
                    use_type_invariant(&r.intercept);
                },
                Command::WriteCurrentLimitDacCalibration(r) => {
                    use_type_invariant(&r.slope);
                    use_type_invariant(&r.intercept);
                },
                _ => {},
            }
            assert(command_tokens_wf(*self));
            lemma_encode_clean(*self);
        }
        let mut out: Vec<u8> = Vec::new();
        match self {
            Command::Enable(_) => {
                push_lit_enable(&mut out);
            },
            Command::Disable(_) => {
                push_lit_disable(&mut out);
            },
            Command::SetCurrentLimit(r) => {
                push_lit_current_limit(&mut out);
                let mut milli = r.limit.0.to_milli_bytes();
                out.append(&mut milli);
            },
            Command::SetVoltage(r) => {
                push_lit_voltage(&mut out);
                push_decimal(&mut out, &r.voltage.0);
            },
            Command::Measure(r) => {
                push_lit_measure(&mut out);
                push_decimal(&mut out, &r.voltage.0);
            },
            Command::SetOverSampleRate(r) => {
                push_lit_over_sample_rate(&mut out);
                push_number(&mut out, r.samples as u64);
            },
            Command::SetVoltageDac(r) => {
                push_lit_voltage_dac(&mut out);
                push_number(&mut out, r.level as u64);
            },
            Command::DifferentialConversion(r) => {
                push_lit_adc(&mut out);
                push_number(&mut out, r.channel as u64);
            },
            Command::SetCurrentLimitDac(r) => {
                push_lit_current_limit_dac(&mut out);
                push_number(&mut out, r.level as u64);
            },
            Command::EnableVoltageCalibrationMode(_) => {
                push_lit_voltage_cal(&mut out);
            },
            Command::LockCurrentRangeAndClearCalibration(r) => {
                push_lit_current_range(&mut out);
                push_number(&mut out, r.range.value as u64);
            },
            Command::ReadEeprom(r) => {
                push_lit_read_eeprom(&mut out);
                push_number(&mut out, r.address.value as u64);
            },
            Command::Reset(_) => {
                push_lit_reset(&mut out);
            },
            Command::Identity(_) => {
                push_lit_identity(&mut out);
            },
            Command::WriteVoltageDacCalibration(r) => {
                push_lit_cal_voltage_dac(&mut out);
                push_decimal(&mut out, &r.slope);
                push_lit_space(&mut out);
                push_decimal(&mut out, &r.intercept);
            },
            Command::WriteVoltageAdcCalibration(r) => {
                push_lit_cal_voltage_adc(&mut out);
                push_decimal(&mut out, &r.slope);
                push_lit_space(&mut out);
                push_decimal(&mut out, &r.intercept);
            },
            Command::WriteCurrentLimitCalibration(r) => {
                push_lit_cal_current_limit(&mut out);
                push_number(&mut out, r.range.value as u64);
                push_lit_space(&mut out);
                push_decimal(&mut out, &r.slope);
                push_lit_space(&mut out);
                push_decimal(&mut out, &r.intercept);
            },
            Command::WriteCurrentLimitDacCalibration(r) => {
                push_lit_cal_current_limit_dac(&mut out);
                push_decimal(&mut out, &r.slope);
                push_lit_space(&mut out);
                push_decimal(&mut out, &r.intercept);
            },
        }
        proof {
            assert(out@ =~= spec_encode(*self));
        }
        out
    }
}


/// Every numeral a command carries is well-formed. Holds of every command
/// that can be built, since the carrying types keep it as their invariant.
pub open spec fn command_tokens_wf(c: Command) -> bool {
    match c {
        Command::SetCurrentLimit(r) => is_decimal_token(r@),
        Command::SetVoltage(r) => is_decimal_token(r.voltage@),
        Command::Measure(r) => is_decimal_token(r.voltage@),
        Command::WriteVoltageDacCalibration(r) => is_decimal_token(r.slope@) && is_decimal_token(
            r.intercept@,
        ),
        Command::WriteVoltageAdcCalibration(r) => is_decimal_token(r.slope@) && is_decimal_token(
            r.intercept@,
        ),
        Command::WriteCurrentLimitCalibration(r) => is_decimal_token(r.slope@)
            && is_decimal_token(r.intercept@),
        Command::WriteCurrentLimitDacCalibration(r) => is_decimal_token(r.slope@)
            && is_decimal_token(r.intercept@),
        _ => true,
    }
}

/// Every encoded command line is printable ASCII with no embedded line
/// terminator: exactly one line goes out per command.
pub proof fn lemma_encode_clean(c: Command)
    requires
        command_tokens_wf(c),
    ensures
        clean_ascii_line(spec_encode(c)),
{
    match c {
        Command::Enable(_) => {
            assert(clean_ascii_line(lit_enable()));
        },
        Command::Disable(_) => {
            assert(clean_ascii_line(lit_disable()));
        },
        Command::SetCurrentLimit(r) => {
            assert(clean_ascii_line(lit_current_limit()));
            crate::decimal::lemma_shifted_milli_clean(r@);
            crate::decimal::lemma_clean_concat(lit_current_limit(), shifted_milli(r@));
        },
        Command::SetVoltage(r) => {
            assert(clean_ascii_line(lit_voltage()));
            crate::decimal::lemma_token_clean(r.voltage@);
            crate::decimal::lemma_clean_concat(lit_voltage(), r.voltage@);
        },
        Command::Measure(r) => {
            assert(clean_ascii_line(lit_measure()));
            crate::decimal::lemma_token_clean(r.voltage@);
            crate::decimal::lemma_clean_concat(lit_measure(), r.voltage@);
        },
        Command::SetOverSampleRate(r) => {
            assert(clean_ascii_line(lit_over_sample_rate()));
            crate::decimal::lemma_dec_rep_clean(r.samples as nat);
            crate::decimal::lemma_clean_concat(lit_over_sample_rate(), dec_rep(r.samples as nat));
        },
        Command::SetVoltageDac(r) => {
            assert(clean_ascii_line(lit_voltage_dac()));
            crate::decimal::lemma_dec_rep_clean(r.level as nat);
            crate::decimal::lemma_clean_concat(lit_voltage_dac(), dec_rep(r.level as nat));
        },
        Command::DifferentialConversion(r) => {
            assert(clean_ascii_line(lit_adc()));
            crate::decimal::lemma_dec_rep_clean(r.spec_channel() as nat);
            crate::decimal::lemma_clean_concat(lit_adc(), dec_rep(r.spec_channel() as nat));
        },
        Command::SetCurrentLimitDac(r) => {
            assert(clean_ascii_line(lit_current_limit_dac()));
            crate::decimal::lemma_dec_rep_clean(r.spec_level() as nat);
            crate::decimal::lemma_clean_concat(
                lit_current_limit_dac(),
                dec_rep(r.spec_level() as nat),
            );
        },
        Command::EnableVoltageCalibrationMode(_) => {
            assert(clean_ascii_line(lit_voltage_cal()));
        },
        Command::LockCurrentRangeAndClearCalibration(r) => {
            assert(clean_ascii_line(lit_current_range()));
            crate::decimal::lemma_dec_rep_clean(r.range.spec_value() as nat);
            crate::decimal::lemma_clean_concat(
                lit_current_range(),
                dec_rep(r.range.spec_value() as nat),
            );
        },
        Command::ReadEeprom(r) => {
            assert(clean_ascii_line(lit_read_eeprom()));
            crate::decimal::lemma_dec_rep_clean(r.address.value as nat);
            crate::decimal::lemma_clean_concat(lit_read_eeprom(), dec_rep(r.address.value as nat));
        },
        Command::Reset(_) => {
            assert(clean_ascii_line(lit_reset()));
        },
        Command::Identity(_) => {
            assert(clean_ascii_line(lit_identity()));
        },
        Command::WriteVoltageDacCalibration(r) => {
            lemma_cal_pair_clean(lit_cal_voltage_dac(), r.slope@, r.intercept@);
        },
        Command::WriteVoltageAdcCalibration(r) => {
            lemma_cal_pair_clean(lit_cal_voltage_adc(), r.slope@, r.intercept@);
        },
        Command::WriteCurrentLimitCalibration(r) => {
            assert(clean_ascii_line(lit_cal_current_limit()));
            crate::decimal::lemma_dec_rep_clean(r.range.spec_value() as nat);
            crate::decimal::lemma_clean_concat(
                lit_cal_current_limit(),
                dec_rep(r.range.spec_value() as nat),
            );
            crate::decimal::lemma_clean_concat(
                lit_cal_current_limit() + dec_rep(r.range.spec_value() as nat),
                lit_space(),
            );
            lemma_cal_pair_clean(
                lit_cal_current_limit() + dec_rep(r.range.spec_value() as nat) + lit_space(),
                r.slope@,
                r.intercept@,
            );
        },
        Command::WriteCurrentLimitDacCalibration(r) => {
            lemma_cal_pair_clean(lit_cal_current_limit_dac(), r.slope@, r.intercept@);
        },
    }
}

/// A clean prefix followed by a space-separated pair of numerals is clean.
proof fn lemma_cal_pair_clean(prefix: Seq<u8>, slope: Seq<u8>, intercept: Seq<u8>)
    requires
        clean_ascii_line(prefix),
        is_decimal_token(slope),
        is_decimal_token(intercept),
    ensures
        clean_ascii_line(prefix + slope + lit_space() + intercept),
{
    assert(clean_ascii_line(lit_space()));
    crate::decimal::lemma_token_clean(slope);
    crate::decimal::lemma_token_clean(intercept);
    crate::decimal::lemma_clean_concat(prefix, slope);
    crate::decimal::lemma_clean_concat(prefix + slope, lit_space());
    crate::decimal::lemma_clean_concat(prefix + slope + lit_space(), intercept);
}

} // verus!
