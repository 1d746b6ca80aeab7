//! Decoding of reply lines.
//!
//! A reply is one ASCII line. Decoding uses literal-prefix matching: a fixed
//! mnemonic or separator must match exactly (case-sensitively) or decoding
//! fails with `UnexpectedToken`; numeric fields are read as exact decimal
//! numerals or fail with `Malformed`; multi-field replies use a comma as the
//! separator; and a full reply must consume its whole line except the
//! trailing terminator, else decoding fails with `TrailingData`.

use vstd::prelude::*;

use crate::commands::{Current, Voltage};
use crate::decimal::{
    digits_end, digits_val, is_decimal_token, is_digit, is_number_byte, number_end, scan_digits,
    scan_number, check_token, copy_range, Decimal, lemma_digits_end_digits,
    lemma_digits_val_prefix_le,
};
use crate::errors::ProtocolError;

verus! {

/// The bytes standing at `pos`, at most `n` of them: what was found in place
/// of an expected literal.
pub open spec fn found_at(s: Seq<u8>, pos: int, n: int) -> Seq<u8> {
    if pos + n <= s.len() {
        s.subrange(pos, pos + n)
    } else {
        s.subrange(pos, s.len() as int)
    }
}

/// Matches a fixed literal at `pos`, case-sensitively and byte for byte.
/// Returns the position after the literal, or `UnexpectedToken` carrying the
/// expected bytes and what stood in their place.
pub fn match_literal(line: &Vec<u8>, pos: usize, expected: &Vec<u8>) -> (r: Result<
    usize,
    ProtocolError,
>)
    requires
        pos <= line@.len(),
    ensures
        r is Ok <==> (pos + expected@.len() <= line@.len() && line@.subrange(
            pos as int,
            pos + expected@.len(),
        ) == expected@),
        r matches Ok(end) ==> end == pos + expected@.len(),
        r matches Err(e) ==> (e matches ProtocolError::UnexpectedToken { expected: ex, found }
            && ex@ == expected@ && found@ == found_at(line@, pos as int, expected@.len() as int)),
{
    let n = expected.len();
    let mut i: usize = 0;
    while i < n
        invariant
            i <= n == expected@.len(),
            pos <= line@.len(),
            pos + i <= line@.len(),
            forall|j: int| 0 <= j < i ==> line@[pos + j] == expected@[j],
        decreases n - i,
    {
        if line.len() - pos <= i || line[pos + i] != expected[i] {
            proof {
                if pos + n <= line@.len() && line@.subrange(pos as int, pos + n as int)
                    == expected@ {
                    assert(line@.subrange(pos as int, pos + n as int)[i as int] == line@[pos + i]);
                }
            }
            let cut = if line.len() - pos >= n {
                pos + n
            } else {
                line.len()
            };
            let found = copy_range(line, pos, cut);
            let ex = copy_range(expected, 0, n);
            proof {
                assert(ex@ =~= expected@);
            }
            return Err(ProtocolError::UnexpectedToken { expected: ex, found });
        }
        i = i + 1;
    }
    proof {
        assert(line@.subrange(pos as int, pos + n as int) =~= expected@);
    }
    let ll = line.len();
    assert(pos + n <= ll);
    Ok(pos + n)
}

/// Reads one decimal numeral at `pos`: takes the longest run of number bytes
/// and accepts it if it forms one well-formed numeral, else fails with
/// `Malformed`.
pub fn take_decimal(line: &Vec<u8>, pos: usize) -> (r: Result<(Decimal, usize), ProtocolError>)
    requires
        pos <= line@.len(),
    ensures
        ({
            let e = number_end(line@, pos as int);
            let tok = line@.subrange(pos as int, e);
            &&& (r is Ok <==> is_decimal_token(tok))
            &&& r matches Ok((d, end)) ==> d@ == tok && end == e && pos <= end <= line@.len()
            &&& r is Err ==> r matches Err(ProtocolError::Malformed)
        }),
{
    let e = scan_number(line, pos);
    let tok = copy_range(line, pos, e);
    if check_token(&tok) {
        match Decimal::from_bytes(tok) {
            Ok(d) => Ok((d, e)),
            Err(_) => Err(ProtocolError::Malformed),
        }
    } else {
        Err(ProtocolError::Malformed)
    }
}

/// Reads one unsigned decimal number at `pos`: takes the longest digit run,
/// which must be non-empty and denote at most `max`, else fails with
/// `Malformed`.
pub fn take_uint(line: &Vec<u8>, pos: usize, max: u64) -> (r: Result<(u64, usize), ProtocolError>)
    requires
        pos <= line@.len(),
        max <= 0xFFFF_FFFF,
    ensures
        ({
            let e = digits_end(line@, pos as int);
            let ds = line@.subrange(pos as int, e);
            &&& (r is Ok <==> (e > pos && digits_val(ds) <= max))
            &&& r matches Ok((v, end)) ==> v == digits_val(ds) && end == e && v <= max && pos < end
                <= line@.len()
            &&& r is Err ==> r matches Err(ProtocolError::Malformed)
        }),
{
    let e = scan_digits(line, pos);
    if e == pos {
        return Err(ProtocolError::Malformed);
    }
    proof {
        lemma_digits_end_digits(line@, pos as int);
    }
    let ghost ds = line@.subrange(pos as int, e as int);
    let mut v: u64 = 0;
    let mut i = pos;
    while i < e
        invariant
            pos <= i <= e <= line@.len(),
            e == digits_end(line@, pos as int),
            forall|j: int| pos <= j < e ==> is_digit(#[trigger] line@[j]),
            v == digits_val(line@.subrange(pos as int, i as int)),
            v <= max,
            max <= 0xFFFF_FFFF,
            ds == line@.subrange(pos as int, e as int),
        decreases e - i,
    {
        let d = (line[i] - 48) as u64;
        proof {
            let sub1 = line@.subrange(pos as int, i + 1);
            assert(sub1.drop_last() =~= line@.subrange(pos as int, i as int));
            assert(sub1.last() == line@[i as int]);
        }
        let next = v * 10 + d;
        if next > max {
            proof {
                let pref = line@.subrange(pos as int, i + 1);
                let suf = line@.subrange(i + 1, e as int);
                assert(pref + suf =~= ds);
                lemma_digits_val_prefix_le(pref, suf);
            }
            return Err(ProtocolError::Malformed);
        }
        v = next;
        i = i + 1;
    }
    proof {
        assert(line@.subrange(pos as int, e as int) == ds);
    }
    Ok((v, e))
}

/// Checks the end of a reply: the line terminator must stand at `pos` and
/// nothing may follow it. A missing terminator fails with `UnexpectedToken`;
/// bytes after it fail with `TrailingData`.
pub fn finish_line(line: &Vec<u8>, pos: usize) -> (r: Result<(), ProtocolError>)
    requires
        pos <= line@.len(),
    ensures
        r is Ok <==> (pos < line@.len() && line@[pos as int] == 10 && pos + 1 == line@.len()),
        (pos < line@.len() && line@[pos as int] == 10 && pos + 1 < line@.len()) ==> r matches Err(
            ProtocolError::TrailingData,
        ),
        !(pos < line@.len() && line@[pos as int] == 10) ==> (r matches Err(
            ProtocolError::UnexpectedToken { expected, found },
        ) && expected@ == seq![10u8] && found@ == found_at(line@, pos as int, 1)),
{
    let mut nl: Vec<u8> = Vec::new();
    nl.push(10);
    assert(nl@ =~= seq![10u8]);
    proof {
        if pos < line@.len() && line@[pos as int] == 10 {
            assert(line@.subrange(pos as int, pos + 1) =~= seq![10u8]);
        }
        if pos < line@.len() {
            assert(line@.subrange(pos as int, pos + 1)[0] == line@[pos as int]);
        }
    }
    match match_literal(line, pos, &nl) {
        Ok(after) => {
            if after == line.len() {
                Ok(())
            } else {
                Err(ProtocolError::TrailingData)
            }
        },
        Err(e) => Err(e),
    }
}


/// The longest run of number bytes standing at `pos`.
pub open spec fn token_at(s: Seq<u8>, pos: int) -> Seq<u8> {
    s.subrange(pos, number_end(s, pos))
}

/// A well-formed numeral stands at `pos`.
pub open spec fn token_ok(s: Seq<u8>, pos: int) -> bool {
    is_decimal_token(token_at(s, pos))
}

/// The digit run standing at `pos`.
pub open spec fn digits_at(s: Seq<u8>, pos: int) -> Seq<u8> {
    s.subrange(pos, digits_end(s, pos))
}

/// A non-empty digit run denoting at most `max` stands at `pos`.
pub open spec fn uint_ok(s: Seq<u8>, pos: int, max: nat) -> bool {
    digits_end(s, pos) > pos && digits_val(digits_at(s, pos)) <= max
}

/// A measurement reply is well-formed at `pos`: a numeral, a comma and a
/// second numeral.
pub open spec fn measure_ok(s: Seq<u8>, pos: int) -> bool {
    &&& token_ok(s, pos)
    &&& number_end(s, pos) < s.len()
    &&& s[number_end(s, pos)] == 44
    &&& token_ok(s, number_end(s, pos) + 1)
}

/// Where a measurement reply's fields end.
pub open spec fn measure_end(s: Seq<u8>, pos: int) -> int {
    number_end(s, number_end(s, pos) + 1)
}

/// The identity banner literal: `uSMU version 1.0 ID:`.
pub open spec fn lit_identity_banner() -> Seq<u8> {
    seq![
        117u8, 83u8, 77u8, 85u8, 32u8, 118u8, 101u8, 114u8, 115u8, 105u8, 111u8, 110u8, 32u8,
        49u8, 46u8, 48u8, 32u8, 73u8, 68u8, 58u8,
    ]
}

/// The identity banner stands at `pos`.
pub open spec fn banner_at(s: Seq<u8>, pos: int) -> bool {
    pos + lit_identity_banner().len() <= s.len() && s.subrange(
        pos,
        pos + lit_identity_banner().len(),
    ) == lit_identity_banner()
}

/// An identity reply is well-formed at `pos`: the banner, then an unsigned
/// decimal id that fits thirty-two bits.
pub open spec fn identity_ok(s: Seq<u8>, pos: int) -> bool {
    banner_at(s, pos) && uint_ok(s, pos + lit_identity_banner().len(), 0xFFFF_FFFF)
}

/// The id carried by an identity reply.
pub open spec fn identity_uid(s: Seq<u8>, pos: int) -> nat {
    digits_val(digits_at(s, pos + lit_identity_banner().len()))
}

/// Where an identity reply's fields end.
pub open spec fn identity_end(s: Seq<u8>, pos: int) -> int {
    digits_end(s, pos + lit_identity_banner().len())
}

/// The identity banner as a byte vector.
fn identity_banner_vec() -> (v: Vec<u8>)
    ensures
        v@ == lit_identity_banner(),
{
    let lit: [u8; 20] = [
        117, 83, 77, 85, 32, 118, 101, 114, 115, 105, 111, 110, 32, 49, 46, 48, 32, 73, 68, 58,
    ];
    let mut v: Vec<u8> = Vec::new();
    v.extend_from_slice(lit.as_slice());
    assert(v@ =~= lit_identity_banner());
    v
}

/// A decoded measurement: the read-back voltage and the measured current,
/// in volts and amperes.
#[derive(Debug)]
pub struct MeasureResponse {
    pub voltage: Voltage,
    pub current: Current,
}

impl MeasureResponse {
    /// Reads a measurement reply's fields at `pos`: a voltage numeral in
    /// volts, a comma, and a current numeral in amperes. Returns the decoded
    /// fields and the position after them.
    pub fn deserialize(line: &Vec<u8>, pos: usize) -> (r: Result<
        (MeasureResponse, usize),
        ProtocolError,
    >)
        requires
            pos <= line@.len(),
        ensures
            r is Ok <==> measure_ok(line@, pos as int),
            r matches Ok((resp, end)) ==> ({
                let e1 = number_end(line@, pos as int);
                &&& resp.voltage@ == line@.subrange(pos as int, e1)
                &&& resp.current@ == line@.subrange(e1 + 1, measure_end(line@, pos as int))
                &&& end == measure_end(line@, pos as int)
                &&& pos <= end <= line@.len()
            }),
            !token_ok(line@, pos as int) ==> r matches Err(ProtocolError::Malformed),
            ({
                let e1 = number_end(line@, pos as int);
                (token_ok(line@, pos as int) && !(e1 < line@.len() && line@[e1] == 44))
                    ==> (r matches Err(ProtocolError::UnexpectedToken { expected, found })
                    && expected@ == seq![44u8] && found@ == found_at(line@, e1, 1))
            }),
            ({
                let e1 = number_end(line@, pos as int);
                (token_ok(line@, pos as int) && e1 < line@.len() && line@[e1] == 44 && !token_ok(
                    line@,
                    e1 + 1,
                )) ==> r matches Err(ProtocolError::Malformed)
            }),
    {
        let (v, e1) = match take_decimal(line, pos) {
            Ok(x) => x,
            Err(e) => {
                return Err(e);
            },
        };
        let mut comma: Vec<u8> = Vec::new();
        comma.push(44);
        assert(comma@ =~= seq![44u8]);
        proof {
            if e1 < line@.len() && line@[e1 as int] == 44 {
                assert(line@.subrange(e1 as int, e1 + 1) =~= seq![44u8]);
            }
            if e1 < line@.len() {
                assert(line@.subrange(e1 as int, e1 + 1)[0] == line@[e1 as int]);
            }
        }
        let after = match match_literal(line, e1, &comma) {
            Ok(x) => x,
            Err(e) => {
                return Err(e);
            },
        };
        let (c, e2) = match take_decimal(line, after) {
            Ok(x) => x,
            Err(e) => {
                return Err(e);
            },
        };
        Ok((MeasureResponse { voltage: Voltage(v), current: Current(c) }, e2))
    }

    /// Decodes one whole measurement reply line, terminator included.
    pub fn from_line(line: &Vec<u8>) -> (r: Result<MeasureResponse, ProtocolError>)
        ensures
            r is Ok <==> (measure_ok(line@, 0) && ({
                let end = measure_end(line@, 0);
                end < line@.len() && line@[end] == 10 && end + 1 == line@.len()
            })),
            r matches Ok(resp) ==> ({
                let e1 = number_end(line@, 0);
                &&& resp.voltage@ == line@.subrange(0, e1)
                &&& resp.current@ == line@.subrange(e1 + 1, measure_end(line@, 0))
            }),
            (measure_ok(line@, 0) && ({
                let end = measure_end(line@, 0);
                end < line@.len() && line@[end] == 10 && end + 1 < line@.len()
            })) ==> r matches Err(ProtocolError::TrailingData),
    {
        let (resp, end) = match MeasureResponse::deserialize(line, 0) {
            Ok(x) => x,
            Err(e) => {
                return Err(e);
            },
        };
        match finish_line(line, end) {
            Ok(()) => Ok(resp),
            Err(e) => Err(e),
        }
    }
}

/// A decoded differential conversion reply: one raw unsigned value.
#[derive(Debug)]
pub struct DifferentialConversionResponse {
    pub value: u16,
}

impl DifferentialConversionResponse {
    /// Reads a differential conversion reply's field at `pos`: one unsigned
    /// decimal that fits sixteen bits.
    pub fn deserialize(line: &Vec<u8>, pos: usize) -> (r: Result<
        (DifferentialConversionResponse, usize),
        ProtocolError,
    >)
        requires
            pos <= line@.len(),
        ensures
            r is Ok <==> uint_ok(line@, pos as int, 0xFFFF),
            r matches Ok((resp, end)) ==> resp.value == digits_val(digits_at(line@, pos as int))
                && end == digits_end(line@, pos as int) && pos < end <= line@.len(),
            r is Err ==> r matches Err(ProtocolError::Malformed),
    {
        match take_uint(line, pos, 0xFFFF) {
            Ok((v, end)) => Ok((DifferentialConversionResponse { value: v as u16 }, end)),
            Err(e) => Err(e),
        }
    }

    /// Decodes one whole differential conversion reply line.
    pub fn from_line(line: &Vec<u8>) -> (r: Result<
        DifferentialConversionResponse,
        ProtocolError,
    >)
        ensures
            r is Ok <==> (uint_ok(line@, 0, 0xFFFF) && ({
                let end = digits_end(line@, 0);
                end < line@.len() && line@[end] == 10 && end + 1 == line@.len()
            })),
            r matches Ok(resp) ==> resp.value == digits_val(digits_at(line@, 0)),
    {
        let (resp, end) = match DifferentialConversionResponse::deserialize(line, 0) {
            Ok(x) => x,
            Err(e) => {
                return Err(e);
            },
        };
        match finish_line(line, end) {
            Ok(()) => Ok(resp),
            Err(e) => Err(e),
        }
    }
}

/// A decoded EEPROM read reply: the stored numeral.
#[derive(Debug)]
pub struct ReadEepromResponse {
    pub value: Decimal,
}

impl ReadEepromResponse {
    /// Reads an EEPROM reply's field at `pos`: one decimal numeral.
    pub fn deserialize(line: &Vec<u8>, pos: usize) -> (r: Result<
        (ReadEepromResponse, usize),
        ProtocolError,
    >)
        requires
            pos <= line@.len(),
        ensures
            r is Ok <==> token_ok(line@, pos as int),
            r matches Ok((resp, end)) ==> resp.value@ == token_at(line@, pos as int) && end
                == number_end(line@, pos as int) && pos <= end <= line@.len(),
            r is Err ==> r matches Err(ProtocolError::Malformed),
    {
        match take_decimal(line, pos) {
            Ok((d, end)) => Ok((ReadEepromResponse { value: d }, end)),
            Err(e) => Err(e),
        }
    }

    /// Decodes one whole EEPROM read reply line.
    pub fn from_line(line: &Vec<u8>) -> (r: Result<ReadEepromResponse, ProtocolError>)
        ensures
            r is Ok <==> (token_ok(line@, 0) && ({
                let end = number_end(line@, 0);
                end < line@.len() && line@[end] == 10 && end + 1 == line@.len()
            })),
            r matches Ok(resp) ==> resp.value@ == token_at(line@, 0),
    {
        let (resp, end) = match ReadEepromResponse::deserialize(line, 0) {
            Ok(x) => x,
            Err(e) => {
                return Err(e);
            },
        };
        match finish_line(line, end) {
            Ok(()) => Ok(resp),
            Err(e) => Err(e),
        }
    }
}

/// A decoded identity reply: the device's unsigned id.
#[derive(Debug)]
pub struct IdentityResponse {
    pub uid: u32,
}

impl IdentityResponse {
    /// Reads an identity reply at `pos`: the literal banner
    /// `uSMU version 1.0 ID:` followed by an unsigned decimal id. A missing
    /// or differing banner fails with `UnexpectedToken`.
    pub fn deserialize(line: &Vec<u8>, pos: usize) -> (r: Result<
        (IdentityResponse, usize),
        ProtocolError,
    >)
        requires
            pos <= line@.len(),
        ensures
            r is Ok <==> identity_ok(line@, pos as int),
            r matches Ok((resp, end)) ==> resp.uid == identity_uid(line@, pos as int) && end
                == identity_end(line@, pos as int) && pos < end <= line@.len(),
            !banner_at(line@, pos as int) ==> (r matches Err(ProtocolError::UnexpectedToken {
                expected,
                found,
            }) && expected@ == lit_identity_banner() && found@ == found_at(
                line@,
                pos as int,
                lit_identity_banner().len() as int,
            )),
            (banner_at(line@, pos as int) && !uint_ok(
                line@,
                pos + lit_identity_banner().len(),
                0xFFFF_FFFF,
            )) ==> r matches Err(ProtocolError::Malformed),
    {
        let banner = identity_banner_vec();
        let after = match match_literal(line, pos, &banner) {
            Ok(x) => x,
            Err(e) => {
                return Err(e);
            },
        };
        match take_uint(line, after, 0xFFFF_FFFF) {
            Ok((v, end)) => Ok((IdentityResponse { uid: v as u32 }, end)),
            Err(e) => Err(e),
        }
    }

    /// Decodes one whole identity reply line.
    pub fn from_line(line: &Vec<u8>) -> (r: Result<IdentityResponse, ProtocolError>)
        ensures
            r is Ok <==> (identity_ok(line@, 0) && ({
                let end = identity_end(line@, 0);
                end < line@.len() && line@[end] == 10 && end + 1 == line@.len()
            })),
            r matches Ok(resp) ==> resp.uid == identity_uid(line@, 0),
    {
        let (resp, end) = match IdentityResponse::deserialize(line, 0) {
            Ok(x) => x,
            Err(e) => {
                return Err(e);
            },
        };
        match finish_line(line, end) {
            Ok(()) => Ok(resp),
            Err(e) => Err(e),
        }
    }
}


/// Round trip of the numeral codec, with no precision loss: a well-formed
/// numeral written to a line and followed by anything that cannot extend a
/// numeral (a separator, the terminator, or nothing) is read back from that
/// line byte for byte. Together with the encoder's contracts, every numeric
/// field a command writes comes back exactly as it went out.
pub proof fn lemma_decimal_round_trip(t: Seq<u8>, rest: Seq<u8>)
    requires
        is_decimal_token(t),
        rest.len() > 0 ==> !is_number_byte(rest[0]),
    ensures
        token_ok(t + rest, 0),
        token_at(t + rest, 0) == t,
{
    let line = t + rest;
    crate::decimal::lemma_token_number_bytes(t);
    assert(forall|k: int| 0 <= k < t.len() ==> line[k] == #[trigger] t[k]);
    if rest.len() > 0 {
        assert(line[t.len() as int] == rest[0]);
    }
    crate::decimal::lemma_number_end_of(line, 0, t.len() as int);
    assert(token_at(line, 0) =~= t);
}

/// Round trip of the integer codec: the canonical numeral of an unsigned
/// number, followed by anything that cannot extend a digit run, reads back
/// as exactly that number.
pub proof fn lemma_uint_round_trip(n: nat, rest: Seq<u8>)
    requires
        rest.len() > 0 ==> !is_digit(rest[0]),
    ensures
        digits_end(crate::decimal::dec_rep(n) + rest, 0) == crate::decimal::dec_rep(n).len(),
        digits_val(digits_at(crate::decimal::dec_rep(n) + rest, 0)) == n,
{
    let t = crate::decimal::dec_rep(n);
    let line = t + rest;
    crate::decimal::lemma_dec_rep(n);
    assert(forall|k: int| 0 <= k < t.len() ==> line[k] == #[trigger] t[k]);
    if rest.len() > 0 {
        assert(line[t.len() as int] == rest[0]);
    }
    crate::decimal::lemma_digits_end_of(line, 0, t.len() as int);
    assert(digits_at(line, 0) =~= t);
}

} // verus!
