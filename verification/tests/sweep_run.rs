//! The sweep engine: command order, set-points and collected samples.

use ndarray::linspace;
use usmu::codec::MeasureResponse;
use usmu::commands::{Command, Current, SetCurrentLimitRequest, Voltage};
use usmu::decimal::Decimal;
use usmu::session::Session;
use usmu::sweep::{Sweep, SweepAction, SweepConfig};

fn volts(text: &str) -> Voltage {
    Voltage::from_bytes(text.as_bytes().to_vec()).unwrap()
}

fn amps(text: &str) -> Current {
    Current::from_bytes(text.as_bytes().to_vec()).unwrap()
}

fn render(value: f32) -> String {
    format!("{}", value)
}

/// Drives a sweep to the end, answering every measurement query with a reply
/// decoded from a wire line at the commanded voltage. Returns the encoded
/// commands in order and the set-points of the measurement queries.
fn drive(mut sweep: Sweep) -> (Vec<Vec<u8>>, Vec<Vec<u8>>, Vec<(Vec<u8>, Vec<u8>)>) {
    let mut sent: Vec<Vec<u8>> = Vec::new();
    let mut measured_at: Vec<Vec<u8>> = Vec::new();
    loop {
        match sweep.next_action() {
            SweepAction::Send(cmd) => {
                sent.push(cmd.encode());
                sweep.acknowledge();
            },
            SweepAction::Pause => {
                sweep.acknowledge();
            },
            SweepAction::Query(cmd) => {
                let line = cmd.encode();
                sent.push(line.clone());
                let point = line[b"CH1:MEA:VOL ".len()..].to_vec();
                measured_at.push(point.clone());
                let mut reply = point;
                reply.extend_from_slice(b",0.002\n");
                let resp = MeasureResponse::from_line(&reply).unwrap();
                sweep.record(resp);
            },
            SweepAction::Finished => {
                break;
            },
        }
    }
    let samples = sweep
        .into_samples()
        .into_iter()
        .map(|s| (s.voltage.bytes().clone(), s.current.bytes().clone()))
        .collect();
    (sent, measured_at, samples)
}

fn config(start: &str, end: &str, steps: usize) -> SweepConfig {
    SweepConfig {
        start_voltage: volts(start),
        end_voltage: volts(end),
        current_limit: SetCurrentLimitRequest::new(amps("0.02")).unwrap(),
        voltage_steps: steps,
        over_sampling: 10,
        delay: Decimal::from_bytes(b"0".to_vec()).unwrap(),
    }
}

#[test]
fn the_default_ramp_hits_both_ends_with_uniform_spacing() {
    // Fifty steps from -1 V to 1 V: spacing (1 - -1) / 49, both ends exact.
    let steps = 50usize;
    let points: Vec<f32> = linspace(-1.0f32, 1.0f32, steps).collect();
    assert_eq!(points.len(), steps);
    assert_eq!(points[0], -1.0f32);
    assert_eq!(points[steps - 1], 1.0f32);
    let spacing = (1.0f32 - (-1.0f32)) / 49.0f32;
    for (i, &p) in points.iter().enumerate() {
        assert_eq!(p, -1.0f32 + spacing * (i as f32));
    }

    let set_points: Vec<Voltage> = points.iter().map(|p| volts(&render(*p))).collect();
    let sweep = Sweep::new(config("-1", "1", steps), set_points).unwrap();
    let (sent, measured_at, samples) = drive(sweep);

    // Setup order, then one set/measure pair per step, then the disable.
    assert_eq!(sent[0], b"CH1:VOL -1".to_vec());
    assert_eq!(sent[1], b"CH1:CUR 0020".to_vec());
    assert_eq!(sent[2], b"CH1:ENA".to_vec());
    assert_eq!(sent[3], b"CH1:OSR 10".to_vec());
    assert_eq!(sent.len(), 4 + 2 * steps + 1);
    assert_eq!(*sent.last().unwrap(), b"CH1:DIS".to_vec());

    assert_eq!(measured_at.len(), steps);
    for (i, p) in points.iter().enumerate() {
        let token = render(*p).into_bytes();
        assert_eq!(measured_at[i], token);
        let set_line = [b"CH1:VOL ".to_vec(), token.clone()].concat();
        assert_eq!(sent[4 + 2 * i], set_line);
    }

    // One sample per step, in step order, with the exact reply numerals.
    assert_eq!(samples.len(), steps);
    for (i, p) in points.iter().enumerate() {
        assert_eq!(samples[i].0, render(*p).into_bytes());
        assert_eq!(samples[i].1, b"0.002".to_vec());
    }
}

#[test]
fn a_single_step_measures_only_the_start() {
    let sweep = Sweep::new(config("0.5", "0.5", 1), vec![volts("0.5")]).unwrap();
    let (sent, measured_at, samples) = drive(sweep);
    assert_eq!(sent.len(), 4 + 2 + 1);
    assert_eq!(measured_at, vec![b"0.5".to_vec()]);
    assert_eq!(samples.len(), 1);
}

#[test]
fn the_step_count_must_match_the_set_points() {
    let r = Sweep::new(config("-1", "1", 3), vec![volts("-1"), volts("1")]);
    assert!(r.is_err());
    let r = Sweep::new(config("-1", "1", 0), Vec::new());
    assert!(r.is_err());
}

#[test]
fn a_closed_session_rejects_every_command() {
    let mut session = Session::new();
    assert!(session.open());
    let cmd = Command::SetVoltage(usmu::commands::SetVoltageRequest { voltage: volts("1") });
    assert_eq!(session.frame(&cmd).unwrap(), b"CH1:VOL 1\n".to_vec());
    session.close();
    assert!(!session.open());
    let cmd = Command::SetVoltage(usmu::commands::SetVoltageRequest { voltage: volts("1") });
    assert!(session.frame(&cmd).is_err());
}

#[test]
fn samples_report_the_read_back_voltage_not_the_set_point() {
    // The device's ADC read-back may differ slightly from the commanded
    // set-point; both the measured voltage and the current are reported.
    let mut sweep = Sweep::new(config("0", "0", 1), vec![volts("0")]).unwrap();
    loop {
        match sweep.next_action() {
            SweepAction::Send(_) | SweepAction::Pause => sweep.acknowledge(),
            SweepAction::Query(_) => {
                let reply = b"0.0012,-0.003\n".to_vec();
                sweep.record(MeasureResponse::from_line(&reply).unwrap());
            },
            SweepAction::Finished => break,
        }
    }
    let samples = sweep.into_samples();
    assert_eq!(samples.len(), 1);
    assert_eq!(samples[0].voltage.bytes().as_slice(), b"0.0012");
    assert_eq!(samples[0].current.bytes().as_slice(), b"-0.003");
}
