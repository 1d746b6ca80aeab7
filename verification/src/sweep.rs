//! The sweep engine: a linear voltage ramp that records the current response.
//!
//! The engine is the decision core of the sweep. It is driven from outside:
//! `next_action` says what to do next (write a command, pause for the
//! configured delay, write a query and read its reply, or stop), and the
//! driver reports back with `acknowledge` after a write or a pause and with
//! `record` after a measurement reply. The engine fixes the strict order of
//! the protocol: set the start voltage, set the current limit, enable the
//! output, set the oversampling rate; then, for each set-point in turn, set
//! the voltage, pause, and measure at that same set-point; finally disable
//! the output. One sample is collected per set-point, in step order.
//!
//! The set-points themselves are handed in ready-made, linearly interpolated
//! between the start and end voltages by the caller; the engine guarantees
//! that exactly those numerals are commanded, in order, and that one sample
//! stands per step when it finishes.

use vstd::prelude::*;

use crate::commands::{
    Command, Current, EnableRequest, DisableRequest, MeasureRequest, SetCurrentLimitRequest,
    SetOverSampleRateRequest, SetVoltageRequest, Voltage,
};
use crate::codec::MeasureResponse;
use crate::decimal::Decimal;
use crate::errors::ConfigurationError;

verus! {

/// The sweep's parameters: the ramp's two ends, the validated current limit,
/// the step count, the oversampling rate, and the pause before each
/// measurement, in seconds.
#[derive(Debug)]
pub struct SweepConfig {
    pub start_voltage: Voltage,
    pub end_voltage: Voltage,
    pub current_limit: SetCurrentLimitRequest,
    pub voltage_steps: usize,
    pub over_sampling: u16,
    pub delay: Decimal,
}

/// One recorded point of the curve: the read-back voltage and the measured
/// current.
#[derive(Debug)]
pub struct Sample {
    pub voltage: Voltage,
    pub current: Current,
}

/// What the driver must do next.
#[derive(Debug)]
pub enum SweepAction {
    /// Write this command and hold the settle delay; no reply comes.
    Send(Command),
    /// Wait the configured inter-step delay.
    Pause,
    /// Write this command, hold the settle delay, and read one measurement
    /// reply line.
    Query(Command),
    /// The sweep is complete; the samples are ready.
    Finished,
}

/// How many measurements are complete after `pos` script positions, out of
/// `n` steps. The four setup commands come first, then three positions per
/// step (set, pause, measure), then the final disable.
pub open spec fn measured_count(pos: int, n: int) -> int {
    if pos < 7 {
        0
    } else if (pos - 7) / 3 + 1 > n {
        n
    } else {
        (pos - 7) / 3 + 1
    }
}

/// The running sweep: its configuration, its set-points, its position in the
/// command script, and the samples collected so far.
#[derive(Debug)]
pub struct Sweep {
    cfg: SweepConfig,
    points: Vec<Voltage>,
    pos: usize,
    samples: Vec<Sample>,
}

impl Sweep {
    /// The number of steps.
    pub closed spec fn spec_step_count(&self) -> int {
        self.points@.len() as int
    }

    /// The set-point numeral of step `i`.
    pub closed spec fn spec_point(&self, i: int) -> Seq<u8> {
        self.points@[i]@
    }

    /// The position in the command script.
    pub closed spec fn spec_pos(&self) -> int {
        self.pos as int
    }

    /// The start voltage numeral.
    pub closed spec fn spec_start(&self) -> Seq<u8> {
        self.cfg.start_voltage@
    }

    /// The current-limit numeral, in amperes.
    pub closed spec fn spec_limit(&self) -> Seq<u8> {
        self.cfg.current_limit@
    }

    /// The oversampling rate.
    pub closed spec fn spec_over_sampling(&self) -> u16 {
        self.cfg.over_sampling
    }

    /// The number of samples collected so far.
    pub closed spec fn spec_sample_count(&self) -> int {
        self.samples@.len() as int
    }

    /// The voltage and current numerals of collected sample `i`.
    pub closed spec fn spec_sample(&self, i: int) -> (Seq<u8>, Seq<u8>) {
        (self.samples@[i].voltage@, self.samples@[i].current@)
    }

    /// The script never leaves its bounds, and exactly the completed
    /// measurements stand as samples. Established by `new` and kept by every
    /// step.
    pub open spec fn wf(self) -> bool {
        &&& self.spec_step_count() >= 1
        &&& self.spec_step_count() <= (usize::MAX - 5) / 3
        &&& 0 <= self.spec_pos() <= 3 * self.spec_step_count() + 5
        &&& self.spec_sample_count() == measured_count(self.spec_pos(), self.spec_step_count())
    }

    /// The configuration and set-points of both sweeps agree.
    pub open spec fn same_setup(a: Sweep, b: Sweep) -> bool {
        &&& a.spec_step_count() == b.spec_step_count()
        &&& forall|i: int|
            0 <= i < a.spec_step_count() ==> a.spec_point(i) == #[trigger] b.spec_point(i)
        &&& a.spec_start() == b.spec_start()
        &&& a.spec_limit() == b.spec_limit()
        &&& a.spec_over_sampling() == b.spec_over_sampling()
    }

    /// Starts a sweep over ready-made set-points. There must be one
    /// set-point per configured step and at least one step.
    pub fn new(cfg: SweepConfig, set_points: Vec<Voltage>) -> (r: Result<Sweep, ConfigurationError>)
        ensures
            r is Ok <==> (set_points@.len() == cfg.voltage_steps && set_points@.len() >= 1
                && set_points@.len() <= (usize::MAX - 5) / 3),
            r matches Ok(sw) ==> ({
                &&& sw.wf()
                &&& sw.spec_pos() == 0
                &&& sw.spec_sample_count() == 0
                &&& sw.spec_step_count() == set_points@.len()
                &&& forall|i: int|
                    0 <= i < set_points@.len() ==> #[trigger] sw.spec_point(i) == set_points@[i]@
                &&& sw.spec_start() == cfg.start_voltage@
                &&& sw.spec_limit() == cfg.current_limit@
                &&& sw.spec_over_sampling() == cfg.over_sampling
            }),
    {
        if set_points.len() != cfg.voltage_steps || set_points.len() == 0 || set_points.len()
            > (usize::MAX - 5) / 3 {
            return Err(ConfigurationError);
        }
        Ok(Sweep { cfg, points: set_points, pos: 0, samples: Vec::new() })
    }

    /// What the driver must do next, decided by the position in the script:
    /// the four setup commands, then per step a set-point write, a pause and
    /// a measurement at that same set-point, then the final disable. When the
    /// sweep is finished, one sample stands per step.
    pub fn next_action(&self) -> (r: SweepAction)
        requires
            self.wf(),
        ensures
            ({
                let n = self.spec_step_count();
                let pos = self.spec_pos();
                &&& (r matches SweepAction::Finished <==> pos == 3 * n + 5)
                &&& (r matches SweepAction::Finished ==> self.spec_sample_count() == n)
                &&& pos == 0 ==> ({
                    &&& r matches SweepAction::Send(c)
                    &&& c matches Command::SetVoltage(req)
                    &&& req.voltage@ == self.spec_start()
                })
                &&& pos == 1 ==> ({
                    &&& r matches SweepAction::Send(c)
                    &&& c matches Command::SetCurrentLimit(req)
                    &&& req@ == self.spec_limit()
                })
                &&& pos == 2 ==> ({
                    &&& r matches SweepAction::Send(c)
                    &&& c matches Command::Enable(_)
                })
                &&& pos == 3 ==> ({
                    &&& r matches SweepAction::Send(c)
                    &&& c matches Command::SetOverSampleRate(req)
                    &&& req.samples == self.spec_over_sampling()
                })
                &&& (4 <= pos < 3 * n + 4 && (pos - 4) % 3 == 0) ==> ({
                    &&& r matches SweepAction::Send(c)
                    &&& c matches Command::SetVoltage(req)
                    &&& req.voltage@ == self.spec_point((pos - 4) / 3)
                })
                &&& (4 <= pos < 3 * n + 4 && (pos - 4) % 3 == 1) ==> (
                r matches SweepAction::Pause)
                &&& (4 <= pos < 3 * n + 4 && (pos - 4) % 3 == 2) ==> ({
                    &&& r matches SweepAction::Query(c)
                    &&& c matches Command::Measure(req)
                    &&& req.voltage@ == self.spec_point((pos - 4) / 3)
                })
                &&& pos == 3 * n + 4 ==> ({
                    &&& r matches SweepAction::Send(c)
                    &&& c matches Command::Disable(_)
                })
            }),
    {
        let n = self.points.len();
        if self.pos == 0 {
            SweepAction::Send(
                Command::SetVoltage(
                    SetVoltageRequest { voltage: self.cfg.start_voltage.duplicate() },
                ),
            )
        } else if self.pos == 1 {
            SweepAction::Send(Command::SetCurrentLimit(self.cfg.current_limit.duplicate()))
        } else if self.pos == 2 {
            SweepAction::Send(Command::Enable(EnableRequest))
        } else if self.pos == 3 {
            SweepAction::Send(
                Command::SetOverSampleRate(
                    SetOverSampleRateRequest { samples: self.cfg.over_sampling },
                ),
            )
        } else if self.pos == 3 * n + 4 {
            SweepAction::Send(Command::Disable(DisableRequest))
        } else if self.pos == 3 * n + 5 {
            SweepAction::Finished
        } else {
            let off = self.pos - 4;
            let i = off / 3;
            let rem = off % 3;
            if rem == 0 {
                SweepAction::Send(
                    Command::SetVoltage(SetVoltageRequest { voltage: self.points[i].duplicate() }),
                )
            } else if rem == 1 {
                SweepAction::Pause
            } else {
                SweepAction::Query(
                    Command::Measure(MeasureRequest { voltage: self.points[i].duplicate() }),
                )
            }
        }
    }

    /// Reports a completed write or pause: the script advances one position.
    /// At a query position or at the end, nothing changes; the engine waits
    /// for `record` or is done.
    pub fn acknowledge(&mut self)
        requires
            old(self).wf(),
        ensures
            final(self).wf(),
            Sweep::same_setup(*old(self), *final(self)),
            final(self).spec_sample_count() == old(self).spec_sample_count(),
            ({
                let n = old(self).spec_pos();
                let steps = old(self).spec_step_count();
                if n == 3 * steps + 5 || (4 <= n < 3 * steps + 4 && (n - 4) % 3 == 2) {
                    final(self).spec_pos() == n
                } else {
                    final(self).spec_pos() == n + 1
                }
            }),
    {
        let n = self.points.len();
        if self.pos == 3 * n + 5 {
            return ;
        }
        if self.pos >= 4 && self.pos < 3 * n + 4 && (self.pos - 4) % 3 == 2 {
            return ;
        }
        self.pos = self.pos + 1;
    }

    /// Reports the measurement reply of the pending query: the sample is
    /// appended (the read-back voltage and the measured current, in step
    /// order) and the script advances. Off a query position, nothing
    /// changes.
    pub fn record(&mut self, resp: MeasureResponse)
        requires
            old(self).wf(),
        ensures
            final(self).wf(),
            Sweep::same_setup(*old(self), *final(self)),
            ({
                let n = old(self).spec_pos();
                let steps = old(self).spec_step_count();
                if 4 <= n < 3 * steps + 4 && (n - 4) % 3 == 2 {
                    &&& final(self).spec_pos() == n + 1
                    &&& final(self).spec_sample_count() == old(self).spec_sample_count() + 1
                    &&& final(self).spec_sample(old(self).spec_sample_count()) == (
                    resp.voltage@, resp.current@)
                    &&& forall|i: int|
                        0 <= i < old(self).spec_sample_count()
                            ==> #[trigger] final(self).spec_sample(i) == old(self).spec_sample(i)
                } else {
                    &&& final(self).spec_pos() == n
                    &&& final(self).spec_sample_count() == old(self).spec_sample_count()
                }
            }),
    {
        let n = self.points.len();
        if self.pos >= 4 && self.pos < 3 * n + 4 && (self.pos - 4) % 3 == 2 {
            self.samples.push(Sample { voltage: resp.voltage, current: resp.current });
            self.pos = self.pos + 1;
        }
    }

    /// Whether the sweep is complete.
    pub fn is_finished(&self) -> (r: bool)
        requires
            self.wf(),
        ensures
            r == (self.spec_pos() == 3 * self.spec_step_count() + 5),
    {
        self.pos == 3 * self.points.len() + 5
    }

    /// Hands out the collected samples, in step order.
    pub fn into_samples(self) -> (r: Vec<Sample>)
        ensures
            r@.len() == self.spec_sample_count(),
            forall|i: int|
                0 <= i < r@.len() ==> (#[trigger] r@[i].voltage@, r@[i].current@)
                    == self.spec_sample(i),
    {
        self.samples
    }
}

} // verus!
