//! The course of a path measurement on either side.
//!
//! All control frames go over the first connection. The sender tells what it will send, measures
//! the round-trip time with frames that the receiver sends back, gives the start, sends the bytes,
//! and is then told what the receiver has measured.

use vstd::prelude::*;

use crate::transfer::bench::{T_GO, T_PARAMS, T_PING, T_PONG, T_RESULT};

verus! {

/// How far the sending side has come.
#[derive(Debug, Clone, Copy, PartialEq, Eq, Structural)]
pub enum BenchSenderPhase {
    /// The number of bytes is being told.
    Gross,
    /// The interval of the time series is being told.
    Interval,
    /// The number of round-trip frames is being told.
    Probes,
    /// A round-trip frame is being sent.
    Ping { index: u32 },
    /// A round-trip frame is to come back.
    Pong { index: u32 },
    /// The start is being given.
    Go,
    /// The bytes are on their way.
    Payload,
    /// The receiver is to tell how long it took.
    Duration,
    /// The receiver is to tell when the first byte came.
    FirstByte,
    /// The receiver is to tell how many values the time series has.
    Count,
    /// So many values of the time series are still to come.
    Samples { left: u64 },
    Over,
}

/// What came of the last action.
#[derive(Debug, Clone, Copy, PartialEq, Eq, Structural)]
pub enum BenchEvent {
    /// What was to be sent, or to be received as bytes, is through.
    Through,
    /// A control frame has come.
    Frame { t: u8, v: u64 },
}

/// What to do next.
#[derive(Debug, Clone, Copy, PartialEq, Eq, Structural)]
pub enum BenchAction {
    Send { t: u8, v: u64 },
    Read,
    /// Send or receive the bytes of the measurement.
    Payload,
    Finish,
    /// A frame of another type was expected.
    Unexpected { expected: u8, got: u8 },
    /// The event does not belong to the phase.
    OutOfTurn,
}

/// The state of the sending side.
#[verifier::ext_equal]
pub struct BenchSenderModel {
    pub phase: BenchSenderPhase,
    pub gross: u64,
    pub sample_ms: u64,
    pub probes: u32,
    /// How long the measured part took.
    pub duration_us: u64,
    pub first_byte_us: u64,
    pub samples: Seq<u64>,
}

impl BenchSenderModel {
    /// The next round-trip frame, or the start after the last one.
    pub open spec fn ping(self, index: u32) -> (BenchSenderModel, BenchAction) {
        if index < self.probes {
            (
                BenchSenderModel { phase: BenchSenderPhase::Ping { index }, ..self },
                BenchAction::Send { t: T_PING, v: index as u64 },
            )
        } else {
            (
                BenchSenderModel { phase: BenchSenderPhase::Go, ..self },
                BenchAction::Send { t: T_GO, v: 0 },
            )
        }
    }

    /// The next value of the time series, or the end after the last one.
    pub open spec fn awaits(self, left: u64) -> (BenchSenderModel, BenchAction) {
        if left > 0 {
            (
                BenchSenderModel { phase: BenchSenderPhase::Samples { left }, ..self },
                BenchAction::Read,
            )
        } else {
            (BenchSenderModel { phase: BenchSenderPhase::Over, ..self }, BenchAction::Finish)
        }
    }

    pub open spec fn goes_on(self, phase: BenchSenderPhase, action: BenchAction) -> (
        BenchSenderModel,
        BenchAction,
    ) {
        (BenchSenderModel { phase, ..self }, action)
    }

    /// The state after an event, and what to do.
    pub open spec fn next(self, event: BenchEvent) -> (BenchSenderModel, BenchAction) {
        match (self.phase, event) {
            (BenchSenderPhase::Gross, BenchEvent::Through) => self.goes_on(
                BenchSenderPhase::Interval,
                BenchAction::Send { t: T_PARAMS, v: self.sample_ms },
            ),
            (BenchSenderPhase::Interval, BenchEvent::Through) => self.goes_on(
                BenchSenderPhase::Probes,
                BenchAction::Send { t: T_PARAMS, v: self.probes as u64 },
            ),
            (BenchSenderPhase::Probes, BenchEvent::Through) => self.ping(0),
            (BenchSenderPhase::Ping { index }, BenchEvent::Through) => self.goes_on(
                BenchSenderPhase::Pong { index },
                BenchAction::Read,
            ),
            (BenchSenderPhase::Pong { index }, BenchEvent::Frame { t, .. }) => if t == T_PONG {
                self.ping((index + 1) as u32)
            } else {
                self.goes_on(
                    BenchSenderPhase::Over,
                    BenchAction::Unexpected { expected: T_PONG, got: t },
                )
            },
            (BenchSenderPhase::Go, BenchEvent::Through) => self.goes_on(
                BenchSenderPhase::Payload,
                BenchAction::Payload,
            ),
            (BenchSenderPhase::Payload, BenchEvent::Through) => self.goes_on(
                BenchSenderPhase::Duration,
                BenchAction::Read,
            ),
            (BenchSenderPhase::Duration, BenchEvent::Frame { t, v }) => if t == T_RESULT {
                (BenchSenderModel { duration_us: v, ..self }).goes_on(
                    BenchSenderPhase::FirstByte,
                    BenchAction::Read,
                )
            } else {
                self.goes_on(
                    BenchSenderPhase::Over,
                    BenchAction::Unexpected { expected: T_RESULT, got: t },
                )
            },
            (BenchSenderPhase::FirstByte, BenchEvent::Frame { v, .. }) => (BenchSenderModel {
                first_byte_us: v,
                ..self
            }).goes_on(BenchSenderPhase::Count, BenchAction::Read),
            (BenchSenderPhase::Count, BenchEvent::Frame { v, .. }) => self.awaits(v),
            (BenchSenderPhase::Samples { left }, BenchEvent::Frame { v, .. }) => (
            BenchSenderModel { samples: self.samples.push(v), ..self }).awaits((left - 1) as u64),
            _ => self.goes_on(BenchSenderPhase::Over, BenchAction::OutOfTurn),
        }
    }
}

/// The sending side of a path measurement.
pub struct BenchSender {
    phase: BenchSenderPhase,
    gross: u64,
    sample_ms: u64,
    probes: u32,
    duration_us: u64,
    first_byte_us: u64,
    samples: Vec<u64>,
}

impl View for BenchSender {
    type V = BenchSenderModel;

    closed spec fn view(&self) -> BenchSenderModel {
        BenchSenderModel {
            phase: self.phase,
            gross: self.gross,
            sample_ms: self.sample_ms,
            probes: self.probes,
            duration_us: self.duration_us,
            first_byte_us: self.first_byte_us,
            samples: self.samples@,
        }
    }
}

impl BenchSender {
    pub closed spec fn wf(self) -> bool {
        match self.phase {
            BenchSenderPhase::Ping { index } | BenchSenderPhase::Pong { index } => index
                < self.probes,
            BenchSenderPhase::Samples { left } => left > 0,
            _ => true,
        }
    }

    /// Starts a measurement, with the first frame to send.
    pub fn start(gross: u64, sample_ms: u64, probes: u32) -> (r: (BenchSender, BenchAction))
        ensures
            r.0.wf(),
            r.0@ == (BenchSenderModel {
                phase: BenchSenderPhase::Gross,
                gross,
                sample_ms,
                probes,
                duration_us: 0,
                first_byte_us: 0,
                samples: Seq::empty(),
            }),
            r.1 == (BenchAction::Send { t: T_PARAMS, v: gross }),
    {
        let s = BenchSender {
            phase: BenchSenderPhase::Gross,
            gross,
            sample_ms,
            probes,
            duration_us: 0,
            first_byte_us: 0,
            samples: Vec::new(),
        };
        (s, BenchAction::Send { t: T_PARAMS, v: gross })
    }

    fn ping(&mut self, index: u32) -> (action: BenchAction)
        ensures
            (final(self)@, action) == old(self)@.ping(index),
            final(self).wf(),
    {
        if index < self.probes {
            self.phase = BenchSenderPhase::Ping { index };
            BenchAction::Send { t: T_PING, v: index as u64 }
        } else {
            self.phase = BenchSenderPhase::Go;
            BenchAction::Send { t: T_GO, v: 0 }
        }
    }

    fn await_samples(&mut self, left: u64) -> (action: BenchAction)
        ensures
            (final(self)@, action) == old(self)@.awaits(left),
            final(self).wf(),
    {
        if left > 0 {
            self.phase = BenchSenderPhase::Samples { left };
            BenchAction::Read
        } else {
            self.phase = BenchSenderPhase::Over;
            BenchAction::Finish
        }
    }

    /// Takes in what came of the last action and tells what to do next.
    pub fn step(&mut self, event: BenchEvent) -> (action: BenchAction)
        requires
            old(self).wf(),
        ensures
            (final(self)@, action) == old(self)@.next(event),
            final(self).wf(),
    {
        match (self.phase, event) {
            (BenchSenderPhase::Gross, BenchEvent::Through) => {
                self.phase = BenchSenderPhase::Interval;
                BenchAction::Send { t: T_PARAMS, v: self.sample_ms }
            },
            (BenchSenderPhase::Interval, BenchEvent::Through) => {
                self.phase = BenchSenderPhase::Probes;
                BenchAction::Send { t: T_PARAMS, v: self.probes as u64 }
            },
            (BenchSenderPhase::Probes, BenchEvent::Through) => self.ping(0),
            (BenchSenderPhase::Ping { index }, BenchEvent::Through) => {
                self.phase = BenchSenderPhase::Pong { index };
                BenchAction::Read
            },
            (BenchSenderPhase::Pong { index }, BenchEvent::Frame { t, v: _ }) => {
                if t == T_PONG {
                    self.ping(index + 1)
                } else {
                    self.phase = BenchSenderPhase::Over;
                    BenchAction::Unexpected { expected: T_PONG, got: t }
                }
            },
            (BenchSenderPhase::Go, BenchEvent::Through) => {
                self.phase = BenchSenderPhase::Payload;
                BenchAction::Payload
            },
            (BenchSenderPhase::Payload, BenchEvent::Through) => {
                self.phase = BenchSenderPhase::Duration;
                BenchAction::Read
            },
            (BenchSenderPhase::Duration, BenchEvent::Frame { t, v }) => {
                if t == T_RESULT {
                    self.duration_us = v;
                    self.phase = BenchSenderPhase::FirstByte;
                    BenchAction::Read
                } else {
                    self.phase = BenchSenderPhase::Over;
                    BenchAction::Unexpected { expected: T_RESULT, got: t }
                }
            },
            (BenchSenderPhase::FirstByte, BenchEvent::Frame { t: _, v }) => {
                self.first_byte_us = v;
                self.phase = BenchSenderPhase::Count;
                BenchAction::Read
            },
            (BenchSenderPhase::Count, BenchEvent::Frame { t: _, v }) => self.await_samples(v),
            (BenchSenderPhase::Samples { left }, BenchEvent::Frame { t: _, v }) => {
                self.samples.push(v);
                self.await_samples(left - 1)
            },
            _ => {
                self.phase = BenchSenderPhase::Over;
                BenchAction::OutOfTurn
            },
        }
    }

    /// How long the measured part took, when the first byte came, and the time series.
    pub fn into_result(self) -> (r: (u64, u64, Vec<u64>))
        ensures
            r.0 == self@.duration_us,
            r.1 == self@.first_byte_us,
            r.2@ == self@.samples,
    {
        (self.duration_us, self.first_byte_us, self.samples)
    }
}

/// How far the receiving side has come.
#[derive(Debug, Clone, Copy, PartialEq, Eq, Structural)]
pub enum BenchReceiverPhase {
    /// The number of bytes is to come.
    Gross,
    /// The interval of the time series is to come.
    Interval,
    /// The number of round-trip frames is to come.
    Probes,
    /// So many round-trip frames are to come.
    Ping { left: u32 },
    /// A round-trip frame is being sent back; so many are left, this one included.
    Pong { left: u32 },
    /// The start is to come.
    Go,
    /// The bytes are coming.
    Payload,
    /// The duration is being told.
    Duration,
    /// The time of the first byte is being told.
    FirstByte,
    /// The number of values is being told.
    Count,
    /// The value with this number is being told.
    Samples { index: usize },
    Over,
}

/// The state of the receiving side.
#[verifier::ext_equal]
pub struct BenchReceiverModel {
    pub phase: BenchReceiverPhase,
    pub gross: u64,
    pub sample_ms: u64,
    pub duration_us: u64,
    pub first_byte_us: u64,
    pub samples: Seq<u64>,
}

impl BenchReceiverModel {
    pub open spec fn goes_on(self, phase: BenchReceiverPhase, action: BenchAction) -> (
        BenchReceiverModel,
        BenchAction,
    ) {
        (BenchReceiverModel { phase, ..self }, action)
    }

    pub open spec fn unexpected(self, expected: u8, got: u8) -> (BenchReceiverModel, BenchAction) {
        self.goes_on(BenchReceiverPhase::Over, BenchAction::Unexpected { expected, got })
    }

    /// Waits for the next round-trip frame, or for the start after the last one.
    pub open spec fn listens(self, left: u32) -> (BenchReceiverModel, BenchAction) {
        self.goes_on(
            if left > 0 {
                BenchReceiverPhase::Ping { left }
            } else {
                BenchReceiverPhase::Go
            },
            BenchAction::Read,
        )
    }

    /// Tells the next value of the time series, or ends after the last one.
    pub open spec fn tells(self, index: int) -> (BenchReceiverModel, BenchAction) {
        if index < self.samples.len() {
            self.goes_on(
                BenchReceiverPhase::Samples { index: index as usize },
                BenchAction::Send { t: T_RESULT, v: self.samples[index] },
            )
        } else {
            self.goes_on(BenchReceiverPhase::Over, BenchAction::Finish)
        }
    }

    /// The state after an event, and what to do.
    pub open spec fn next(self, event: BenchEvent) -> (BenchReceiverModel, BenchAction) {
        match (self.phase, event) {
            (BenchReceiverPhase::Gross, BenchEvent::Frame { v, .. }) => (BenchReceiverModel {
                gross: v,
                ..self
            }).goes_on(BenchReceiverPhase::Interval, BenchAction::Read),
            (BenchReceiverPhase::Interval, BenchEvent::Frame { v, .. }) => (BenchReceiverModel {
                sample_ms: v,
                ..self
            }).goes_on(BenchReceiverPhase::Probes, BenchAction::Read),
            (BenchReceiverPhase::Probes, BenchEvent::Frame { v, .. }) => self.listens(
                (v % 0x1_0000_0000) as u32,
            ),
            (BenchReceiverPhase::Ping { left }, BenchEvent::Frame { t, v }) => if t == T_PING {
                self.goes_on(
                    BenchReceiverPhase::Pong { left },
                    BenchAction::Send { t: T_PONG, v },
                )
            } else {
                self.unexpected(T_PING, t)
            },
            (BenchReceiverPhase::Pong { left }, BenchEvent::Through) => self.listens(
                (left - 1) as u32,
            ),
            (BenchReceiverPhase::Go, BenchEvent::Frame { t, .. }) => if t == T_GO {
                self.goes_on(BenchReceiverPhase::Payload, BenchAction::Payload)
            } else {
                self.unexpected(T_GO, t)
            },
            (BenchReceiverPhase::Payload, BenchEvent::Through) => self.goes_on(
                BenchReceiverPhase::Duration,
                BenchAction::Send { t: T_RESULT, v: self.duration_us },
            ),
            (BenchReceiverPhase::Duration, BenchEvent::Through) => self.goes_on(
                BenchReceiverPhase::FirstByte,
                BenchAction::Send { t: T_RESULT, v: self.first_byte_us },
            ),
            (BenchReceiverPhase::FirstByte, BenchEvent::Through) => self.goes_on(
                BenchReceiverPhase::Count,
                BenchAction::Send { t: T_RESULT, v: self.samples.len() as u64 },
            ),
            (BenchReceiverPhase::Count, BenchEvent::Through) => self.tells(0),
            (BenchReceiverPhase::Samples { index }, BenchEvent::Through) => self.tells(index + 1),
            _ => self.goes_on(BenchReceiverPhase::Over, BenchAction::OutOfTurn),
        }
    }
}

/// The receiving side of a path measurement.
pub struct BenchReceiver {
    phase: BenchReceiverPhase,
    gross: u64,
    sample_ms: u64,
    duration_us: u64,
    first_byte_us: u64,
    samples: Vec<u64>,
}

impl View for BenchReceiver {
    type V = BenchReceiverModel;

    closed spec fn view(&self) -> BenchReceiverModel {
        BenchReceiverModel {
            phase: self.phase,
            gross: self.gross,
            sample_ms: self.sample_ms,
            duration_us: self.duration_us,
            first_byte_us: self.first_byte_us,
            samples: self.samples@,
        }
    }
}

impl BenchReceiver {
    pub closed spec fn wf(self) -> bool {
        match self.phase {
            BenchReceiverPhase::Ping { left } | BenchReceiverPhase::Pong { left } => left > 0,
            BenchReceiverPhase::Samples { index } => index < self.samples@.len(),
            _ => true,
        }
    }

    /// Starts a measurement: the first frame is to be read.
    pub fn start() -> (r: BenchReceiver)
        ensures
            r.wf(),
            r@ == (BenchReceiverModel {
                phase: BenchReceiverPhase::Gross,
                gross: 0,
                sample_ms: 0,
                duration_us: 0,
                first_byte_us: 0,
                samples: Seq::empty(),
            }),
    {
        BenchReceiver {
            phase: BenchReceiverPhase::Gross,
            gross: 0,
            sample_ms: 0,
            duration_us: 0,
            first_byte_us: 0,
            samples: Vec::new(),
        }
    }

    /// How many bytes the sender sends.
    pub fn gross(&self) -> (n: u64)
        ensures
            n == self@.gross,
    {
        self.gross
    }

    /// The interval of the time series, in milliseconds.
    pub fn sample_ms(&self) -> (ms: u64)
        ensures
            ms == self@.sample_ms,
    {
        self.sample_ms
    }

    /// Takes in what was measured while the bytes came.
    pub fn measured(&mut self, duration_us: u64, first_byte_us: u64, samples: Vec<u64>)
        requires
            old(self).wf(),
            old(self)@.phase == BenchReceiverPhase::Payload,
        ensures
            final(self).wf(),
            final(self)@ == (BenchReceiverModel {
                duration_us,
                first_byte_us,
                samples: samples@,
                ..old(self)@
            }),
    {
        self.duration_us = duration_us;
        self.first_byte_us = first_byte_us;
        self.samples = samples;
    }

    fn listen(&mut self, left: u32) -> (action: BenchAction)
        ensures
            (final(self)@, action) == old(self)@.listens(left),
            final(self).wf(),
    {
        self.phase = if left > 0 {
            BenchReceiverPhase::Ping { left }
        } else {
            BenchReceiverPhase::Go
        };
        BenchAction::Read
    }

    fn tell(&mut self, index: usize) -> (action: BenchAction)
        ensures
            (final(self)@, action) == old(self)@.tells(index as int),
            final(self).wf(),
    {
        if index < self.samples.len() {
            self.phase = BenchReceiverPhase::Samples { index };
            BenchAction::Send { t: T_RESULT, v: self.samples[index] }
        } else {
            self.phase = BenchReceiverPhase::Over;
            BenchAction::Finish
        }
    }

    /// Takes in what came of the last action and tells what to do next.
    pub fn step(&mut self, event: BenchEvent) -> (action: BenchAction)
        requires
            old(self).wf(),
        ensures
            (final(self)@, action) == old(self)@.next(event),
            final(self).wf(),
    {
        match (self.phase, event) {
            (BenchReceiverPhase::Gross, BenchEvent::Frame { t: _, v }) => {
                self.gross = v;
                self.phase = BenchReceiverPhase::Interval;
                BenchAction::Read
            },
            (BenchReceiverPhase::Interval, BenchEvent::Frame { t: _, v }) => {
                self.sample_ms = v;
                self.phase = BenchReceiverPhase::Probes;
                BenchAction::Read
            },
            (BenchReceiverPhase::Probes, BenchEvent::Frame { t: _, v }) => {
                assert((v as u32) as u64 == v % 0x1_0000_0000u64) by (bit_vector);
                self.listen(v as u32)
            },
            (BenchReceiverPhase::Ping { left }, BenchEvent::Frame { t, v }) => {
                if t == T_PING {
                    self.phase = BenchReceiverPhase::Pong { left };
                    BenchAction::Send { t: T_PONG, v }
                } else {
                    self.phase = BenchReceiverPhase::Over;
                    BenchAction::Unexpected { expected: T_PING, got: t }
                }
            },
            (BenchReceiverPhase::Pong { left }, BenchEvent::Through) => self.listen(left - 1),
            (BenchReceiverPhase::Go, BenchEvent::Frame { t, v: _ }) => {
                if t == T_GO {
                    self.phase = BenchReceiverPhase::Payload;
                    BenchAction::Payload
                } else {
                    self.phase = BenchReceiverPhase::Over;
                    BenchAction::Unexpected { expected: T_GO, got: t }
                }
            },
            (BenchReceiverPhase::Payload, BenchEvent::Through) => {
                self.phase = BenchReceiverPhase::Duration;
                BenchAction::Send { t: T_RESULT, v: self.duration_us }
            },
            (BenchReceiverPhase::Duration, BenchEvent::Through) => {
                self.phase = BenchReceiverPhase::FirstByte;
                BenchAction::Send { t: T_RESULT, v: self.first_byte_us }
            },
            (BenchReceiverPhase::FirstByte, BenchEvent::Through) => {
                self.phase = BenchReceiverPhase::Count;
                BenchAction::Send { t: T_RESULT, v: self.samples.len() as u64 }
            },
            (BenchReceiverPhase::Count, BenchEvent::Through) => self.tell(0),
            (BenchReceiverPhase::Samples { index }, BenchEvent::Through) => {
                let count: usize = self.samples.len();
                assert(index < count);
                self.tell(index + 1)
            },
            _ => {
                self.phase = BenchReceiverPhase::Over;
                BenchAction::OutOfTurn
            },
        }
    }

    /// How long the measured part took, when the first byte came, and the time series.
    pub fn into_result(self) -> (r: (u64, u64, Vec<u64>))
        ensures
            r.0 == self@.duration_us,
            r.1 == self@.first_byte_us,
            r.2@ == self@.samples,
    {
        (self.duration_us, self.first_byte_us, self.samples)
    }
}

/// The two sides of a measurement with a connection between them: a frame that one side sends is
/// the next one that the other side reads.
pub open spec fn exchange(s: BenchSenderModel, r: BenchReceiverModel, index: u32) -> (
    BenchSenderModel,
    BenchReceiverModel,
) {
    let (r1, reply) = r.next(BenchEvent::Frame { t: T_PING, v: index as u64 });
    let (s1, _) = s.next(BenchEvent::Through);
    match reply {
        BenchAction::Send { t, v } => (
            s1.next(BenchEvent::Frame { t, v }).0,
            r1.next(BenchEvent::Through).0,
        ),
        _ => (s1, r1),
    }
}

/// Whether the two sides stand at the same round-trip frame.
pub open spec fn in_step(s: BenchSenderModel, r: BenchReceiverModel, index: u32) -> bool {
    &&& index <= s.probes
    &&& if index < s.probes {
        s.phase == (BenchSenderPhase::Ping { index }) && r.phase == (BenchReceiverPhase::Ping {
            left: (s.probes - index) as u32,
        })
    } else {
        s.phase == BenchSenderPhase::Go && r.phase == BenchReceiverPhase::Go
    }
}

/// After the sender has told its parameters, the receiver knows them, and both sides stand at the
/// same round-trip frame.
pub proof fn law_parameters_arrive(gross: u64, sample_ms: u64, probes: u32, r: BenchReceiverModel)
    requires
        r.phase == BenchReceiverPhase::Gross,
    ensures
        ({
            let s = BenchSenderModel {
                phase: BenchSenderPhase::Probes,
                gross,
                sample_ms,
                probes,
                duration_us: 0,
                first_byte_us: 0,
                samples: Seq::empty(),
            };
            let r1 = r.next(BenchEvent::Frame { t: T_PARAMS, v: gross }).0;
            let r2 = r1.next(BenchEvent::Frame { t: T_PARAMS, v: sample_ms }).0;
            let r3 = r2.next(BenchEvent::Frame { t: T_PARAMS, v: probes as u64 }).0;
            &&& r3.gross == gross
            &&& r3.sample_ms == sample_ms
            &&& in_step(s.next(BenchEvent::Through).0, r3, 0)
        }),
{
}

/// The sender tells the number of bytes, the interval and the number of round-trip frames, in this
/// order, each in a frame for parameters, and then sends as many round-trip frames as it has told,
/// numbered from zero, before it gives the start.
pub proof fn law_sender_keeps_to_its_parameters(s: BenchSenderModel, index: u32)
    ensures
        s.phase == BenchSenderPhase::Gross ==> s.next(BenchEvent::Through).1 == (
        BenchAction::Send { t: T_PARAMS, v: s.sample_ms }) && s.next(BenchEvent::Through).0.phase
            == BenchSenderPhase::Interval,
        s.phase == BenchSenderPhase::Interval ==> s.next(BenchEvent::Through).1 == (
        BenchAction::Send { t: T_PARAMS, v: s.probes as u64 }) && s.next(
            BenchEvent::Through,
        ).0.phase == BenchSenderPhase::Probes,
        s.phase == BenchSenderPhase::Probes && s.probes > 0 ==> s.next(BenchEvent::Through).1 == (
        BenchAction::Send { t: T_PING, v: 0 }),
        s.phase == BenchSenderPhase::Probes && s.probes == 0 ==> s.next(BenchEvent::Through).1 == (
        BenchAction::Send { t: T_GO, v: 0 }),
        s.phase == (BenchSenderPhase::Ping { index }) ==> s.next(BenchEvent::Through).1
            == BenchAction::Read && s.next(BenchEvent::Through).0.phase == (
        BenchSenderPhase::Pong { index }),
        s.phase == (BenchSenderPhase::Pong { index }) && index + 1 < s.probes ==> s.next(
            BenchEvent::Frame { t: T_PONG, v: 0 },
        ).1 == (BenchAction::Send { t: T_PING, v: (index + 1) as u64 }),
        s.phase == (BenchSenderPhase::Pong { index }) && index + 1 == s.probes ==> s.next(
            BenchEvent::Frame { t: T_PONG, v: 0 },
        ).1 == (BenchAction::Send { t: T_GO, v: 0 }),
{
}

/// Whatever happens, the sender keeps the parameters that it tells, and takes from the receiver only
/// its result; and the receiver takes from the sender only its parameters, and keeps what it has
/// measured.
pub proof fn law_sides_keep_what_they_tell(
    s: BenchSenderModel,
    r: BenchReceiverModel,
    event: BenchEvent,
)
    ensures
        ({
            let n = s.next(event).0;
            &&& n.gross == s.gross && n.sample_ms == s.sample_ms && n.probes == s.probes
            &&& !(s.phase is Duration) ==> n.duration_us == s.duration_us
            &&& !(s.phase is FirstByte) ==> n.first_byte_us == s.first_byte_us
            &&& !(s.phase is Samples) ==> n.samples == s.samples
        }),
        ({
            let n = r.next(event).0;
            &&& n.duration_us == r.duration_us && n.first_byte_us == r.first_byte_us && n.samples
                == r.samples
            &&& !(r.phase is Gross) ==> n.gross == r.gross
            &&& !(r.phase is Interval) ==> n.sample_ms == r.sample_ms
        }),
{
}

/// A frame of another type than the one that is waited for ends the measurement, and both types are
/// told: for the sender in place of a round-trip frame or of the first frame of the result, and for
/// the receiver in place of a round-trip frame or of the start.
pub proof fn law_wrong_frame_ends_the_measurement(
    s: BenchSenderModel,
    r: BenchReceiverModel,
    t: u8,
    v: u64,
)
    ensures
        s.phase is Pong && t != T_PONG ==> s.next(BenchEvent::Frame { t, v }).1 == (
        BenchAction::Unexpected { expected: T_PONG, got: t }),
        s.phase is Duration && t != T_RESULT ==> s.next(BenchEvent::Frame { t, v }).1 == (
        BenchAction::Unexpected { expected: T_RESULT, got: t }),
        r.phase is Ping && t != T_PING ==> r.next(BenchEvent::Frame { t, v }).1 == (
        BenchAction::Unexpected { expected: T_PING, got: t }),
        r.phase is Go && t != T_GO ==> r.next(BenchEvent::Frame { t, v }).1 == (
        BenchAction::Unexpected { expected: T_GO, got: t }),
        s.next(BenchEvent::Frame { t, v }).1 is Unexpected ==> s.next(
            BenchEvent::Frame { t, v },
        ).0.phase is Over,
        r.next(BenchEvent::Frame { t, v }).1 is Unexpected ==> r.next(
            BenchEvent::Frame { t, v },
        ).0.phase is Over,
{
}

/// The receiver sends every round-trip frame back as it came, so that the sender can tell it by its
/// number.
pub proof fn law_round_trip_frames_come_back(r: BenchReceiverModel, v: u64)
    requires
        r.phase is Ping,
    ensures
        r.next(BenchEvent::Frame { t: T_PING, v }).1 == (BenchAction::Send { t: T_PONG, v }),
        r.next(BenchEvent::Frame { t: T_PING, v }).0.gross == r.gross,
        r.next(BenchEvent::Frame { t: T_PING, v }).0.sample_ms == r.sample_ms,
{
}

/// The two sides stay in step over every round-trip frame, and after the last one the start of the
/// sender is the one that the receiver waits for.
pub proof fn law_sides_stay_in_step(s: BenchSenderModel, r: BenchReceiverModel, index: u32)
    requires
        in_step(s, r, index),
    ensures
        index < s.probes ==> in_step(
            exchange(s, r, index).0,
            exchange(s, r, index).1,
            (index + 1) as u32,
        ) && exchange(s, r, index).0.probes == s.probes,
        index == s.probes ==> r.next(BenchEvent::Frame { t: T_GO, v: 0 }).1
            == BenchAction::Payload && s.next(BenchEvent::Through).1 == BenchAction::Payload,
{
}

/// The receiving side after the bytes have come and `k` frames of its result are through, and what
/// it does then.
pub open spec fn telling(r: BenchReceiverModel, k: nat) -> (BenchReceiverModel, BenchAction)
    decreases k,
{
    if k == 0 {
        r.next(BenchEvent::Through)
    } else {
        telling(r, (k - 1) as nat).0.next(BenchEvent::Through)
    }
}

/// The sending side after it has sent its bytes and has read `k` frames of the receiver's result.
pub open spec fn hearing(s: BenchSenderModel, r: BenchReceiverModel, k: nat) -> BenchSenderModel
    decreases k,
{
    if k == 0 {
        s.next(BenchEvent::Through).0
    } else {
        match telling(r, (k - 1) as nat).1 {
            BenchAction::Send { t, v } => hearing(s, r, (k - 1) as nat).next(
                BenchEvent::Frame { t, v },
            ).0,
            _ => hearing(s, r, (k - 1) as nat),
        }
    }
}

proof fn lemma_result(s: BenchSenderModel, r: BenchReceiverModel, j: nat)
    requires
        s.phase == BenchSenderPhase::Payload,
        s.samples == Seq::<u64>::empty(),
        r.phase == BenchReceiverPhase::Payload,
        j <= r.samples.len() <= usize::MAX,
    ensures
        ({
            let (told, action) = telling(r, j + 3);
            let heard = hearing(s, r, j + 3);
            let left = (r.samples.len() - j) as u64;
            &&& told.samples == r.samples
            &&& heard.samples == r.samples.take(j as int)
            &&& heard.duration_us == r.duration_us
            &&& heard.first_byte_us == r.first_byte_us
            &&& if left > 0 {
                &&& told.phase == (BenchReceiverPhase::Samples { index: j as usize })
                &&& action == (BenchAction::Send { t: T_RESULT, v: r.samples[j as int] })
                &&& heard.phase == (BenchSenderPhase::Samples { left })
            } else {
                &&& action == BenchAction::Finish
                &&& heard.phase == BenchSenderPhase::Over
            }
        }),
    decreases j,
{
    if j == 0 {
        reveal_with_fuel(telling, 4);
        reveal_with_fuel(hearing, 4);
        assert(r.samples.take(0) == Seq::<u64>::empty());
    } else {
        let i = (j - 1) as nat;
        lemma_result(s, r, i);
        assert((j + 3 - 1) as nat == i + 3);
        assert(r.samples.take(j as int) == r.samples.take(i as int).push(r.samples[i as int]));
    }
}

/// The receiver tells its result in a fixed order, each number in a frame for results: how long it
/// took, when the first byte came, how many values the time series has, and then the values.
pub proof fn law_result_is_told_in_order(r: BenchReceiverModel, index: usize)
    requires
        r.samples.len() <= usize::MAX,
    ensures
        r.phase is Payload ==> r.next(BenchEvent::Through).1 == (BenchAction::Send {
            t: T_RESULT,
            v: r.duration_us,
        }) && r.next(BenchEvent::Through).0.phase is Duration,
        r.phase is Duration ==> r.next(BenchEvent::Through).1 == (BenchAction::Send {
            t: T_RESULT,
            v: r.first_byte_us,
        }) && r.next(BenchEvent::Through).0.phase is FirstByte,
        r.phase is FirstByte ==> r.next(BenchEvent::Through).1 == (BenchAction::Send {
            t: T_RESULT,
            v: r.samples.len() as u64,
        }) && r.next(BenchEvent::Through).0.phase is Count,
        r.phase is Count && r.samples.len() > 0 ==> r.next(BenchEvent::Through).1 == (
        BenchAction::Send { t: T_RESULT, v: r.samples[0] }),
        r.phase == (BenchReceiverPhase::Samples { index }) && index + 1 < r.samples.len()
            ==> r.next(BenchEvent::Through).1 == (BenchAction::Send {
            t: T_RESULT,
            v: r.samples[index + 1],
        }),
{
}

/// The sender is told exactly what the receiver has measured, the whole time series included, and
/// both sides end with it.
pub proof fn law_result_arrives(s: BenchSenderModel, r: BenchReceiverModel)
    requires
        s.phase == BenchSenderPhase::Payload,
        s.samples == Seq::<u64>::empty(),
        r.phase == BenchReceiverPhase::Payload,
        r.samples.len() <= usize::MAX,
    ensures
        ({
            let k = r.samples.len() + 3;
            let heard = hearing(s, r, k);
            &&& telling(r, k).1 == BenchAction::Finish
            &&& heard.phase == BenchSenderPhase::Over
            &&& heard.duration_us == r.duration_us
            &&& heard.first_byte_us == r.first_byte_us
            &&& heard.samples == r.samples
        }),
{
    lemma_result(s, r, r.samples.len());
    assert(r.samples.take(r.samples.len() as int) == r.samples);
}

} // verus!
