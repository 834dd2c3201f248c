//! Measuring the path: raw bytes over the punched connections, without blocks, checksums or disk.

use vstd::prelude::*;
use vstd::slice::slice_subrange;

use crate::wire::{be_bytes, be_u64, be_value, law_be_reads_back, lemma_be_len, lemma_byte_ranges, push_be_u64};

verus! {

/// The type of a control frame that tells a parameter.
pub const T_PARAMS: u8 = 0xB1;

pub const T_PING: u8 = 0xB2;

pub const T_PONG: u8 = 0xB3;

pub const T_GO: u8 = 0xB4;

pub const T_RESULT: u8 = 0xB5;

/// How many bytes go into one socket call.
pub const IO_BLOCK: usize = 256 * 1024;

/// What goes ahead of the measurement and is not measured, so that the path is busy by then.
pub const AUFWAERM_BYTES: u64 = 2 * 1024 * 1024;

/// The bytes of a control frame: its type and a number.
pub open spec fn frame(t: u8, v: u64) -> Seq<u8> {
    seq![t] + be_bytes(v as nat, 8)
}

/// The bytes of a control frame.
pub fn encode_frame(t: u8, v: u64) -> (data: Vec<u8>)
    ensures
        data@ == frame(t, v),
{
    let mut data: Vec<u8> = Vec::new();
    data.push(t);
    push_be_u64(&mut data, v);
    assert(data@ =~= frame(t, v));
    data
}

/// Type and number of a control frame.
pub fn decode_frame(data: &[u8]) -> (r: (u8, u64))
    requires
        data@.len() >= 9,
    ensures
        r.0 == data@[0],
        r.1 == be_value(data@.subrange(1, 9)),
{
    let rest = slice_subrange(data, 1, data.len());
    assert(rest@.take(8) == data@.subrange(1, 9));
    (data[0], be_u64(rest))
}

/// A control frame is read as it was written.
pub proof fn law_frame_reads_back(t: u8, v: u64)
    ensures
        frame(t, v).len() == 9,
        frame(t, v)[0] == t,
        be_value(frame(t, v).subrange(1, 9)) == v,
{
    lemma_be_len(v as nat, 8);
    lemma_byte_ranges();
    law_be_reads_back(v as nat, 8);
    assert(frame(t, v).subrange(1, 9) == be_bytes(v as nat, 8));
}

/// What is sent for a measurement of this many bytes: the bytes that go ahead come on top.
pub fn gross_bytes(total_bytes: u64) -> (gross: u64)
    requires
        total_bytes + AUFWAERM_BYTES <= u64::MAX,
    ensures
        gross == total_bytes + AUFWAERM_BYTES,
{
    total_bytes + AUFWAERM_BYTES
}

/// What is measured of the bytes that are sent.
pub fn net_bytes(gross: u64) -> (net: u64)
    ensures
        net == if gross >= AUFWAERM_BYTES {
            gross - AUFWAERM_BYTES
        } else {
            0
        },
{
    if gross >= AUFWAERM_BYTES {
        gross - AUFWAERM_BYTES
    } else {
        0
    }
}

/// How much one of several streams carries: the same for all, and one byte more for the first ones.
pub open spec fn share(gross: int, streams: int, index: int) -> int {
    gross / streams + if index < gross % streams {
        1int
    } else {
        0
    }
}

/// How much one of several streams carries.
pub fn stream_share(gross: u64, streams: u64, index: u64) -> (n: u64)
    requires
        streams > 0,
    ensures
        n == share(gross as int, streams as int, index as int),
{
    let extra: u64 = if index < gross % streams {
        1
    } else {
        0
    };
    proof {
        let (g, s) = (gross as int, streams as int);
        vstd::arithmetic::div_mod::lemma_fundamental_div_mod(g, s);
        assert(extra == 1 ==> g / s < g) by (nonlinear_arith)
            requires
                g >= 0,
                s > 0,
                g == s * (g / s) + g % s,
                extra == 1 ==> g % s > 0,
        ;
        assert(g / s <= g) by (nonlinear_arith)
            requires
                g >= 0,
                s > 0,
        ;
    }
    gross / streams + extra
}

/// What the first `n` streams carry together.
pub open spec fn shares(gross: int, streams: int, n: nat) -> int
    decreases n,
{
    if n == 0 {
        0
    } else {
        shares(gross, streams, (n - 1) as nat) + share(gross, streams, n - 1)
    }
}

/// All streams together carry exactly what is sent.
pub proof fn law_shares_add_up(gross: int, streams: nat)
    requires
        gross >= 0,
        streams > 0,
    ensures
        shares(gross, streams as int, streams) == gross,
{
    let s = streams as int;
    lemma_shares(gross, s, streams);
    vstd::arithmetic::div_mod::lemma_fundamental_div_mod(gross, s);
    assert(s * (gross / s) == (gross / s) * s) by (nonlinear_arith);
}

/// No stream carries more than one byte more than another, and none more than one in front of it.
pub proof fn law_shares_are_fair(gross: int, streams: int, i: int, j: int)
    requires
        gross >= 0,
        0 <= i < j < streams,
    ensures
        share(gross, streams, j) <= share(gross, streams, i) <= share(gross, streams, j) + 1,
{
}

proof fn lemma_shares(gross: int, streams: int, n: nat)
    requires
        gross >= 0,
        streams > 0,
        n <= streams,
    ensures
        shares(gross, streams, n) == (gross / streams) * n + if n < gross % streams {
            n as int
        } else {
            gross % streams
        },
    decreases n,
{
    if n > 0 {
        lemma_shares(gross, streams, (n - 1) as nat);
        assert((gross / streams) * n == (gross / streams) * (n - 1) + gross / streams)
            by (nonlinear_arith);
    } else {
        assert((gross / streams) * 0 == 0) by (nonlinear_arith);
    }
}

/// How much the next socket call moves.
pub fn next_io(remaining: u64) -> (n: usize)
    ensures
        n == if remaining <= IO_BLOCK {
            remaining as int
        } else {
            IO_BLOCK as int
        },
{
    if remaining <= IO_BLOCK as u64 {
        remaining as usize
    } else {
        IO_BLOCK
    }
}

/// What the receiver notes while bytes come in, on all streams together. Times are microseconds
/// since the start signal; zero stands for a time that has not come.
#[derive(Debug, Clone, Copy, PartialEq, Eq, Structural)]
pub struct BenchMeter {
    pub read: u64,
    /// When the first byte came.
    pub first_byte_us: u64,
    /// When the bytes that go ahead were through.
    pub start_us: u64,
}

impl BenchMeter {
    pub fn new() -> (m: BenchMeter)
        ensures
            m == (BenchMeter { read: 0, first_byte_us: 0, start_us: 0 }),
    {
        BenchMeter { read: 0, first_byte_us: 0, start_us: 0 }
    }

    /// Notes that bytes came in. A time that was noted is kept.
    pub fn on_read(&mut self, bytes: u64, elapsed_us: u64)
        requires
            old(self).read + bytes <= u64::MAX,
        ensures
            final(self).read == old(self).read + bytes,
            final(self).first_byte_us == if old(self).first_byte_us == 0 {
                elapsed_us
            } else {
                old(self).first_byte_us
            },
            final(self).start_us == if old(self).start_us == 0 && final(self).read
                >= AUFWAERM_BYTES {
                elapsed_us
            } else {
                old(self).start_us
            },
    {
        if self.first_byte_us == 0 {
            self.first_byte_us = elapsed_us;
        }
        self.read = self.read + bytes;
        if self.read >= AUFWAERM_BYTES && self.start_us == 0 {
            self.start_us = elapsed_us;
        }
    }

    /// How long the measured part took: from the end of the part that goes ahead, but not before
    /// the first byte, to the end.
    pub fn duration_us(&self, end_us: u64) -> (us: u64)
        ensures
            ({
                let from = if self.start_us >= self.first_byte_us {
                    self.start_us
                } else {
                    self.first_byte_us
                };
                us == if end_us >= from {
                    end_us - from
                } else {
                    0
                }
            }),
    {
        let from: u64 = if self.start_us >= self.first_byte_us {
            self.start_us
        } else {
            self.first_byte_us
        };
        if end_us >= from {
            end_us - from
        } else {
            0
        }
    }
}

/// The time series: how many bytes came in during each interval.
pub struct Series {
    samples: Vec<u64>,
    last: u64,
}

/// The sum of a row of numbers.
pub open spec fn total(values: Seq<u64>) -> int
    decreases values.len(),
{
    if values.len() == 0 {
        0
    } else {
        total(values.drop_last()) + values.last()
    }
}

impl Series {
    /// The values so far.
    pub closed spec fn values(self) -> Seq<u64> {
        self.samples@
    }

    /// The count of bytes at the last sample.
    pub closed spec fn last(self) -> u64 {
        self.last
    }

    /// The values add up to the count of bytes at the last sample.
    pub open spec fn wf(self) -> bool {
        total(self.values()) == self.last()
    }

    pub fn new() -> (s: Series)
        ensures
            s.wf(),
            s.values() == Seq::<u64>::empty(),
            s.last() == 0,
    {
        Series { samples: Vec::new(), last: 0 }
    }

    /// Notes how many bytes have come in by now.
    pub fn sample(&mut self, now: u64)
        requires
            old(self).wf(),
            now >= old(self).last(),
        ensures
            final(self).wf(),
            final(self).values() == old(self).values().push((now - old(self).last()) as u64),
            final(self).last() == now,
    {
        let step: u64 = now - self.last;
        let ghost before = self.samples@;
        self.samples.push(step);
        self.last = now;
        assert(self.samples@.drop_last() == before);
    }

    /// The values so far.
    pub fn into_samples(self) -> (samples: Vec<u64>)
        ensures
            samples@ == self.values(),
    {
        self.samples
    }
}

/// How long the interval between two samples is, in milliseconds.
pub fn sample_interval_ms(sample_ms: u64) -> (ms: u64)
    ensures
        ms == if sample_ms >= 10 {
            sample_ms
        } else {
            10
        },
{
    if sample_ms >= 10 {
        sample_ms
    } else {
        10
    }
}

} // verus!
