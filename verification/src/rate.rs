//! Live rates from successive counters.

use crate::binary64;
use crate::binary64::Binary64;
use crate::model::{TrafficCounters, TrafficRates};
use crate::textmap;
use crate::textmap::TextMap;
use vstd::prelude::*;

verus! {

/// Counters and the moment, in nanoseconds of a steady clock, at which they were read.
#[derive(Debug, Clone, Copy)]
pub struct Sample {
    pub counters: TrafficCounters,
    pub at: u64,
}

/// The time between two moments, none where the second lies before the first.
pub open spec fn elapsed(from: u64, to: u64) -> nat {
    if to >= from {
        (to - from) as nat
    } else {
        0
    }
}

/// The increase of a counter, none where it fell.
pub open spec fn increase(from: u64, to: u64) -> nat {
    if to >= from {
        (to - from) as nat
    } else {
        0
    }
}

/// `bytes` in `nanos` nanoseconds as whole bytes per second, by division of doubles. A time below
/// a millisecond counts as one.
pub open spec fn per_second(bytes: nat, nanos: nat) -> nat {
    let time = if nanos < 1_000_000 {
        1_000_000
    } else {
        nanos
    };
    binary64::truncated(
        binary64::quotient(binary64::nearest(bytes, 1, 0), binary64::seconds(time)),
    )
}

/// The rates between two samples.
pub open spec fn rates_between(before: Sample, now: Sample) -> TrafficRates {
    let time = elapsed(before.at, now.at);
    TrafficRates {
        rx_bps: per_second(
            increase(before.counters.rx_bytes, now.counters.rx_bytes),
            time,
        ) as u64,
        tx_bps: per_second(
            increase(before.counters.tx_bytes, now.counters.tx_bytes),
            time,
        ) as u64,
    }
}

/// The last samples of this machine and of each device.
pub struct RateTracker {
    local: Option<Sample>,
    devices: TextMap<Sample>,
}

impl RateTracker {
    /// The last sample of this machine.
    pub closed spec fn last_local(self) -> Option<Sample> {
        self.local
    }

    /// The last sample of each device, by its key.
    pub closed spec fn last_devices(self) -> Seq<(Seq<char>, Sample)> {
        self.devices@
    }

    /// A tracker without samples.
    pub fn new() -> (r: RateTracker)
        ensures
            r.last_local() is None,
            r.last_devices() == Seq::<(Seq<char>, Sample)>::empty(),
    {
        RateTracker { local: None, devices: TextMap::new() }
    }

    /// The rates of this machine since its last sample, none before there is one; `counters` at
    /// the moment `now` become the last sample.
    pub fn update_local(&mut self, counters: &TrafficCounters, now: u64) -> (r: TrafficRates)
        ensures
            r == match old(self).last_local() {
                Some(before) => rates_between(before, Sample { counters: *counters, at: now }),
                None => TrafficRates { rx_bps: 0, tx_bps: 0 },
            },
            final(self).last_local() == Some(Sample { counters: *counters, at: now }),
            final(self).last_devices() == old(self).last_devices(),
    {
        let sample: Sample = Sample { counters: *counters, at: now };
        let rates: TrafficRates = match &self.local {
            Some(before) => rates_between_of(before, &sample),
            None => TrafficRates { rx_bps: 0, tx_bps: 0 },
        };
        self.local = Some(sample);
        rates
    }

    /// The rates of the device with the key `key`, which is best its hardware address, since its
    /// last sample. Where a counter is missing there are no rates and nothing is recorded.
    pub fn update_device(&mut self, key: &str, rx: Option<u64>, tx: Option<u64>, now: u64) -> (r: (
        Option<u64>,
        Option<u64>,
    ))
        ensures
            final(self).last_local() == old(self).last_local(),
            match (rx, tx) {
                (Some(rx), Some(tx)) => {
                    let sample = Sample {
                        counters: TrafficCounters { rx_bytes: rx, tx_bytes: tx },
                        at: now,
                    };
                    &&& final(self).last_devices() == textmap::put(
                        old(self).last_devices(),
                        key@,
                        sample,
                    )
                    &&& r == match textmap::lookup(old(self).last_devices(), key@) {
                        Some(before) => (
                            Some(rates_between(before, sample).rx_bps),
                            Some(rates_between(before, sample).tx_bps),
                        ),
                        None => (None, None),
                    }
                },
                _ => final(self).last_devices() == old(self).last_devices() && r == (
                    None::<u64>,
                    None::<u64>,
                ),
            },
    {
        match (rx, tx) {
            (Some(rx), Some(tx)) => {
                let sample: Sample = Sample {
                    counters: TrafficCounters { rx_bytes: rx, tx_bytes: tx },
                    at: now,
                };
                let rates: (Option<u64>, Option<u64>) = match self.devices.get(key) {
                    Some(before) => {
                        let r: TrafficRates = rates_between_of(before, &sample);
                        (Some(r.rx_bps), Some(r.tx_bps))
                    },
                    None => (None, None),
                };
                self.devices.insert(key.to_owned(), sample);
                rates
            },
            _ => (None, None),
        }
    }
}

/// `bytes` in `nanos` nanoseconds as whole bytes per second.
pub fn per_second_of(bytes: u64, nanos: u64) -> (r: u64)
    ensures
        r == per_second(bytes as nat, nanos as nat),
{
    let time: u64 = if nanos < 1_000_000 {
        1_000_000
    } else {
        nanos
    };
    let amount: Binary64 = binary64::nearest_of(bytes as u128, 1, 0);
    let secs: Binary64 = binary64::seconds_of(time);
    let q: Binary64 = binary64::quotient_of(&amount, &secs);
    binary64::truncated_of(&q)
}

fn rates_between_of(before: &Sample, now: &Sample) -> (r: TrafficRates)
    ensures
        r == rates_between(*before, *now),
{
    let time: u64 = if now.at >= before.at {
        now.at - before.at
    } else {
        0
    };
    let rx: u64 = if now.counters.rx_bytes >= before.counters.rx_bytes {
        now.counters.rx_bytes - before.counters.rx_bytes
    } else {
        0
    };
    let tx: u64 = if now.counters.tx_bytes >= before.counters.tx_bytes {
        now.counters.tx_bytes - before.counters.tx_bytes
    } else {
        0
    };
    TrafficRates { rx_bps: per_second_of(rx, time), tx_bps: per_second_of(tx, time) }
}

proof fn lemma_zero(nanos: nat)
    ensures
        per_second(0, nanos) == 0,
{
    let time = if nanos < 1_000_000 {
        1_000_000
    } else {
        nanos
    };
    let none = binary64::nearest(0, 1, 0);
    let secs = binary64::seconds(time);
    assert(none.0 == 0) by {
        assert(0 * binary64::two_to(binary64::up_shift(0, 1)) == 0) by (nonlinear_arith);
        let q = 1 * binary64::two_to(binary64::down_shift(0, 1));
        assert(binary64::down_shift(0, 1) == 0);
        assert(q == 1);
    }
    let q = secs.0;
    let r = binary64::quotient(none, secs);
    assert(binary64::down_shift(0, q) == 0);
    assert(binary64::up_shift(0, q) == 0);
    binary64::lemma_seconds_positive(time);
    assert(q * binary64::two_to(0) == q);
    assert(0 * binary64::two_to(0) == 0);
    assert(binary64::half_even(0, q) == 0) by (nonlinear_arith)
        requires
            q > 0,
    {
        assert(0nat / q == 0);
        assert(0nat % q == 0);
    }
    assert(r.0 == 0);
    if r.1 >= 0 {
        assert(0 * binary64::two_to(r.1 as nat) == 0) by (nonlinear_arith);
    } else {
        let d = binary64::two_to((-r.1) as nat);
        binary64::lemma_two_to_adds((-r.1) as nat, 0);
        assert(0nat / d == 0) by (nonlinear_arith)
            requires
                d > 0,
        ;
    }
}

/// A counter that did not grow, or fell, has the rate zero.
pub proof fn law_no_increase(before: Sample, now: Sample)
    ensures
        now.counters.rx_bytes <= before.counters.rx_bytes ==> rates_between(before, now).rx_bps
            == 0,
        now.counters.tx_bytes <= before.counters.tx_bytes ==> rates_between(before, now).tx_bps
            == 0,
{
    lemma_zero(elapsed(before.at, now.at));
}

/// `r` is the integer part of `bytes` divided by `nanos` nanoseconds, up to one part in 2^50 that
/// rounding may add or take; what does not fit into 64 bits is cut off.
pub open spec fn is_rate(r: u64, bytes: int, nanos: int) -> bool {
    &&& 0x4_0000_0000_0000 * (r * nanos) <= 0x4_0000_0000_0001 * (1_000_000_000 * bytes)
    &&& r < u64::MAX ==> 0x3_ffff_ffff_ffff * (1_000_000_000 * bytes) <= 0x4_0000_0000_0000 * ((r
        + 1) * nanos)
}

/// The rates between two samples: the bytes that each counter gained, by the time between them. A
/// time of less than a millisecond counts as one, as does a clock that went back; a counter that
/// went back gained nothing.
pub proof fn law_rates(before: Sample, now: Sample, nanos: int)
    requires
        now.at >= before.at + 1_000_000 ==> nanos == now.at - before.at,
        now.at < before.at + 1_000_000 ==> nanos == 1_000_000,
    ensures
        ({
            let r = rates_between(before, now);
            let (rx, tx) = (
                now.counters.rx_bytes - before.counters.rx_bytes,
                now.counters.tx_bytes - before.counters.tx_bytes,
            );
            &&& rx >= 0 ==> is_rate(r.rx_bps, rx, nanos)
            &&& tx >= 0 ==> is_rate(r.tx_bps, tx, nanos)
            &&& rx <= 0 ==> r.rx_bps == 0
            &&& tx <= 0 ==> r.tx_bps == 0
        }),
{
    lemma_zero(elapsed(before.at, now.at));
    let rx = increase(before.counters.rx_bytes, now.counters.rx_bytes);
    let tx = increase(before.counters.tx_bytes, now.counters.tx_bytes);
    if rx > 0 {
        binary64::law_per_second(rx, nanos as nat);
    }
    if tx > 0 {
        binary64::law_per_second(tx, nanos as nat);
    }
    assert(0 * nanos == 0);
}

} // verus!
