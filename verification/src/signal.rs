//! A deterministic periodic waveform generator in fixed-point arithmetic.
//!
//! The generator samples `y = amplitude * sin(x / period)` at
//! `x = counter * interval`, everything scaled by `SCALE` (milli-units).
//! The sine is the Bhaskara rational approximation on milli-radians, so
//! every sample is an exact integer function of the generator's fields:
//! re-sampling from the same counter always yields the same coordinate.

use vstd::prelude::*;

verus! {

/// Fixed-point scale: 1.0 is represented as 1000.
pub const SCALE: u64 = 1000;

/// Pi in milli-radians, rounded.
pub const PI_MILLI: u64 = 3142;

/// Two pi in milli-radians (2 * PI_MILLI).
pub const TWO_PI_MILLI: u64 = 6284;

/// Largest step counter a generator will advance to.
pub const COUNTER_LIMIT: u64 = 2147483648;

/// Largest permitted `interval` parameter (milli-units).
pub const INTERVAL_LIMIT: u64 = 1000000;

/// Largest permitted `period` and `amplitude` parameters (milli-units).
pub const PARAM_LIMIT: u64 = 1000000000;

/// Bhaskara's approximation of `1000 * sin(theta / 1000)` for
/// `theta` in `[0, PI_MILLI]`:
/// `16 * theta * (pi - theta) / (5 * pi^2 - 4 * theta * (pi - theta))`,
/// with numerator and denominator scaled to milli-radians.
pub open spec fn sin_half_milli(theta: int) -> int {
    (16 * theta * (PI_MILLI - theta) * (SCALE as int))
        / (5 * (PI_MILLI as int) * (PI_MILLI as int) - 4 * theta * (PI_MILLI - theta))
}

/// The x coordinate of sample `i`: `i * interval` (milli-units).
pub open spec fn signal_x(interval: int, i: int) -> int {
    i * interval
}

/// The phase of sample `i` in milli-radians, reduced modulo one turn.
pub open spec fn signal_phase(interval: int, period: int, i: int) -> int {
    ((i * interval * (SCALE as int)) / period) % (TWO_PI_MILLI as int)
}

/// The y coordinate of sample `i`: `amplitude * sin(x / period)` in
/// milli-units, computed with magnitude/sign split so that the division
/// truncates toward zero.
pub open spec fn signal_y(interval: int, period: int, amplitude: int, i: int) -> int {
    let phase = signal_phase(interval, period, i);
    if phase <= PI_MILLI {
        (amplitude * sin_half_milli(phase)) / (SCALE as int)
    } else {
        -((amplitude * sin_half_milli(phase - PI_MILLI)) / (SCALE as int))
    }
}

/// A restartable producer of the waveform: a pure function of its three
/// parameters and a monotonically increasing step counter.
pub struct SignalGenerator {
    /// Step increment per sample, milli-units. Positive.
    pub interval: u64,
    /// Oscillation period divisor, milli-units. Positive.
    pub period: u64,
    /// Scale factor applied to the sine, milli-units.
    pub amplitude: u64,
    /// Index of the next sample to be drawn.
    pub counter: u64,
}

impl SignalGenerator {
    /// Parameter and counter bounds under which every intermediate
    /// product of a sample fits in a machine word.
    pub open spec fn wf(&self) -> bool {
        &&& 1 <= self.interval <= INTERVAL_LIMIT
        &&& 1 <= self.period <= PARAM_LIMIT
        &&& self.amplitude <= PARAM_LIMIT
        &&& self.counter <= COUNTER_LIMIT
    }

    /// The coordinate this generator yields at step `i`.
    pub open spec fn point_at(&self, i: int) -> (int, int) {
        (
            signal_x(self.interval as int, i),
            signal_y(self.interval as int, self.period as int, self.amplitude as int, i),
        )
    }

    /// The next `n` coordinates, starting at the current counter.
    pub open spec fn sample_seq(&self, n: int) -> Seq<(int, int)> {
        Seq::new(n as nat, |j: int| self.point_at(self.counter + j))
    }

    /// True when `other` has the same parameters, and hence describes the
    /// same waveform.
    pub open spec fn same_params(&self, other: &SignalGenerator) -> bool {
        &&& self.interval == other.interval
        &&& self.period == other.period
        &&& self.amplitude == other.amplitude
    }

    pub fn new(interval: u64, period: u64, amplitude: u64) -> (g: SignalGenerator)
        requires
            1 <= interval <= INTERVAL_LIMIT,
            1 <= period <= PARAM_LIMIT,
            amplitude <= PARAM_LIMIT,
        ensures
            g.wf(),
            g.interval == interval,
            g.period == period,
            g.amplitude == amplitude,
            g.counter == 0,
    {
        SignalGenerator { interval, period, amplitude, counter: 0 }
    }

    /// Draws and returns the next coordinate, advancing the counter.
    pub fn sample(&mut self) -> (p: (u64, i64))
        requires
            old(self).wf(),
            old(self).counter < COUNTER_LIMIT,
        ensures
            final(self).wf(),
            final(self).same_params(old(self)),
            final(self).counter == old(self).counter + 1,
            (p.0 as int, p.1 as int) == old(self).point_at(old(self).counter as int),
    {
        let p: (u64, i64) = sample_point(self.counter, self.interval, self.period, self.amplitude);
        self.counter = self.counter + 1;
        p
    }

    /// Draws the next `n` coordinates in order; equivalent to calling
    /// `sample` `n` times.
    pub fn take(&mut self, n: usize) -> (r: Vec<(u64, i64)>)
        requires
            old(self).wf(),
            old(self).counter + n <= COUNTER_LIMIT,
        ensures
            final(self).wf(),
            final(self).same_params(old(self)),
            final(self).counter == old(self).counter + n,
            r@.len() == n,
            forall|j: int| 0 <= j < n ==>
                (#[trigger] r@[j].0 as int, r@[j].1 as int) == old(self).point_at(old(self).counter + j),
    {
        let mut r: Vec<(u64, i64)> = Vec::new();
        let mut k: usize = 0;
        while k < n
            invariant
                k <= n,
                self.wf(),
                self.same_params(old(self)),
                self.counter == old(self).counter + k,
                old(self).counter + n <= COUNTER_LIMIT,
                r@.len() == k,
                forall|j: int| 0 <= j < k ==>
                    (#[trigger] r@[j].0 as int, r@[j].1 as int) == old(self).point_at(old(self).counter + j),
            decreases n - k,
        {
            let p: (u64, i64) = self.sample();
            r.push(p);
            k = k + 1;
        }
        r
    }
}

/// One waveform coordinate, computed from plain parameter values.
fn sample_point(counter: u64, interval: u64, period: u64, amplitude: u64) -> (p: (u64, i64))
    requires
        counter <= COUNTER_LIMIT,
        1 <= interval <= INTERVAL_LIMIT,
        1 <= period <= PARAM_LIMIT,
        amplitude <= PARAM_LIMIT,
    ensures
        p.0 as int == signal_x(interval as int, counter as int),
        p.1 as int == signal_y(interval as int, period as int, amplitude as int, counter as int),
{
    assert(counter * interval <= COUNTER_LIMIT * INTERVAL_LIMIT) by (nonlinear_arith)
        requires counter <= COUNTER_LIMIT, interval <= INTERVAL_LIMIT;
    let x: u64 = counter * interval;
    let theta: u64 = (x * SCALE) / period;
    let phase: u64 = theta % TWO_PI_MILLI;
    assert(phase == signal_phase(interval as int, period as int, counter as int));
    let y: i64 = if phase <= PI_MILLI {
        let s: u64 = sin_half_exec(phase);
        assert(amplitude * s <= PARAM_LIMIT * SCALE) by (nonlinear_arith)
            requires amplitude <= PARAM_LIMIT, s <= SCALE;
        ((amplitude * s) / SCALE) as i64
    } else {
        let s: u64 = sin_half_exec(phase - PI_MILLI);
        assert(amplitude * s <= PARAM_LIMIT * SCALE) by (nonlinear_arith)
            requires amplitude <= PARAM_LIMIT, s <= SCALE;
        -(((amplitude * s) / SCALE) as i64)
    };
    (x, y)
}

/// Executable Bhaskara half-wave sine on milli-radians.
fn sin_half_exec(theta: u64) -> (r: u64)
    requires
        theta <= PI_MILLI,
    ensures
        r as int == sin_half_milli(theta as int),
        r <= SCALE,
{
    let d: u64 = PI_MILLI - theta;
    assert(theta * d <= PI_MILLI * PI_MILLI) by (nonlinear_arith)
        requires theta <= PI_MILLI, d <= PI_MILLI;
    let p: u64 = theta * d;
    let num: u64 = 16 * p * SCALE;
    let den: u64 = 5 * PI_MILLI * PI_MILLI - 4 * p;
    let r: u64 = num / den;
    proof {
        assert(num as int == 16 * (theta as int) * (PI_MILLI - theta as int) * (SCALE as int)
            && 4 * (p as int) == 4 * (theta as int) * (PI_MILLI - theta as int)) by (nonlinear_arith)
            requires
                num == 16 * p * SCALE,
                p == theta * d,
                d == PI_MILLI - theta,
                theta <= PI_MILLI;
        // The half-wave peak never exceeds the scale: 4 t (pi - t) <= pi^2.
        assert(4 * (theta as int) * (PI_MILLI - theta as int)
            <= (PI_MILLI as int) * (PI_MILLI as int)) by (nonlinear_arith)
            requires theta <= PI_MILLI;
        assert(num <= SCALE * den);
        assert(r <= SCALE) by (nonlinear_arith)
            requires num <= SCALE * den, 0 < den, r == num / den;
    }
    r
}


/// The waveform never leaves its amplitude band: every sample's y value
/// lies in `[-amplitude, amplitude]`.
pub proof fn lemma_y_within_amplitude(interval: int, period: int, amplitude: int, i: int)
    requires
        1 <= period,
        0 <= amplitude,
    ensures
        -amplitude <= signal_y(interval, period, amplitude, i) <= amplitude,
{
    let phase = signal_phase(interval, period, i);
    assert(0 <= phase < TWO_PI_MILLI) by (nonlinear_arith)
        requires phase == ((i * interval * (SCALE as int)) / period) % (TWO_PI_MILLI as int);
    if phase <= PI_MILLI {
        lemma_sin_half_bounds(phase);
        lemma_scaled_product_bounds(amplitude, sin_half_milli(phase));
    } else {
        lemma_sin_half_bounds(phase - PI_MILLI);
        lemma_scaled_product_bounds(amplitude, sin_half_milli(phase - PI_MILLI));
    }
}

/// The half-wave approximation stays within one unit: its peak value,
/// at half pi, is exactly the scale.
pub proof fn lemma_sin_half_bounds(theta: int)
    requires
        0 <= theta <= PI_MILLI,
    ensures
        0 <= sin_half_milli(theta) <= SCALE,
{
    let num = 16 * theta * (PI_MILLI - theta) * (SCALE as int);
    let den = 5 * (PI_MILLI as int) * (PI_MILLI as int) - 4 * theta * (PI_MILLI - theta);
    assert(0 <= num && 0 < den && num <= (SCALE as int) * den
        && 0 <= num / den <= SCALE) by (nonlinear_arith)
        requires
            num == 16 * theta * (PI_MILLI - theta) * (SCALE as int),
            den == 5 * (PI_MILLI as int) * (PI_MILLI as int) - 4 * theta * (PI_MILLI - theta),
            0 <= theta <= PI_MILLI;
}

/// Scaling a value in `[0, SCALE]` by `amplitude / SCALE` keeps it in
/// `[0, amplitude]`.
proof fn lemma_scaled_product_bounds(amplitude: int, s: int)
    requires
        0 <= amplitude,
        0 <= s <= SCALE,
    ensures
        0 <= (amplitude * s) / (SCALE as int) <= amplitude,
{
    assert(0 <= (amplitude * s) / (SCALE as int) <= amplitude) by (nonlinear_arith)
        requires 0 <= amplitude, 0 <= s <= SCALE;
}

/// Determinism of sampling: two generators with identical parameters and
/// identical counters yield identical coordinate sequences for every
/// non-negative sample count.
pub proof fn lemma_take_deterministic(a: SignalGenerator, b: SignalGenerator, n: int)
    requires
        a.same_params(&b),
        a.counter == b.counter,
        0 <= n,
    ensures
        a.sample_seq(n) == b.sample_seq(n),
{
    assert(a.sample_seq(n) =~= b.sample_seq(n));
}

} // verus!
