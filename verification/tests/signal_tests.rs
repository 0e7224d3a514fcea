use termchart::signal::SignalGenerator;

// Two freshly constructed generators with identical parameters yield
// identical coordinate sequences, for several sample counts.
#[test]
fn take_is_deterministic() {
    for n in [0usize, 1, 7, 200] {
        let mut a = SignalGenerator::new(200, 3000, 18000);
        let mut b = SignalGenerator::new(200, 3000, 18000);
        assert_eq!(a.take(n), b.take(n));
    }
}

// `take(n)` is equivalent to calling `sample` n times.
#[test]
fn take_matches_repeated_sample() {
    let mut a = SignalGenerator::new(100, 2000, 10000);
    let mut b = SignalGenerator::new(100, 2000, 10000);
    let taken = a.take(50);
    let mut sampled = Vec::new();
    for _ in 0..50 {
        sampled.push(b.sample());
    }
    assert_eq!(taken, sampled);
}

// Exact waveform values: x is i * interval; y follows the fixed-point
// Bhaskara sine, so the first samples of the default 0.2/3.0/18.0 signal
// (milli-units 200/3000/18000) are pinned numbers.
#[test]
fn sample_values_exact() {
    let mut g = SignalGenerator::new(200, 3000, 18000);
    assert_eq!(g.sample(), (0, 0));
    assert_eq!(g.sample(), (200, 1188));
    assert_eq!(g.sample(), (400, 2412));
    assert_eq!(g.sample(), (600, 3600));
}

// The second half-wave is negative: sample 50 of the default signal has
// passed one pi of phase.
#[test]
fn sample_negative_half_wave() {
    let mut g = SignalGenerator::new(200, 3000, 18000);
    let pts = g.take(101);
    assert_eq!(pts[50], (10000, -3438));
    assert_eq!(pts[100], (20000, 6714));
}

// Restarting from zero replays the waveform: the counter alone fixes the
// sample, not how many draws produced it.
#[test]
fn fresh_generator_replays_prefix() {
    let mut long = SignalGenerator::new(100, 2000, 10000);
    let all = long.take(30);
    let mut fresh = SignalGenerator::new(100, 2000, 10000);
    let prefix = fresh.take(10);
    assert_eq!(&all[..10], &prefix[..]);
}
