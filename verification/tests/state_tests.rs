use termchart::driver::{run_events, step, LoopError, QUIT_KEY};
use termchart::events::Event;
use termchart::signal::SignalGenerator;
use termchart::state::AppState;

fn default_state() -> AppState {
    let generators = vec![
        (SignalGenerator::new(200, 3000, 18000), 5),
        (SignalGenerator::new(100, 2000, 10000), 10),
    ];
    AppState::new(generators, 200, 0, 20000)
}

// Rolling-window length is invariant across any number of updates.
#[test]
fn window_lengths_invariant() {
    let mut s = default_state();
    for _ in 0..50 {
        s.update();
        assert_eq!(s.windows[0].points.len(), 200);
        assert_eq!(s.windows[1].points.len(), 200);
    }
}

// Each update slides both time bounds by exactly one unit (1000 milli)
// and keeps the extent unchanged.
#[test]
fn time_window_slides_by_one_unit() {
    let mut s = default_state();
    let mut prev = (s.time.start, s.time.end);
    assert_eq!(prev, (0, 20000));
    for _ in 0..10 {
        s.update();
        assert_eq!(s.time.start, prev.0 + 1000);
        assert_eq!(s.time.end, prev.1 + 1000);
        assert_eq!(s.time.end - s.time.start, 20000);
        prev = (s.time.start, s.time.end);
    }
}

// An update retires each window's refresh count from the front: the
// survivors shift down, and the appended samples continue the waveform.
#[test]
fn update_shifts_windows() {
    let mut s = default_state();
    let before0 = s.windows[0].points.clone();
    let before1 = s.windows[1].points.clone();
    s.update();
    assert_eq!(&s.windows[0].points[..195], &before0[5..]);
    assert_eq!(&s.windows[1].points[..190], &before1[10..]);
    // the appended tail continues the same deterministic waveform
    let mut replay = SignalGenerator::new(200, 3000, 18000);
    let all = replay.take(205);
    assert_eq!(&s.windows[0].points[..], &all[5..]);
}

// Within a window the x coordinates strictly increase.
#[test]
fn window_x_increasing() {
    let mut s = default_state();
    s.update();
    for w in [&s.windows[0], &s.windows[1]] {
        for pair in w.points.windows(2) {
            assert!(pair[0].0 < pair[1].0);
        }
    }
}

// The quit key ends the loop at once; other keys are ignored; a tick
// advances the state.
#[test]
fn step_decisions() {
    let mut s = default_state();
    assert!(!step(&mut s, Event::KeyPress(120)));
    assert_eq!(s.time.start, 0);
    assert!(!step(&mut s, Event::Tick));
    assert_eq!(s.time.start, 1000);
    assert!(step(&mut s, Event::KeyPress(QUIT_KEY)));
    assert_eq!(s.time.start, 1000);
}

// A quit anywhere in the stream returns success immediately: pending
// ticks after it are never processed.
#[test]
fn quit_returns_success_promptly() {
    let mut s = default_state();
    let events = vec![
        Event::Tick,
        Event::KeyPress(120),
        Event::Tick,
        Event::KeyPress(QUIT_KEY),
        Event::Tick,
        Event::Tick,
    ];
    assert_eq!(run_events(&mut s, &events), Ok(()));
    // exactly the two ticks before the quit were processed
    assert_eq!(s.time.start, 2000);
    assert_eq!(s.windows[0].signal.counter, 210);
    assert_eq!(s.windows[1].signal.counter, 220);
}

// A stream that ends without the quit key reports the closed channel.
#[test]
fn exhausted_stream_is_channel_closed() {
    let mut s = default_state();
    let events = vec![Event::Tick, Event::KeyPress(120)];
    assert_eq!(run_events(&mut s, &events), Err(LoopError::ChannelClosed));
    assert_eq!(s.time.start, 1000);
}

// Quit as the very first event: success with no state change at all.
#[test]
fn immediate_quit_leaves_state_untouched() {
    let mut s = default_state();
    let before = (s.time.start, s.time.end, s.windows[0].signal.counter);
    let events = vec![Event::KeyPress(QUIT_KEY), Event::Tick, Event::Tick];
    assert_eq!(run_events(&mut s, &events), Ok(()));
    assert_eq!((s.time.start, s.time.end, s.windows[0].signal.counter), before);
}
