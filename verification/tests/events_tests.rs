use termchart::events::{Event, EventMultiplexer};

// The loss asymmetry, both sides at once: a burst of keypresses
// published faster than anything is consumed is fully observed, in
// order, while ticks published into the busy channel are dropped.
#[test]
fn key_burst_survives_tick_loss() {
    let mut mux = EventMultiplexer::new();
    assert!(mux.publish_tick()); // channel empty: tick accepted
    let keys = [104u32, 101, 108, 105, 117, 109];
    for (i, k) in keys.iter().enumerate() {
        mux.publish_key(*k);
        // channel now busy: every further tick is dropped
        assert!(!mux.publish_tick(), "tick accepted at {}", i);
    }
    assert_eq!(mux.next(), Some(Event::Tick));
    for k in keys {
        assert_eq!(mux.next(), Some(Event::KeyPress(k)));
    }
    assert_eq!(mux.next(), None);
}

// Arrival order is preserved across both producers.
#[test]
fn next_returns_arrival_order() {
    let mut mux = EventMultiplexer::new();
    mux.publish_key(97);
    mux.publish_key(98);
    assert_eq!(mux.next(), Some(Event::KeyPress(97)));
    // slot was refilled by the waiting key; a tick is dropped here
    assert!(!mux.publish_tick());
    assert_eq!(mux.next(), Some(Event::KeyPress(98)));
    assert!(mux.publish_tick());
    assert_eq!(mux.next(), Some(Event::Tick));
    assert_eq!(mux.next(), None);
}

// drain returns everything pending, oldest first, leaving nothing.
#[test]
fn drain_empties_in_order() {
    let mut mux = EventMultiplexer::new();
    mux.publish_key(1);
    mux.publish_key(2);
    mux.publish_key(3);
    assert_eq!(
        mux.drain(),
        vec![Event::KeyPress(1), Event::KeyPress(2), Event::KeyPress(3)]
    );
    assert_eq!(mux.next(), None);
}

// A tick is only ever accepted into an empty channel; it never displaces
// or delays a pending key.
#[test]
fn tick_never_displaces_key() {
    let mut mux = EventMultiplexer::new();
    mux.publish_key(42);
    assert!(!mux.publish_tick());
    assert_eq!(mux.next(), Some(Event::KeyPress(42)));
    assert_eq!(mux.next(), None);
    assert!(mux.publish_tick());
}
