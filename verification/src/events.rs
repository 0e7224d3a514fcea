//! The event multiplexer: a capacity-one channel fed by a keyboard
//! producer and a periodic ticker, consumed by one render loop.
//!
//! The channel discipline is asymmetric by design. A keypress is never
//! dropped: while the slot is occupied its producer is blocked, which this
//! model records as a queue of waiting keys that refill the slot as events
//! are consumed. A tick is best-effort: published only when the slot is
//! free, otherwise coalesced away, since a tick is an idempotent
//! "advance by one unit" signal.

use vstd::prelude::*;

verus! {

/// One event of the merged stream.
#[derive(Clone, Copy, Debug, PartialEq, Eq, Structural)]
pub enum Event {
    /// A keypress, by key code (a Unicode scalar value).
    KeyPress(u32),
    /// One firing of the fixed-interval timer.
    Tick,
}

/// The events a burst of key codes publishes, in order.
pub open spec fn as_key_events(ks: Seq<u32>) -> Seq<Event> {
    Seq::new(ks.len(), |i: int| Event::KeyPress(ks[i]))
}

/// The subsequence of key codes carried by a stream of events.
pub open spec fn keys_of(q: Seq<Event>) -> Seq<u32>
    decreases q.len(),
{
    if q.len() == 0 {
        Seq::empty()
    } else {
        match q[0] {
            Event::KeyPress(c) => seq![c] + keys_of(q.skip(1)),
            Event::Tick => keys_of(q.skip(1)),
        }
    }
}

/// The merged event stream: a one-slot channel plus the keys whose
/// blocked producer is still waiting to publish them.
pub struct EventMultiplexer {
    /// The single unconsumed event, if any.
    pub slot: Option<Event>,
    /// Key codes published while the slot was occupied, oldest first.
    pub waiting: Vec<u32>,
}

impl EventMultiplexer {
    /// A key only ever waits behind an occupied slot.
    pub open spec fn wf(&self) -> bool {
        self.slot is None ==> self.waiting@.len() == 0
    }

    /// The pending events in arrival order: the slot's occupant first,
    /// then the waiting keys.
    pub open spec fn queue(&self) -> Seq<Event> {
        (match self.slot {
            Option::None => Seq::<Event>::empty(),
            Option::Some(e) => seq![e],
        }) + as_key_events(self.waiting@)
    }

    pub fn new() -> (m: EventMultiplexer)
        ensures
            m.wf(),
            m.queue().len() == 0,
    {
        let m = EventMultiplexer { slot: Option::None, waiting: Vec::new() };
        proof {
            assert(m.queue() =~= Seq::<Event>::empty());
        }
        m
    }

    /// Publishes a keypress. Never loses it: the pending stream is the
    /// old one with this key appended, whatever the channel held.
    pub fn publish_key(&mut self, c: u32)
        requires
            old(self).wf(),
        ensures
            final(self).wf(),
            final(self).queue() == old(self).queue().push(Event::KeyPress(c)),
    {
        if self.slot.is_none() {
            self.slot = Option::Some(Event::KeyPress(c));
        } else {
            self.waiting.push(c);
        }
        proof {
            assert(self.queue() =~= old(self).queue().push(Event::KeyPress(c)));
        }
    }

    /// Publishes a tick, best-effort: accepted exactly when nothing is
    /// pending, and otherwise dropped with the channel unchanged.
    pub fn publish_tick(&mut self) -> (accepted: bool)
        requires
            old(self).wf(),
        ensures
            final(self).wf(),
            accepted == (old(self).queue().len() == 0),
            accepted ==> final(self).queue() == seq![Event::Tick],
            !accepted ==> *final(self) == *old(self),
    {
        if self.slot.is_none() {
            self.slot = Option::Some(Event::Tick);
            proof {
                assert(self.queue() =~= seq![Event::Tick]);
            }
            true
        } else {
            false
        }
    }

    /// Consumes the oldest pending event, if any; a blocked key producer
    /// then publishes its oldest waiting key into the freed slot.
    pub fn next(&mut self) -> (e: Option<Event>)
        requires
            old(self).wf(),
        ensures
            final(self).wf(),
            old(self).queue().len() == 0 ==> e is None && *final(self) == *old(self),
            old(self).queue().len() > 0 ==> {
                &&& e == Option::Some(old(self).queue()[0])
                &&& final(self).queue() == old(self).queue().skip(1)
            },
    {
        match self.slot {
            Option::None => Option::None,
            Option::Some(ev) => {
                if self.waiting.len() > 0 {
                    let c: u32 = self.waiting.remove(0);
                    self.slot = Option::Some(Event::KeyPress(c));
                } else {
                    self.slot = Option::None;
                }
                proof {
                    assert(self.queue() =~= old(self).queue().skip(1));
                }
                Option::Some(ev)
            }
        }
    }

    /// Consumes every pending event, returning them in arrival order:
    /// nothing pending — in particular no key — is lost or reordered.
    pub fn drain(&mut self) -> (r: Vec<Event>)
        requires
            old(self).wf(),
        ensures
            final(self).wf(),
            r@ == old(self).queue(),
            final(self).queue().len() == 0,
    {
        let mut r: Vec<Event> = Vec::new();
        while self.slot.is_some()
            invariant
                self.wf(),
                r@ + self.queue() == old(self).queue(),
            decreases self.queue().len(),
        {
            let e: Option<Event> = self.next();
            if let Option::Some(ev) = e {
                r.push(ev);
                proof {
                    assert(r@ + self.queue() =~= old(self).queue());
                }
            }
        }
        proof {
            assert(r@ =~= old(self).queue());
        }
        r
    }
}

/// Splitting a stream splits its keys.
pub proof fn lemma_keys_of_concat(a: Seq<Event>, b: Seq<Event>)
    ensures
        keys_of(a + b) == keys_of(a) + keys_of(b),
    decreases a.len(),
{
    if a.len() == 0 {
        assert(a + b =~= b);
        assert(keys_of(a) + keys_of(b) =~= keys_of(b));
    } else {
        assert((a + b).skip(1) =~= a.skip(1) + b);
        lemma_keys_of_concat(a.skip(1), b);
        match a[0] {
            Event::KeyPress(c) => {
                assert(keys_of(a + b) =~= keys_of(a) + keys_of(b));
            }
            Event::Tick => {
                assert(keys_of(a + b) =~= keys_of(a) + keys_of(b));
            }
        }
    }
}

/// A stream of keypresses carries exactly its key codes, in order.
pub proof fn lemma_keys_of_key_burst(ks: Seq<u32>)
    ensures
        keys_of(as_key_events(ks)) == ks,
    decreases ks.len(),
{
    let m = as_key_events(ks);
    if ks.len() == 0 {
        assert(keys_of(m) =~= ks);
    } else {
        assert(m.skip(1) =~= as_key_events(ks.skip(1)));
        lemma_keys_of_key_burst(ks.skip(1));
        assert(keys_of(m) =~= ks);
    }
}

/// No key loss under load: a burst of keypresses published into any
/// pending stream — however many ticks were or were not accepted around
/// it — leaves the stream's keys equal to the keys already pending
/// followed by the whole burst, in publication order. Since `next`
/// consumes the stream front-first, every key of the burst is eventually
/// observed, in order.
pub proof fn lemma_no_key_loss(q: Seq<Event>, ks: Seq<u32>)
    ensures
        keys_of(q + as_key_events(ks)) == keys_of(q) + ks,
{
    lemma_keys_of_concat(q, as_key_events(ks));
    lemma_keys_of_key_burst(ks);
}

} // verus!

