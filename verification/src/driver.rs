//! The render-loop decision core: what one received event does to the
//! application state, and how a whole stream of events is consumed.
//!
//! The real loop blocks on the multiplexer, applies `step`, and hands the
//! current state to a rendering backend; everything it decides is here.

use vstd::prelude::*;
use crate::events::Event;
use crate::signal::SCALE;
use crate::state::AppState;

verus! {

/// The key code that terminates the render loop ('q').
pub const QUIT_KEY: u32 = 113;

/// The render loop's only failure: the event stream ended without a quit
/// key, meaning a background producer terminated unexpectedly.
#[derive(Clone, Copy, Debug, PartialEq, Eq, Structural)]
pub enum LoopError {
    ChannelClosed,
}

/// One for a tick, zero for anything else.
pub open spec fn tick_of(e: Event) -> int {
    if e == Event::Tick {
        1
    } else {
        0
    }
}

/// How many ticks a stream carries.
pub open spec fn tick_count(s: Seq<Event>) -> int
    decreases s.len(),
{
    if s.len() == 0 {
        0
    } else {
        tick_of(s[0]) + tick_count(s.skip(1))
    }
}

/// The index of the first quit keypress, or the stream's length if none.
pub open spec fn first_quit(s: Seq<Event>) -> int
    decreases s.len(),
{
    if s.len() == 0 {
        0
    } else if s[0] == Event::KeyPress(QUIT_KEY) {
        0
    } else {
        1 + first_quit(s.skip(1))
    }
}

/// True when `post` is `pre` advanced by exactly `n` ticks: every rolling
/// window's generator has moved `n` refresh steps with its parameters and
/// capacity intact, and the time window has slid `n` whole units.
pub open spec fn advanced_n(post: AppState, pre: AppState, n: int) -> bool {
    &&& post.wf()
    &&& post.windows@.len() == pre.windows@.len()
    &&& forall|i: int| 0 <= i < pre.windows@.len() ==> {
        &&& (#[trigger] post.windows@[i]).signal.same_params(&pre.windows@[i].signal)
        &&& post.windows@[i].signal.counter
            == pre.windows@[i].signal.counter + n * pre.windows@[i].refresh
        &&& post.windows@[i].refresh == pre.windows@[i].refresh
        &&& post.windows@[i].points@.len() == pre.windows@[i].points@.len()
    }
    &&& post.time.start == pre.time.start + n * (SCALE as int)
    &&& post.time.end == pre.time.end + n * (SCALE as int)
}

/// Headroom to absorb `n` ticks from the current state.
pub open spec fn can_update_n(pre: AppState, n: int) -> bool {
    &&& forall|i: int| 0 <= i < pre.windows@.len() ==>
        (#[trigger] pre.windows@[i]).signal.counter + n * pre.windows@[i].refresh
            <= crate::signal::COUNTER_LIMIT
    &&& pre.time.end + n * (SCALE as int) <= u64::MAX
}

/// One iteration of the render loop: the quit key ends the loop, any
/// other keypress is ignored, and a tick advances the state by one unit.
pub fn step(state: &mut AppState, event: Event) -> (quit: bool)
    requires
        old(state).wf(),
        event == Event::Tick ==> old(state).can_update(),
    ensures
        final(state).wf(),
        quit == (event == Event::KeyPress(QUIT_KEY)),
        event != Event::Tick ==> *final(state) == *old(state),
        event == Event::Tick ==> advanced_n(*final(state), *old(state), 1),
    {
    match event {
        Event::KeyPress(code) => code == QUIT_KEY,
        Event::Tick => {
            state.update();
            proof {
                assert forall|i: int| 0 <= i < old(state).windows@.len()
                    implies (#[trigger] state.windows@[i]).signal.counter
                        == old(state).windows@[i].signal.counter
                            + 1 * old(state).windows@[i].refresh
                by {
                    let r = old(state).windows@[i].refresh as int;
                    assert(1 * r == r) by (nonlinear_arith);
                }
                assert(state.time.start == old(state).time.start + 1 * (SCALE as int));
                assert(state.time.end == old(state).time.end + 1 * (SCALE as int));
            }
            false
        }
    }
}

/// Consumes events in arrival order until the first quit keypress.
///
/// Returns success exactly when the stream contains the quit key; once it
/// is reached no further event is processed, so pending ticks after it
/// never advance the state. A stream that ends without a quit means a
/// producer died, reported as `ChannelClosed`. The state ends advanced by
/// exactly the number of ticks that precede the first quit.
pub fn run_events(state: &mut AppState, events: &Vec<Event>) -> (r: Result<(), LoopError>)
    requires
        old(state).wf(),
        can_update_n(*old(state), tick_count(events@)),
    ensures
        r is Ok <==> first_quit(events@) < events@.len(),
        advanced_n(*final(state), *old(state), tick_count(events@.take(first_quit(events@)))),
{
    let mut idx: usize = 0;
    proof {
        lemma_advanced_refl(*state);
        assert(events@.take(0) =~= Seq::<Event>::empty());
    }
    while idx < events.len()
        invariant
            idx <= events@.len(),
            state.wf(),
            old(state).wf(),
            can_update_n(*old(state), tick_count(events@)),
            advanced_n(*state, *old(state), tick_count(events@.take(idx as int))),
            forall|j: int| 0 <= j < idx ==> events@[j] != Event::KeyPress(QUIT_KEY),
        decreases events@.len() - idx,
    {
        let e: Event = events[idx];
        proof {
            lemma_take_snoc(events@, idx as int);
            lemma_tick_count_push(events@.take(idx as int), e);
            lemma_tick_count_bounds(events@, idx as int);
            if e == Event::Tick {
                lemma_headroom(*old(state), *state, events@, idx as int);
            }
        }
        let ghost mid = *state;
        let quit: bool = step(state, e);
        if quit {
            proof {
                lemma_first_quit_at(events@, idx as int);
            }
            return Result::Ok(());
        }
        proof {
            if e == Event::Tick {
                lemma_advanced_step(*old(state), mid, tick_count(events@.take(idx as int)));
                assert(advanced_n(*state, mid, 1));
            }
        }
        idx = idx + 1;
    }
    proof {
        lemma_first_quit_none(events@);
        assert(events@.take(events@.len() as int) =~= events@);
    }
    Result::Err(LoopError::ChannelClosed)
}

/// The first-quit index is inside the stream exactly when the stream
/// contains the quit keypress at all, so `run_events` succeeds if and
/// only if the quit key was ever published.
pub proof fn lemma_first_quit_iff(s: Seq<Event>)
    ensures
        first_quit(s) < s.len() <==> exists|i: int|
            0 <= i < s.len() && s[i] == Event::KeyPress(QUIT_KEY),
        0 <= first_quit(s) <= s.len(),
        first_quit(s) < s.len() ==> s[first_quit(s)] == Event::KeyPress(QUIT_KEY),
    decreases s.len(),
{
    if s.len() > 0 && s[0] != Event::KeyPress(QUIT_KEY) {
        lemma_first_quit_iff(s.skip(1));
        let f = first_quit(s.skip(1));
        if f < s.skip(1).len() {
            assert(s[1 + f] == s.skip(1)[f]);
        }
        if exists|i: int| 0 <= i < s.len() && s[i] == Event::KeyPress(QUIT_KEY) {
            let i = choose|i: int| 0 <= i < s.len() && s[i] == Event::KeyPress(QUIT_KEY);
            assert(s.skip(1)[i - 1] == s[i]);
        }
    }
}

/// A state is itself advanced by zero ticks.
proof fn lemma_advanced_refl(s: AppState)
    requires
        s.wf(),
    ensures
        advanced_n(s, s, 0),
{
    assert forall|i: int| 0 <= i < s.windows@.len()
        implies (#[trigger] s.windows@[i]).signal.counter
            == s.windows@[i].signal.counter + 0 * s.windows@[i].refresh
    by {
        let r = s.windows@[i].refresh as int;
        assert(0 * r == 0) by (nonlinear_arith);
    }
    assert(s.time.start == s.time.start + 0 * (SCALE as int));
}

/// Taking one more element appends that element.
proof fn lemma_take_snoc(s: Seq<Event>, i: int)
    requires
        0 <= i < s.len(),
    ensures
        s.take(i + 1) == s.take(i).push(s[i]),
{
    assert(s.take(i + 1) =~= s.take(i).push(s[i]));
}

/// Appending an event adds its tick, if it is one.
proof fn lemma_tick_count_push(s: Seq<Event>, e: Event)
    ensures
        tick_count(s.push(e)) == tick_count(s) + tick_of(e),
    decreases s.len(),
{
    let p = s.push(e);
    if s.len() == 0 {
        assert(p[0] == e);
        assert(p.skip(1) =~= s);
    } else {
        assert(p[0] == s[0]);
        assert(p.skip(1) =~= s.skip(1).push(e));
        lemma_tick_count_push(s.skip(1), e);
    }
}

/// Tick counts are non-negative and monotone in the prefix.
proof fn lemma_tick_count_bounds(s: Seq<Event>, i: int)
    requires
        0 <= i <= s.len(),
    ensures
        0 <= tick_count(s.take(i)) <= tick_count(s),
    decreases s.len(),
{
    lemma_tick_count_nonneg(s.take(i));
    lemma_tick_count_prefix(s, i);
}

proof fn lemma_tick_count_nonneg(s: Seq<Event>)
    ensures
        0 <= tick_count(s),
    decreases s.len(),
{
    if s.len() > 0 {
        lemma_tick_count_nonneg(s.skip(1));
    }
}

proof fn lemma_tick_count_prefix(s: Seq<Event>, i: int)
    requires
        0 <= i <= s.len(),
    ensures
        tick_count(s.take(i)) <= tick_count(s),
    decreases i,
{
    if i == 0 {
        assert(s.take(0) =~= Seq::<Event>::empty());
        lemma_tick_count_nonneg(s);
    } else {
        lemma_take_snoc(s, i - 1);
        lemma_tick_count_push(s.take(i - 1), s[i - 1]);
        lemma_tick_count_prefix(s, i - 1);
        lemma_tick_count_suffix(s, i);
    }
}

/// The ticks of a prefix never exceed the ticks of the whole.
proof fn lemma_tick_count_suffix(s: Seq<Event>, i: int)
    requires
        0 < i <= s.len(),
    ensures
        tick_count(s.take(i)) <= tick_count(s),
    decreases s.len(),
{
    if s.len() > 0 {
        if i == s.len() {
            assert(s.take(i) =~= s);
            lemma_tick_count_nonneg(s);
        } else {
            assert(s.take(i)[0] == s[0]);
            assert(s.take(i).skip(1) =~= s.skip(1).take(i - 1));
            if i - 1 > 0 {
                lemma_tick_count_suffix(s.skip(1), i - 1);
            } else {
                assert(s.skip(1).take(0) =~= Seq::<Event>::empty());
                assert(tick_count(Seq::<Event>::empty()) == 0);
                lemma_tick_count_nonneg(s.skip(1));
            }
        }
    }
}

/// With headroom for all ticks of the stream, a state advanced by the
/// ticks of a proper prefix still has room for one more.
proof fn lemma_headroom(pre: AppState, cur: AppState, s: Seq<Event>, i: int)
    requires
        0 <= i < s.len(),
        s[i] == Event::Tick,
        can_update_n(pre, tick_count(s)),
        advanced_n(cur, pre, tick_count(s.take(i))),
    ensures
        cur.can_update(),
{
    let k = tick_count(s.take(i));
    lemma_take_snoc(s, i);
    lemma_tick_count_push(s.take(i), s[i]);
    lemma_tick_count_prefix(s, i + 1);
    lemma_tick_count_nonneg(s.take(i));
    let n = tick_count(s);
    assert(k + 1 <= n);
    assert forall|j: int| 0 <= j < cur.windows@.len()
        implies (#[trigger] cur.windows@[j]).signal.counter + cur.windows@[j].refresh
            <= crate::signal::COUNTER_LIMIT
    by {
        let r = pre.windows@[j].refresh as int;
        assert(cur.windows@[j].signal.counter == pre.windows@[j].signal.counter + k * r);
        assert(k * r + r <= n * r) by (nonlinear_arith)
            requires k + 1 <= n, 0 <= r;
    }
    let r1 = SCALE as int;
    assert(k * r1 + r1 <= n * r1) by (nonlinear_arith)
        requires k + 1 <= n, 0 <= r1;
}

/// Chaining one more tick onto an `n`-tick advance gives `n + 1`.
proof fn lemma_advanced_step(pre: AppState, mid: AppState, n: int)
    requires
        advanced_n(mid, pre, n),
    ensures
        forall|post: AppState| advanced_n(post, mid, 1) ==> advanced_n(post, pre, n + 1),
{
    assert forall|post: AppState| advanced_n(post, mid, 1) implies advanced_n(post, pre, n + 1) by {
        assert forall|i: int| 0 <= i < pre.windows@.len()
            implies (#[trigger] post.windows@[i]).signal.counter
                == pre.windows@[i].signal.counter + (n + 1) * pre.windows@[i].refresh
                && post.windows@[i].signal.same_params(&pre.windows@[i].signal)
                && post.windows@[i].refresh == pre.windows@[i].refresh
                && post.windows@[i].points@.len() == pre.windows@[i].points@.len()
        by {
            let r = pre.windows@[i].refresh as int;
            assert(mid.windows@[i].refresh == pre.windows@[i].refresh);
            assert(post.windows@[i].signal.counter
                == mid.windows@[i].signal.counter + 1 * r);
            assert(n * r + 1 * r == (n + 1) * r) by (nonlinear_arith);
        }
        let r1 = SCALE as int;
        assert(n * r1 + 1 * r1 == (n + 1) * r1) by (nonlinear_arith);
    }
}

/// If everything before `i` is not the quit key and `s[i]` is, then `i`
/// is the first quit.
proof fn lemma_first_quit_at(s: Seq<Event>, i: int)
    requires
        0 <= i < s.len(),
        s[i] == Event::KeyPress(QUIT_KEY),
        forall|j: int| 0 <= j < i ==> s[j] != Event::KeyPress(QUIT_KEY),
    ensures
        first_quit(s) == i,
    decreases i,
{
    if i > 0 {
        assert(s.skip(1)[i - 1] == s[i]);
        assert forall|j: int| 0 <= j < i - 1 implies s.skip(1)[j] != Event::KeyPress(QUIT_KEY) by {
            assert(s.skip(1)[j] == s[j + 1]);
        }
        lemma_first_quit_at(s.skip(1), i - 1);
    }
}

/// A stream with no quit key has its first quit at the end.
proof fn lemma_first_quit_none(s: Seq<Event>)
    requires
        forall|j: int| 0 <= j < s.len() ==> s[j] != Event::KeyPress(QUIT_KEY),
    ensures
        first_quit(s) == s.len(),
    decreases s.len(),
{
    if s.len() > 0 {
        assert forall|j: int| 0 <= j < s.skip(1).len()
            implies s.skip(1)[j] != Event::KeyPress(QUIT_KEY)
        by {
            assert(s.skip(1)[j] == s[j + 1]);
        }
        lemma_first_quit_none(s.skip(1));
    }
}

} // verus!
