//! Application state: rolling windows of generated signal data and the
//! visible time-axis window, advanced in lockstep on each tick event.

use vstd::prelude::*;
use crate::signal::{SignalGenerator, COUNTER_LIMIT, SCALE};

verus! {

/// A fixed-capacity view over the most recent samples of one signal.
///
/// The window always holds exactly the last `points.len()` coordinates the
/// generator produced, so its contents are pinned by the generator's state.
pub struct RollingWindow {
    /// The generator that owns this window's samples.
    pub signal: SignalGenerator,
    /// The visible coordinates, oldest first.
    pub points: Vec<(u64, i64)>,
    /// How many points one tick retires from the front and appends anew.
    pub refresh: usize,
}

impl RollingWindow {
    /// Well-formedness: the window is exactly the last `points.len()`
    /// samples drawn from `signal`, and one refresh never exceeds it.
    pub open spec fn wf(&self) -> bool {
        &&& self.signal.wf()
        &&& 1 <= self.refresh <= self.points@.len()
        &&& self.points@.len() <= self.signal.counter
        &&& forall|i: int| 0 <= i < self.points@.len() ==>
            (#[trigger] self.points@[i].0 as int, self.points@[i].1 as int)
                == self.signal.point_at(self.signal.counter - self.points@.len() + i)
    }

    /// True when `post` is `pre` advanced by one refresh step: the same
    /// waveform, the counter moved by `refresh`, and the same capacity.
    pub open spec fn advanced_from(post: RollingWindow, pre: RollingWindow) -> bool {
        &&& post.wf()
        &&& post.signal.same_params(&pre.signal)
        &&& post.signal.counter == pre.signal.counter + pre.refresh
        &&& post.refresh == pre.refresh
        &&& post.points@.len() == pre.points@.len()
    }

    /// Seeds a window with `size` fresh samples from `signal`.
    pub fn new(signal: SignalGenerator, size: usize, refresh: usize) -> (w: RollingWindow)
        requires
            signal.wf(),
            signal.counter + size <= COUNTER_LIMIT,
            1 <= refresh <= size,
        ensures
            w.wf(),
            w.signal.same_params(&signal),
            w.signal.counter == signal.counter + size,
            w.refresh == refresh,
            w.points@.len() == size,
    {
        let mut signal = signal;
        let points: Vec<(u64, i64)> = signal.take(size);
        RollingWindow { signal, points, refresh }
    }

    /// One tick's worth of motion: retires the `refresh` oldest points and
    /// appends the next `refresh` samples, keeping the length unchanged.
    /// Surviving points keep their values, shifted toward the front.
    pub fn advance(&mut self)
        requires
            old(self).wf(),
            old(self).signal.counter + old(self).refresh <= COUNTER_LIMIT,
        ensures
            RollingWindow::advanced_from(*final(self), *old(self)),
            forall|j: int| 0 <= j < old(self).points@.len() - old(self).refresh ==>
                #[trigger] final(self).points@[j] == old(self).points@[j + old(self).refresh],
    {
        let k: usize = self.refresh;
        let mut i: usize = 0;
        while i < k
            invariant
                i <= k,
                k == old(self).refresh,
                self.signal == old(self).signal,
                self.refresh == old(self).refresh,
                self.points@ == old(self).points@.skip(i as int),
                old(self).wf(),
            decreases k - i,
        {
            self.points.remove(0);
            proof {
                assert(old(self).points@.skip(i as int).remove(0)
                    =~= old(self).points@.skip(i + 1));
            }
            i = i + 1;
        }
        let mut fresh: Vec<(u64, i64)> = self.signal.take(k);
        self.points.append(&mut fresh);
    }
}

/// The visible x-axis range for the synthetic-signal charts, milli-units.
pub struct TimeWindow {
    pub start: u64,
    pub end: u64,
}

impl TimeWindow {
    pub open spec fn wf(&self) -> bool {
        self.start <= self.end
    }

    /// Slides the window by exactly one unit (1.0, i.e. `SCALE` milli):
    /// both bounds grow by `SCALE` and the extent is unchanged.
    pub fn advance(&mut self)
        requires
            old(self).wf(),
            old(self).end + SCALE <= u64::MAX,
        ensures
            final(self).wf(),
            final(self).start == old(self).start + SCALE,
            final(self).end == old(self).end + SCALE,
            final(self).end - final(self).start == old(self).end - old(self).start,
    {
        self.start = self.start + SCALE;
        self.end = self.end + SCALE;
    }
}

/// All mutable chart state: one rolling window per synthetic channel and
/// the shared time axis. Owned by the single render loop; nothing else
/// mutates it.
pub struct AppState {
    pub windows: Vec<RollingWindow>,
    pub time: TimeWindow,
}

impl AppState {
    pub open spec fn wf(&self) -> bool {
        &&& forall|i: int| 0 <= i < self.windows@.len() ==> (#[trigger] self.windows@[i]).wf()
        &&& self.time.wf()
    }

    /// Headroom for one more update: every generator can advance by its
    /// refresh count and the time axis by one unit.
    pub open spec fn can_update(&self) -> bool {
        &&& forall|i: int| 0 <= i < self.windows@.len() ==>
            (#[trigger] self.windows@[i]).signal.counter + self.windows@[i].refresh
                <= COUNTER_LIMIT
        &&& self.time.end + SCALE <= u64::MAX
    }

    /// Seeds one rolling window of `size` samples per generator (each with
    /// its own per-tick refresh count) and sets the initial time window.
    pub fn new(
        generators: Vec<(SignalGenerator, usize)>,
        size: usize,
        window_start: u64,
        window_extent: u64,
    ) -> (s: AppState)
        requires
            forall|i: int| 0 <= i < generators@.len() ==> {
                &&& (#[trigger] generators@[i]).0.wf()
                &&& generators@[i].0.counter + size <= COUNTER_LIMIT
                &&& 1 <= generators@[i].1 <= size
            },
            window_start + window_extent <= u64::MAX,
        ensures
            s.wf(),
            s.windows@.len() == generators@.len(),
            forall|i: int| 0 <= i < generators@.len() ==> {
                &&& (#[trigger] s.windows@[i]).signal.same_params(&generators@[i].0)
                &&& s.windows@[i].signal.counter == generators@[i].0.counter + size
                &&& s.windows@[i].refresh == generators@[i].1
                &&& s.windows@[i].points@.len() == size
            },
            s.time.start == window_start,
            s.time.end == window_start + window_extent,
    {
        let mut generators = generators;
        let ghost gens0 = generators@;
        let mut windows: Vec<RollingWindow> = Vec::new();
        while generators.len() > 0
            invariant
                windows@.len() + generators@.len() == gens0.len(),
                generators@ == gens0.skip(windows@.len() as int),
                forall|i: int| 0 <= i < gens0.len() ==> {
                    &&& (#[trigger] gens0[i]).0.wf()
                    &&& gens0[i].0.counter + size <= COUNTER_LIMIT
                    &&& 1 <= gens0[i].1 <= size
                },
                forall|i: int| 0 <= i < windows@.len() ==> {
                    &&& (#[trigger] windows@[i]).wf()
                    &&& windows@[i].signal.same_params(&gens0[i].0)
                    &&& windows@[i].signal.counter == gens0[i].0.counter + size
                    &&& windows@[i].refresh == gens0[i].1
                    &&& windows@[i].points@.len() == size
                },
            decreases generators@.len(),
        {
            proof {
                assert(generators@[0] == gens0[windows@.len() as int]);
                assert(gens0.skip(windows@.len() as int).remove(0)
                    =~= gens0.skip(windows@.len() + 1 as int));
            }
            let gk: (SignalGenerator, usize) = generators.remove(0);
            let w: RollingWindow = RollingWindow::new(gk.0, size, gk.1);
            windows.push(w);
        }
        AppState {
            windows,
            time: TimeWindow { start: window_start, end: window_start + window_extent },
        }
    }


    /// The largest amplitude among the tracked signals: every sample's
    /// y value lies within this band, so it bounds the chart's y axis.
    /// With no windows the band is zero; otherwise some window's
    /// amplitude attains it.
    pub fn max_amplitude(&self) -> (m: u64)
        ensures
            forall|i: int| 0 <= i < self.windows@.len()
                ==> (#[trigger] self.windows@[i]).signal.amplitude <= m,
            self.windows@.len() == 0 ==> m == 0,
            self.windows@.len() > 0 ==> exists|i: int|
                0 <= i < self.windows@.len()
                    && (#[trigger] self.windows@[i]).signal.amplitude == m,
    {
        let mut m: u64 = 0;
        let mut i: usize = 0;
        while i < self.windows.len()
            invariant
                i <= self.windows@.len(),
                forall|j: int| 0 <= j < i
                    ==> (#[trigger] self.windows@[j]).signal.amplitude <= m,
                i == 0 ==> m == 0,
                i > 0 ==> exists|j: int|
                    0 <= j < i && (#[trigger] self.windows@[j]).signal.amplitude == m,
            decreases self.windows@.len() - i,
        {
            if self.windows[i].signal.amplitude > m || i == 0 {
                m = self.windows[i].signal.amplitude;
            }
            i = i + 1;
        }
        m
    }

    /// One tick: every rolling window advances by its refresh count, then
    /// the time window slides by one unit. Every window keeps its length.
    pub fn update(&mut self)
        requires
            old(self).wf(),
            old(self).can_update(),
        ensures
            final(self).wf(),
            final(self).windows@.len() == old(self).windows@.len(),
            forall|i: int| 0 <= i < old(self).windows@.len() ==>
                RollingWindow::advanced_from(
                    #[trigger] final(self).windows@[i],
                    old(self).windows@[i],
                ),
            final(self).time.start == old(self).time.start + SCALE,
            final(self).time.end == old(self).time.end + SCALE,
            final(self).time.end - final(self).time.start
                == old(self).time.end - old(self).time.start,
    {
        let n: usize = self.windows.len();
        let mut done: Vec<RollingWindow> = Vec::new();
        while self.windows.len() > 0
            invariant
                done@.len() + self.windows@.len() == n,
                n == old(self).windows@.len(),
                self.time == old(self).time,
                old(self).wf(),
                old(self).can_update(),
                forall|j: int| 0 <= j < self.windows@.len() ==>
                    #[trigger] self.windows@[j] == old(self).windows@[done@.len() + j],
                forall|j: int| 0 <= j < done@.len() ==>
                    RollingWindow::advanced_from(
                        #[trigger] done@[j],
                        old(self).windows@[j],
                    ),
            decreases self.windows@.len(),
        {
            let mut w: RollingWindow = self.windows.remove(0);
            proof {
                assert(w == old(self).windows@[done@.len() as int]);
            }
            w.advance();
            done.push(w);
        }
        self.windows = done;
        self.time.advance();
    }
}

/// Within any well-formed window the x coordinates strictly increase:
/// consecutive samples of one signal are one positive interval apart.
pub proof fn lemma_window_x_strictly_increasing(w: RollingWindow)
    requires
        w.wf(),
    ensures
        forall|i: int, j: int| 0 <= i < j < w.points@.len()
            ==> (#[trigger] w.points@[i]).0 < (#[trigger] w.points@[j]).0,
{
    let len = w.points@.len() as int;
    let c = w.signal.counter as int;
    let itv = w.signal.interval as int;
    assert forall|i: int, j: int| 0 <= i < j < len
        implies (#[trigger] w.points@[i]).0 < (#[trigger] w.points@[j]).0
    by {
        assert(w.points@[i].0 as int == (c - len + i) * itv);
        assert(w.points@[j].0 as int == (c - len + j) * itv);
        assert((c - len + i) * itv < (c - len + j) * itv) by (nonlinear_arith)
            requires i < j, 1 <= itv;
    }
}

} // verus!
