//! The starvation clock: how long the content channel has been below its
//! floor, and whether that is too long.
//!
//! The average that is held against the floor is computed by the caller. Times
//! are nanoseconds since the stream began.

use vstd::prelude::*;

verus! {

/// When the present stretch of starvation began, if there is one.
#[derive(Debug, Clone, Copy, PartialEq, Eq, Structural)]
pub struct StarvationClock {
    pub starved_since: Option<u128>,
}

/// One look at the content channel.
pub struct Tick {
    /// Warmed up, and below the floor.
    pub starved: bool,
    pub now_ns: u128,
}

/// How long ago `since` was, or 0 if it lies ahead.
pub open spec fn elapsed(since: u128, now_ns: u128) -> int {
    if now_ns >= since {
        now_ns - since
    } else {
        0
    }
}

/// The start of the present stretch of starvation after one more tick.
pub open spec fn since_after(since: Option<u128>, t: Tick) -> Option<u128> {
    if t.starved {
        match since {
            Some(s) => Some(s),
            None => Some(t.now_ns),
        }
    } else {
        None
    }
}

/// Whether a tick finds that the starvation has been sustained.
pub open spec fn trips(since: Option<u128>, t: Tick, sustained_ns: u128) -> bool {
    match since_after(since, t) {
        Some(s) => elapsed(s, t.now_ns) >= sustained_ns,
        None => false,
    }
}

impl StarvationClock {
    /// A clock that is not running.
    pub fn new() -> (r: Self)
        ensures
            r.starved_since is None,
    {
        StarvationClock { starved_since: None }
    }

    /// Look at the channel once: a starved tick starts the clock or lets it
    /// run, any other stops it. Returns whether the starvation has now been
    /// sustained. Before warm-up nothing counts as starvation.
    pub fn evaluate(&mut self, below_floor: bool, warmed: bool, now_ns: u128, sustained_ns: u128)
        -> (r: bool)
        ensures
            ({
                let t = Tick { starved: warmed && below_floor, now_ns };
                &&& final(self).starved_since == since_after(old(self).starved_since, t)
                &&& r == trips(old(self).starved_since, t, sustained_ns)
            }),
    {
        if warmed && below_floor {
            let since: u128 = match self.starved_since {
                Some(s) => s,
                None => now_ns,
            };
            self.starved_since = Some(since);
            let gone: u128 = now_ns.saturating_sub(since);
            gone >= sustained_ns
        } else {
            self.starved_since = None;
            false
        }
    }
}

// ---- laws -----------------------------------------------------------------

/// The start of the present stretch after a run of ticks on a fresh clock.
pub open spec fn since_after_all(ticks: Seq<Tick>) -> Option<u128>
    decreases ticks.len(),
{
    if ticks.len() == 0 {
        None
    } else {
        since_after(since_after_all(ticks.drop_last()), ticks.last())
    }
}

/// `j` is where the stretch of starvation that reaches to the end began.
pub open spec fn stretch_began(ticks: Seq<Tick>, j: int) -> bool {
    &&& 0 <= j < ticks.len()
    &&& forall|i: int| j <= i < ticks.len() ==> (#[trigger] ticks[i]).starved
    &&& j > 0 ==> !ticks[j - 1].starved
}

/// The clock runs exactly while starvation is unbroken, and counts from its
/// first tick.
pub proof fn lemma_clock_counts_from_first_starved_tick(ticks: Seq<Tick>)
    ensures
        match since_after_all(ticks) {
            Some(s) => exists|j: int| #[trigger] stretch_began(ticks, j) && s == ticks[j].now_ns,
            None => ticks.len() == 0 || !ticks.last().starved,
        },
    decreases ticks.len(),
{
    if ticks.len() > 0 && ticks.last().starved {
        let before = ticks.drop_last();
        let n = ticks.len() - 1;
        lemma_clock_counts_from_first_starved_tick(before);
        match since_after_all(before) {
            Some(s) => {
                let j = choose|j: int| #[trigger] stretch_began(before, j) && s == before[j].now_ns;
                assert forall|i: int| j <= i < ticks.len() implies (#[trigger] ticks[i]).starved by {
                    if i < n {
                        assert(before[i].starved);
                    }
                }
                if j > 0 {
                    assert(before[j - 1] == ticks[j - 1]);
                }
                assert(stretch_began(ticks, j));
            },
            None => {
                if n > 0 {
                    assert(ticks[n - 1] == before.last());
                }
                assert(stretch_began(ticks, n as int));
            },
        }
    }
}

/// Starvation trips only after an unbroken stretch of at least the sustained
/// window; warm-up and recovery never trip, and recovery starts the count
/// afresh.
pub proof fn lemma_trip_needs_unbroken_window(ticks: Seq<Tick>, t: Tick, sustained_ns: u128)
    ensures
        trips(since_after_all(ticks), t, sustained_ns) <==> exists|j: int| #[trigger]
            stretch_began(ticks.push(t), j) && elapsed(ticks.push(t)[j].now_ns, t.now_ns)
                >= sustained_ns,
        !t.starved ==> since_after_all(ticks.push(t)) is None,
{
    let all = ticks.push(t);
    assert(all.drop_last() =~= ticks);
    lemma_clock_counts_from_first_starved_tick(all);
    if t.starved {
        let j = choose|j: int| #[trigger]
            stretch_began(all, j) && since_after_all(all) == Some(all[j].now_ns);
        assert(stretch_began(all, j));
        assert forall|k: int| #[trigger] stretch_began(all, k) implies k == j by {
            if k < j {
                assert(all[j - 1].starved);
            }
            if j < k {
                assert(all[k - 1].starved);
            }
        }
    } else {
        assert forall|k: int| !(#[trigger] stretch_began(all, k)) by {
            if stretch_began(all, k) {
                assert(all[all.len() - 1].starved);
            }
        }
    }
}

} // verus!
