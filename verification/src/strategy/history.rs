//! The per-instrument price window: a time-ordered sequence of
//! (timestamp, price) samples, trimmed from the front once a sample falls
//! out of the retention window.

use vstd::prelude::*;

verus! {

/// How long a sample stays relevant, in milliseconds.
pub const RETENTION_MS: u64 = 5000;

/// One recorded sample: local receipt time in milliseconds and the last
/// trade price, fixed-point.
#[derive(Clone, Copy, PartialEq, Eq, Structural)]
pub struct PricePoint {
    pub ts: u64,
    pub price: u64,
}

/// Well-formed history: time-ordered, strictly positive prices.
pub open spec fn history_wf(s: Seq<PricePoint>) -> bool {
    (forall|i: int, j: int| 0 <= i < j < s.len() ==> (#[trigger] s[i]).ts <= (
    #[trigger] s[j]).ts) && (forall|i: int| 0 <= i < s.len() ==> (#[trigger] s[i]).price
        >= 1)
}

/// How many leading samples have aged out of the window at `now`.
pub open spec fn evict_count(s: Seq<PricePoint>, now: int) -> int
    decreases s.len(),
{
    if s.len() > 0 && s[0].ts + RETENTION_MS < now {
        1 + evict_count(s.drop_first(), now)
    } else {
        0
    }
}

/// The samples that survive trimming at `now`.
pub open spec fn pruned(s: Seq<PricePoint>, now: int) -> Seq<PricePoint> {
    s.skip(evict_count(s, now))
}

/// Trimming keeps exactly the in-window samples: the dropped prefix is
/// out of the window, and (for a time-ordered history) everything kept is
/// within it.
pub proof fn lemma_evict_window(s: Seq<PricePoint>, now: int)
    requires
        history_wf(s),
    ensures
        0 <= evict_count(s, now) <= s.len(),
        forall|i: int| 0 <= i < evict_count(s, now) ==> (#[trigger] s[i]).ts + RETENTION_MS
            < now,
        forall|i: int|
            evict_count(s, now) <= i < s.len() ==> (#[trigger] s[i]).ts + RETENTION_MS
                >= now,
    decreases s.len(),
{
    if s.len() > 0 && s[0].ts + RETENTION_MS < now {
        assert(history_wf(s.drop_first())) by {
            assert(forall|i: int|
                0 <= i < s.len() - 1 ==> #[trigger] s.drop_first()[i] == s[i + 1]);
        }
        lemma_evict_window(s.drop_first(), now);
        assert forall|i: int| 0 <= i < evict_count(s, now) implies (#[trigger] s[i]).ts
            + RETENTION_MS < now by {
            if i >= 1 {
                assert(s.drop_first()[i - 1] == s[i]);
                assert(0 <= i - 1 < evict_count(s.drop_first(), now));
            }
        }
        assert forall|i: int| evict_count(s, now) <= i < s.len() implies (
        #[trigger] s[i]).ts + RETENTION_MS >= now by {
            assert(s.drop_first()[i - 1] == s[i]);
        }
    } else {
        if s.len() > 0 {
            // The first sample is in the window; time order carries every
            // later one with it.
            assert(forall|i: int|
                0 <= i < s.len() ==> s[0].ts <= (#[trigger] s[i]).ts);
        }
    }
}

/// What one recording step does to the stored samples: nothing for a
/// sample carried backwards in time, otherwise trim and append.
pub open spec fn hist_update(s: Seq<PricePoint>, now: u64, price: u64) -> Seq<PricePoint> {
    if s.len() > 0 && s.last().ts > now {
        s
    } else {
        pruned(s, now as int).push(PricePoint { ts: now, price })
    }
}

/// After a recording step the newest sample is the one just taken, every
/// older kept sample is within the retention window, and the stored
/// length never exceeds the number of in-window samples plus the new one.
pub proof fn lemma_update_in_window(s: Seq<PricePoint>, now: u64, price: u64)
    requires
        history_wf(s),
        !(s.len() > 0 && s.last().ts > now),
    ensures
        ({
            let h = hist_update(s, now, price);
            &&& h.len() >= 1
            &&& h.last() == PricePoint { ts: now, price }
            &&& forall|i: int|
                0 <= i < h.len() - 1 ==> (#[trigger] h[i]).ts + RETENTION_MS >= now
            &&& h.len() == 1 + s.len() - evict_count(s, now as int)
            &&& forall|i: int|
                0 <= i < evict_count(s, now as int) ==> (#[trigger] s[i]).ts
                    + RETENTION_MS < now
        }),
{
    lemma_evict_window(s, now as int);
    let h = hist_update(s, now, price);
    assert(forall|i: int|
        0 <= i < h.len() - 1 ==> #[trigger] h[i] == s[i + evict_count(s, now as int)]);
}

/// The bounded per-instrument window of recent prices.
pub struct PriceHistory {
    pub points: Vec<PricePoint>,
}

impl PriceHistory {
    pub fn new() -> (r: PriceHistory)
        ensures
            r.points@ =~= Seq::<PricePoint>::empty(),
            history_wf(r.points@),
    {
        PriceHistory { points: Vec::new() }
    }

    /// Records a sample at `now`: trims aged samples from the front and
    /// appends the new one.  A sample carried backwards in time (an
    /// earlier `now` than the newest stored sample) leaves the history as
    /// it stands, so the time order is an invariant.
    pub fn update(&mut self, now: u64, price: u64)
        requires
            price >= 1,
            history_wf(old(self).points@),
        ensures
            history_wf(final(self).points@),
            final(self).points@ == hist_update(old(self).points@, now, price),
    {
        let n = self.points.len();
        if n > 0 && self.points[n - 1].ts > now {
            return ;
        }
        let ghost orig = self.points@;
        proof {
            lemma_evict_window(orig, now as int);
            assert(orig.skip(0) =~= orig);
        }
        while self.points.len() > 0 && now > RETENTION_MS && self.points[0].ts < now
            - RETENTION_MS
            invariant
                history_wf(self.points@),
                pruned(orig, now as int) == pruned(self.points@, now as int),
                exists|k: int|
                    0 <= k <= orig.len() && self.points@ == #[trigger] orig.skip(k),
            decreases self.points@.len(),
        {
            let ghost before = self.points@;
            self.points.remove(0);
            proof {
                assert(self.points@ =~= before.drop_first());
                assert(history_wf(self.points@)) by {
                    assert(forall|i: int|
                        0 <= i < before.len() - 1 ==> #[trigger] before.drop_first()[i]
                            == before[i + 1]);
                }
                assert(evict_count(before, now as int) == 1 + evict_count(
                    before.drop_first(),
                    now as int,
                ));
                lemma_evict_window(before.drop_first(), now as int);
                assert(pruned(before, now as int) =~= pruned(
                    before.drop_first(),
                    now as int,
                ));
                let k0 = choose|k: int|
                    0 <= k <= orig.len() && before == #[trigger] orig.skip(k);
                assert(self.points@ =~= orig.skip(k0 + 1));
            }
        }
        proof {
            assert(evict_count(self.points@, now as int) == 0);
            assert(pruned(self.points@, now as int) =~= self.points@);
            assert(self.points@ == pruned(orig, now as int));
            // Every kept sample is no newer than `now`: the newest stored
            // sample was not, and the order carries the rest.
            let k0 = choose|k: int|
                0 <= k <= orig.len() && self.points@ == #[trigger] orig.skip(k);
            assert(forall|i: int|
                0 <= i < self.points@.len() ==> (#[trigger] self.points@[i]).ts <= now)
                by {
                assert(forall|i: int|
                    0 <= i < self.points@.len() ==> self.points@[i] == #[trigger] orig[
                    i + k0]);
                assert(forall|i: int|
                    0 <= i < orig.len() ==> (#[trigger] orig[i]).ts <= orig.last().ts);
            }
        }
        let ghost trimmed = self.points@;
        self.points.push(PricePoint { ts: now, price });
        proof {
            assert(forall|i: int|
                0 <= i < trimmed.len() ==> #[trigger] self.points@[i] == trimmed[i]);
            assert(history_wf(self.points@));
        }
    }
}

} // verus!
