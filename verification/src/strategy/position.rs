//! Position lifecycle and the risk gate.
//!
//! One position per instrument at most, each with three independent exit
//! conditions checked in a fixed order: take-profit, then stop-loss, then
//! timeout; the first that holds wins, and at most one exit fires per
//! tick.
//!
//! Sizing policy, chosen once for this implementation: a fixed bet of
//! `BET_SIZE_UNITS` quote units per trade (the alternative, all-in
//! sizing, is not used).

use vstd::prelude::*;

verus! {

/// Longest a position may stay open, in milliseconds.
pub const MAX_HOLD_MS: u64 = 600_000;

/// Most positions open at once.
pub const MAX_POSITIONS: usize = 3;

/// Fixed bet per trade, in whole quote units.
pub const BET_SIZE_UNITS: u64 = 25;

/// The same bet in fixed-point balance units.
pub const BET_SIZE_SCALED: u64 = 25 * 100_000_000;

/// Net take-profit threshold, in thousandths of the entry price.
pub const TP_NET_PERMILLE: u64 = 10;

/// Net stop-loss threshold (a loss), in thousandths of the entry price.
pub const SL_NET_PERMILLE: u64 = 30;

/// Assumed round-trip fee and slippage, in thousandths.
pub const FEE_PERMILLE: u64 = 4;

/// Net profit above +1.0%: `(bid - entry)/entry - 0.4% > 1.0%`, which for
/// a positive entry price is exactly `1000(bid - entry) > 14 entry`.
pub open spec fn take_profit(entry: u64, bid: u64) -> bool {
    1000 * (bid as int - entry as int) > (TP_NET_PERMILLE + FEE_PERMILLE) * (entry as int)
}

/// Net profit below -3.0%: `(bid - entry)/entry - 0.4% < -3.0%`, which
/// for a positive entry price is exactly `1000(bid - entry) < -26 entry`.
pub open spec fn stop_loss(entry: u64, bid: u64) -> bool {
    1000 * (bid as int - entry as int) < (FEE_PERMILLE as int - SL_NET_PERMILLE as int) * (
    entry as int)
}

/// The position has been held longer than the limit.
pub open spec fn hold_expired(entry_ts: u64, now: u64) -> bool {
    now as int - entry_ts as int > MAX_HOLD_MS as int
}

/// Why a position is closed.
#[derive(Clone, Copy, PartialEq, Eq, Structural, Debug)]
pub enum ExitReason {
    TakeProfit,
    StopLoss,
    Timeout,
}

/// The exit decision for one tick: take-profit first, then stop-loss,
/// then timeout; the first that holds wins.
pub open spec fn exit_reason_spec(entry: u64, entry_ts: u64, bid: u64, now: u64) -> Option<
    ExitReason,
> {
    if take_profit(entry, bid) {
        Some(ExitReason::TakeProfit)
    } else if stop_loss(entry, bid) {
        Some(ExitReason::StopLoss)
    } else if hold_expired(entry_ts, now) {
        Some(ExitReason::Timeout)
    } else {
        None
    }
}

/// Evaluates the exit conditions: exactly `exit_reason_spec`.
pub fn check_exit(entry: u64, entry_ts: u64, bid: u64, now: u64) -> (r: Option<ExitReason>)
    requires
        entry >= 1,
    ensures
        r == exit_reason_spec(entry, entry_ts, bid, now),
{
    if bid > entry && 1000u128 * ((bid - entry) as u128) > 14u128 * (entry as u128) {
        Some(ExitReason::TakeProfit)
    } else if bid < entry && 1000u128 * ((entry - bid) as u128) > 26u128 * (
    entry as u128) {
        Some(ExitReason::StopLoss)
    } else if now > entry_ts && now - entry_ts > MAX_HOLD_MS {
        Some(ExitReason::Timeout)
    } else {
        None
    }
}

/// One open position: entered at the ask price seen when the buy was
/// decided, never at the last trade price.
pub struct Position {
    pub inst_id: String,
    pub entry_price: u64,
    pub entry_ts: u64,
    pub size: String,
}

/// The mathematical shape of a position.
pub struct PosV {
    pub inst_id: Seq<char>,
    pub entry_price: u64,
    pub entry_ts: u64,
    pub size: Seq<char>,
}

impl View for Position {
    type V = PosV;

    open spec fn view(&self) -> PosV {
        PosV {
            inst_id: self.inst_id@,
            entry_price: self.entry_price,
            entry_ts: self.entry_ts,
            size: self.size@,
        }
    }
}

pub open spec fn positions_view(s: Seq<Position>) -> Seq<PosV>
    decreases s,
{
    if s.len() == 0 {
        Seq::empty()
    } else {
        positions_view(s.subrange(0, s.len() - 1)).push(s[s.len() - 1]@)
    }
}

pub proof fn lemma_positions_view(s: Seq<Position>)
    ensures
        positions_view(s).len() == s.len(),
        forall|i: int| 0 <= i < s.len() ==> positions_view(s)[i] == (#[trigger] s[i])@,
    decreases s.len(),
{
    if s.len() > 0 {
        lemma_positions_view(s.subrange(0, s.len() - 1));
        assert(forall|i: int|
            0 <= i < s.len() - 1 ==> s.subrange(0, s.len() - 1)[i] == #[trigger] s[i]);
    }
}

/// First index holding `id`, or the length if none does.
pub open spec fn pos_index_v(s: Seq<PosV>, id: Seq<char>) -> int
    decreases s.len(),
{
    if s.len() == 0 {
        0
    } else if s[0].inst_id == id {
        0
    } else {
        1 + pos_index_v(s.drop_first(), id)
    }
}

pub open spec fn has_position_v(s: Seq<PosV>, id: Seq<char>) -> bool {
    pos_index_v(s, id) < s.len()
}

pub proof fn lemma_pos_index(s: Seq<PosV>, id: Seq<char>)
    ensures
        0 <= pos_index_v(s, id) <= s.len(),
        pos_index_v(s, id) < s.len() ==> s[pos_index_v(s, id)].inst_id == id,
        forall|i: int| 0 <= i < pos_index_v(s, id) ==> (#[trigger] s[i]).inst_id != id,
    decreases s.len(),
{
    if s.len() > 0 && s[0].inst_id != id {
        lemma_pos_index(s.drop_first(), id);
        assert forall|i: int| 0 <= i < pos_index_v(s, id) implies (
        #[trigger] s[i]).inst_id != id by {
            if i >= 1 {
                assert(s.drop_first()[i - 1] == s[i]);
                assert(0 <= i - 1 < pos_index_v(s.drop_first(), id));
            }
        }
    }
}

/// Well-formed book of positions: one per instrument, positive entry
/// prices.
pub open spec fn positions_wf(s: Seq<PosV>) -> bool {
    (forall|i: int, j: int|
        0 <= i < j < s.len() ==> (#[trigger] s[i]).inst_id != (#[trigger] s[j]).inst_id)
        && (forall|i: int| 0 <= i < s.len() ==> (#[trigger] s[i]).entry_price >= 1)
}

/// The open positions, one per instrument at most.
pub struct PositionManager {
    pub positions: Vec<Position>,
}

impl PositionManager {
    pub fn new() -> (r: PositionManager)
        ensures
            r.positions@.len() == 0,
            positions_view(r.positions@) =~= Seq::<PosV>::empty(),
            positions_wf(positions_view(r.positions@)),
    {
        let r = PositionManager { positions: Vec::new() };
        proof {
            lemma_positions_view(r.positions@);
        }
        r
    }

    /// Index of the position held for `inst`, if one is.
    pub fn find(&self, inst: &String) -> (r: Option<usize>)
        ensures
            ({
                let pv = positions_view(self.positions@);
                match r {
                    Some(i) => i == pos_index_v(pv, inst@) && i < pv.len(),
                    None => pos_index_v(pv, inst@) == pv.len(),
                }
            }),
    {
        proof {
            lemma_positions_view(self.positions@);
            lemma_pos_index(positions_view(self.positions@), inst@);
            assert(positions_view(self.positions@).skip(0) =~= positions_view(
                self.positions@,
            ));
        }
        let ghost pv = positions_view(self.positions@);
        let n = self.positions.len();
        let mut i: usize = 0;
        while i < n
            invariant
                0 <= i <= n,
                n == self.positions@.len(),
                pv == positions_view(self.positions@),
                pv.len() == n,
                forall|k: int| 0 <= k < n ==> pv[k] == (#[trigger] self.positions@[k])@,
                forall|k: int| 0 <= k < i ==> (#[trigger] pv[k]).inst_id != inst@,
            decreases n - i,
        {
            if self.positions[i].inst_id.eq(inst) {
                proof {
                    lemma_pos_index(pv, inst@);
                }
                return Some(i);
            }
            i = i + 1;
        }
        proof {
            lemma_pos_index(pv, inst@);
        }
        None
    }

    /// Opens a position for an instrument that has none.
    pub fn open(&mut self, p: Position)
        requires
            positions_wf(positions_view(old(self).positions@)),
            !has_position_v(positions_view(old(self).positions@), p.inst_id@),
            p.entry_price >= 1,
        ensures
            positions_view(final(self).positions@) == positions_view(
                old(self).positions@,
            ).push(p@),
            positions_wf(positions_view(final(self).positions@)),
            final(self).positions@.len() == old(self).positions@.len() + 1,
    {
        proof {
            lemma_positions_view(old(self).positions@);
            lemma_pos_index(positions_view(old(self).positions@), p.inst_id@);
        }
        let ghost pv = positions_view(self.positions@);
        let ghost pview = p@;
        self.positions.push(p);
        proof {
            lemma_positions_view(self.positions@);
            assert(forall|i: int|
                0 <= i < pv.len() ==> #[trigger] self.positions@[i] == old(
                    self,
                ).positions@[i]);
            assert forall|k: int|
                0 <= k < self.positions@.len() implies positions_view(
                self.positions@,
            )[k] == pv.push(pview)[k] by {
                assert(positions_view(self.positions@)[k] == self.positions@[k]@);
                if k < pv.len() {
                    assert(pv[k] == old(self).positions@[k]@);
                }
            }
            assert(positions_view(self.positions@) =~= pv.push(pview));
            // The new instrument is held by no earlier position, so
            // uniqueness carries over.
            assert(forall|i: int|
                0 <= i < pv.len() ==> (#[trigger] pv[i]).inst_id != pview.inst_id);
        }
    }

    /// Closes the position at `i`.
    pub fn close_at(&mut self, i: usize)
        requires
            positions_wf(positions_view(old(self).positions@)),
            i < old(self).positions@.len(),
        ensures
            positions_view(final(self).positions@) == positions_view(
                old(self).positions@,
            ).remove(i as int),
            positions_wf(positions_view(final(self).positions@)),
            final(self).positions@.len() == old(self).positions@.len() - 1,
    {
        proof {
            lemma_positions_view(old(self).positions@);
        }
        let ghost pv = positions_view(self.positions@);
        self.positions.remove(i);
        proof {
            lemma_positions_view(self.positions@);
            assert(forall|k: int|
                0 <= k < i ==> #[trigger] self.positions@[k] == old(self).positions@[k]);
            assert(forall|k: int|
                i <= k < self.positions@.len() ==> #[trigger] self.positions@[k] == old(
                    self,
                ).positions@[k + 1]);
            assert forall|k: int|
                0 <= k < self.positions@.len() implies positions_view(
                self.positions@,
            )[k] == pv.remove(i as int)[k] by {
                assert(positions_view(self.positions@)[k] == self.positions@[k]@);
                if k < i {
                    assert(pv[k] == old(self).positions@[k]@);
                } else {
                    assert(pv[k + 1] == old(self).positions@[k + 1]@);
                }
            }
            assert(positions_view(self.positions@) =~= pv.remove(i as int));
        }
    }

    pub fn count(&self) -> (r: usize)
        ensures
            r == positions_view(self.positions@).len(),
    {
        proof {
            lemma_positions_view(self.positions@);
        }
        self.positions.len()
    }
}

/// Whether the risk gate lets a buy through: open positions under the
/// cap, cached balance at least the bet.  Staleness is filtered upstream,
/// and the single-flight guarantee is the caller's position check made in
/// the same step as the entry.
pub open spec fn risk_approved(open_count: int, balance: u64) -> bool {
    open_count < MAX_POSITIONS && balance >= BET_SIZE_SCALED
}

/// The risk gate's decision: exactly `risk_approved`.
pub fn risk_approve(open_count: usize, balance: u64) -> (r: bool)
    ensures
        r == risk_approved(open_count as int, balance),
{
    open_count < MAX_POSITIONS && balance >= BET_SIZE_SCALED
}

} // verus!
