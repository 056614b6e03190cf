//! The strategy engine: signal detection, position lifecycle, risk
//! gating, and the per-frame decision step that the run loop drives.
//!
//! Signal policy, chosen once for this implementation: the price change
//! is measured against the oldest sample retained in the window (the
//! window-floor price), and a drop of more than three percent fires the
//! signal (the alternative, a fixed two-second lookback, is not used).

use vstd::prelude::*;
use vstd::string::StrSliceExecFns;

use crate::decimal::dec_digits;
use crate::decimal::dec_spec;
use crate::decimal::format_u64;
use crate::decimal::parse_scaled;
use crate::json::items_view;
use crate::json::json_view;
use crate::json::Json;
use crate::json::JsonV;
use crate::okx::market_data::tick_of;
use crate::okx::market_data::parse_ticker;
use crate::okx::market_data::TickV;
use crate::okx::market_data::Ticker;
use crate::okx::protocol::account_details_of;
use crate::okx::protocol::clordid_spec;
use crate::okx::protocol::contains_swap;
use crate::okx::protocol::decode;
use crate::okx::protocol::decode_spec;
use crate::okx::protocol::details_view;
use crate::okx::protocol::has_swap;
use crate::okx::protocol::is_order_packet_for;
use crate::okx::protocol::parse_account_data;
use crate::okx::protocol::str_is;
use crate::okx::protocol::BalanceDetail;
use crate::okx::protocol::DetailV;
use crate::okx::protocol::Envelope;
use crate::okx::protocol::EnvelopeV;
use crate::okx::protocol::OrderIdGen;
use crate::strategy::history::hist_update;
use crate::strategy::history::history_wf;
use crate::strategy::history::PriceHistory;
use crate::strategy::history::PricePoint;
use crate::strategy::position::check_exit;
use crate::strategy::position::exit_reason_spec;
use crate::strategy::position::has_position_v;
use crate::strategy::position::lemma_pos_index;
use crate::strategy::position::lemma_positions_view;
use crate::strategy::position::pos_index_v;
use crate::strategy::position::positions_view;
use crate::strategy::position::positions_wf;
use crate::strategy::position::risk_approve;
use crate::strategy::position::risk_approved;
use crate::strategy::position::PosV;
use crate::strategy::position::Position;
use crate::strategy::position::PositionManager;
use crate::strategy::position::BET_SIZE_UNITS;
use crate::strategy::position::MAX_POSITIONS;

verus! {

/// How old a tick's exchange-side timestamp may be, in milliseconds,
/// before the tick is discarded.
pub const STALENESS_MS: u64 = 2000;

/// A tick older than the staleness bound, relative to processing time.
pub open spec fn is_stale(ts: u64, now: u64) -> bool {
    now as int - ts as int > STALENESS_MS as int
}

/// Whether a tick is too old to act on: exactly `is_stale`.
pub fn check_stale(ts: u64, now: u64) -> (r: bool)
    ensures
        r == is_stale(ts, now),
{
    now > ts && now - ts > STALENESS_MS
}

/// The flash-crash test: the current price is more than three percent
/// below the window-floor price.
pub open spec fn crash_signal(window_price: u64, price: u64) -> bool {
    100 * (price as int - window_price as int) < -3 * (window_price as int)
}

/// Evaluates the flash-crash test: exactly `crash_signal`.
pub fn check_crash(window_price: u64, price: u64) -> (r: bool)
    requires
        window_price >= 1,
    ensures
        r == crash_signal(window_price, price),
{
    window_price > price && 100u128 * ((window_price - price) as u128) > 3u128 * (
    window_price as u128)
}

/// One instrument's window of recent prices, keyed by its id.
pub struct InstrumentBook {
    pub inst_id: String,
    pub history: PriceHistory,
}

/// The mathematical shape of an instrument's book.
pub struct BookV {
    pub inst_id: Seq<char>,
    pub points: Seq<PricePoint>,
}

impl View for InstrumentBook {
    type V = BookV;

    open spec fn view(&self) -> BookV {
        BookV { inst_id: self.inst_id@, points: self.history.points@ }
    }
}

pub open spec fn books_view(s: Seq<InstrumentBook>) -> Seq<BookV>
    decreases s,
{
    if s.len() == 0 {
        Seq::empty()
    } else {
        books_view(s.subrange(0, s.len() - 1)).push(s[s.len() - 1]@)
    }
}

pub proof fn lemma_books_view(s: Seq<InstrumentBook>)
    ensures
        books_view(s).len() == s.len(),
        forall|i: int| 0 <= i < s.len() ==> books_view(s)[i] == (#[trigger] s[i])@,
    decreases s.len(),
{
    if s.len() > 0 {
        lemma_books_view(s.subrange(0, s.len() - 1));
        assert(forall|i: int|
            0 <= i < s.len() - 1 ==> s.subrange(0, s.len() - 1)[i] == #[trigger] s[i]);
    }
}

/// First index holding `id`, or the length if none does.
pub open spec fn book_index_v(s: Seq<BookV>, id: Seq<char>) -> int
    decreases s.len(),
{
    if s.len() == 0 {
        0
    } else if s[0].inst_id == id {
        0
    } else {
        1 + book_index_v(s.drop_first(), id)
    }
}

pub proof fn lemma_book_index(s: Seq<BookV>, id: Seq<char>)
    ensures
        0 <= book_index_v(s, id) <= s.len(),
        book_index_v(s, id) < s.len() ==> s[book_index_v(s, id)].inst_id == id,
        forall|i: int| 0 <= i < book_index_v(s, id) ==> (#[trigger] s[i]).inst_id != id,
    decreases s.len(),
{
    if s.len() > 0 && s[0].inst_id != id {
        lemma_book_index(s.drop_first(), id);
        assert forall|i: int| 0 <= i < book_index_v(s, id) implies (
        #[trigger] s[i]).inst_id != id by {
            if i >= 1 {
                assert(s.drop_first()[i - 1] == s[i]);
                assert(0 <= i - 1 < book_index_v(s.drop_first(), id));
            }
        }
    }
}

/// Well-formed books: one per instrument, each window well-formed.
pub open spec fn books_wf(s: Seq<BookV>) -> bool {
    (forall|i: int, j: int|
        0 <= i < j < s.len() ==> (#[trigger] s[i]).inst_id != (#[trigger] s[j]).inst_id)
        && (forall|i: int| 0 <= i < s.len() ==> history_wf((#[trigger] s[i]).points))
}

/// What one tick does to the books: the instrument's window is brought up
/// to date, or a fresh one is opened for a first-seen instrument.
pub open spec fn signal_step(s: Seq<BookV>, id: Seq<char>, now: u64, price: u64) -> Seq<
    BookV,
> {
    let i = book_index_v(s, id);
    if i < s.len() {
        s.update(i, BookV { inst_id: s[i].inst_id, points: hist_update(s[i].points, now, price) })
    } else {
        s.push(BookV { inst_id: id, points: hist_update(Seq::empty(), now, price) })
    }
}

/// Whether the tick fires the buy signal: the updated window's floor
/// price is more than the crash threshold above the current price.  A
/// first-seen instrument has only the new sample and fires nothing, and
/// a sample carried backwards in time is not acted on.
pub open spec fn signal_fired(s: Seq<BookV>, id: Seq<char>, now: u64, price: u64) -> bool {
    let i = book_index_v(s, id);
    if i < s.len() {
        let h0 = s[i].points;
        if h0.len() > 0 && h0.last().ts > now {
            false
        } else {
            crash_signal(hist_update(h0, now, price)[0].price, price)
        }
    } else {
        false
    }
}

/// A buy opportunity: the instrument and the ask price to use as the
/// entry cost basis.
pub struct BuySignal {
    pub inst_id: String,
    pub ask_px: u64,
}

/// Turns ticks into buy signals over per-instrument price windows.
pub struct SignalEngine {
    pub books: Vec<InstrumentBook>,
}

impl SignalEngine {
    pub fn new() -> (r: SignalEngine)
        ensures
            r.books@.len() == 0,
            books_view(r.books@) =~= Seq::<BookV>::empty(),
            books_wf(books_view(r.books@)),
    {
        let r = SignalEngine { books: Vec::new() };
        proof {
            lemma_books_view(r.books@);
        }
        r
    }

    /// Feeds one tick in.  A stale tick, or one for a derivative
    /// instrument, changes nothing and yields nothing; otherwise the
    /// instrument's window moves one step and the signal fires exactly
    /// when the crash test holds against the window floor.
    #[verifier::loop_isolation(false)]
    pub fn on_tick(&mut self, ticker: &Ticker, now_ms: u64) -> (r: Option<BuySignal>)
        requires
            books_wf(books_view(old(self).books@)),
            ticker.last >= 1,
            ticker.ask_px >= 1,
        ensures
            books_wf(books_view(final(self).books@)),
            (is_stale(ticker.ts, now_ms) || has_swap(ticker.inst_id@)) ==> *final(self)
                == *old(self) && r is None,
            !(is_stale(ticker.ts, now_ms) || has_swap(ticker.inst_id@)) ==> {
                &&& books_view(final(self).books@) == signal_step(
                    books_view(old(self).books@),
                    ticker.inst_id@,
                    now_ms,
                    ticker.last,
                )
                &&& (r is Some <==> signal_fired(
                    books_view(old(self).books@),
                    ticker.inst_id@,
                    now_ms,
                    ticker.last,
                ))
                &&& (r matches Some(sig) ==> sig.inst_id@ == ticker.inst_id@ && sig.ask_px
                    == ticker.ask_px)
            },
    {
        proof {
            lemma_books_view(old(self).books@);
        }
        if check_stale(ticker.ts, now_ms) {
            return None;
        }
        if contains_swap(ticker.inst_id.as_str()) {
            return None;
        }
        let ghost bv = books_view(self.books@);
        proof {
            lemma_books_view(self.books@);
            lemma_book_index(bv, ticker.inst_id@);
        }
        let n = self.books.len();
        let mut i: usize = 0;
        while i < n
            invariant
                0 <= i <= n,
                n == self.books@.len(),
                bv == books_view(self.books@),
                bv.len() == n,
                forall|k: int| 0 <= k < n ==> bv[k] == (#[trigger] self.books@[k])@,
                forall|k: int| 0 <= k < i ==> (#[trigger] bv[k]).inst_id
                    != ticker.inst_id@,
            decreases n - i,
        {
            if self.books[i].inst_id.eq(&ticker.inst_id) {
                proof {
                    lemma_book_index(bv, ticker.inst_id@);
                }
                // The book exists: one window step, then the crash test
                // against the window floor.
                let regress = self.books[i].history.points.len() > 0 && self.books[
                    i
                ].history.points[self.books[i].history.points.len() - 1].ts > now_ms;
                proof {
                    assert(bv[i as int] == self.books@[i as int]@);
                    assert(history_wf(self.books@[i as int].history.points@));
                }
                let ghost pre = self.books@;
                self.books[i].history.update(now_ms, ticker.last);
                proof {
                    lemma_books_view(self.books@);
                    assert forall|k: int|
                        0 <= k < self.books@.len() implies books_view(
                        self.books@,
                    )[k] == signal_step(bv, ticker.inst_id@, now_ms, ticker.last)[k] by {
                        assert(books_view(self.books@)[k] == self.books@[k]@);
                        if k != i {
                            assert(self.books@[k] == pre[k]);
                            assert(bv[k] == pre[k]@);
                        }
                    }
                    assert(books_view(self.books@) =~= signal_step(
                        bv,
                        ticker.inst_id@,
                        now_ms,
                        ticker.last,
                    ));
                    let nv = books_view(self.books@);
                    assert(books_wf(nv)) by {
                        assert(forall|k: int|
                            0 <= k < nv.len() ==> (#[trigger] nv[k]).inst_id == bv[
                            k].inst_id);
                        assert(forall|k: int|
                            0 <= k < nv.len() && k != i ==> (#[trigger] nv[k]).points
                                == bv[k].points);
                        assert(history_wf(nv[i as int].points));
                    }
                }
                if regress {
                    return None;
                }
                let w = self.books[i].history.points[0].price;
                proof {
                    crate::strategy::history::lemma_evict_window(
                        bv[i as int].points,
                        now_ms as int,
                    );
                    assert(history_wf(self.books@[i as int].history.points@));
                    assert(self.books@[i as int].history.points@[0].price >= 1);
                }
                if check_crash(w, ticker.last) {
                    return Some(
                        BuySignal { inst_id: ticker.inst_id.clone(), ask_px: ticker.ask_px },
                    );
                }
                return None;
            }
            i = i + 1;
        }
        proof {
            lemma_book_index(bv, ticker.inst_id@);
            assert(book_index_v(bv, ticker.inst_id@) == bv.len());
        }
        // A first-seen instrument: open its window with this sample.
        let mut h = PriceHistory::new();
        h.update(now_ms, ticker.last);
        let nb = InstrumentBook { inst_id: ticker.inst_id.clone(), history: h };
        let ghost nbv = nb@;
        let ghost pre = self.books@;
        self.books.push(nb);
        proof {
            lemma_books_view(self.books@);
            assert forall|k: int|
                0 <= k < self.books@.len() implies books_view(self.books@)[k]
                == signal_step(bv, ticker.inst_id@, now_ms, ticker.last)[k] by {
                assert(books_view(self.books@)[k] == self.books@[k]@);
                if k < bv.len() {
                    assert(self.books@[k] == pre[k]);
                    assert(bv[k] == pre[k]@);
                }
            }
            assert(books_view(self.books@) =~= signal_step(
                bv,
                ticker.inst_id@,
                now_ms,
                ticker.last,
            ));
            let nv = books_view(self.books@);
            assert(books_wf(nv)) by {
                assert(forall|k: int|
                    0 <= k < bv.len() ==> (#[trigger] nv[k]).inst_id == bv[k].inst_id
                        && nv[k].points == bv[k].points);
                assert(nv[bv.len() as int] == nbv);
                assert(history_wf(nbv.points));
            }
        }
        None
    }
}

/// What one balance entry does to the cached balance: a parseable USDT
/// entry overwrites it, anything else leaves it.
pub open spec fn balance_step(prev: u64, d: DetailV) -> u64 {
    if d.ccy == "USDT"@ && dec_spec(d.avail_bal) is Some {
        (dec_spec(d.avail_bal)->0) as u64
    } else {
        prev
    }
}

/// The cached balance after a list of entries, in order: the last
/// parseable USDT entry wins.
pub open spec fn balance_after(ds: Seq<DetailV>, init: u64) -> u64
    decreases ds.len(),
{
    if ds.len() == 0 {
        init
    } else {
        balance_step(balance_after(ds.subrange(0, ds.len() - 1), init), ds[ds.len() - 1])
    }
}

/// The cached available quote-currency balance: last write wins, no
/// reconciliation with orders in flight.
pub struct AccountStateCache {
    pub usdt_balance: u64,
}

impl AccountStateCache {
    pub fn new() -> (r: AccountStateCache)
        ensures
            r.usdt_balance == 0,
    {
        AccountStateCache { usdt_balance: 0 }
    }

    /// Folds one account push's entries into the cache.
    pub fn on_account_update(&mut self, details: &Vec<BalanceDetail>)
        ensures
            final(self).usdt_balance == balance_after(
                details_view(details@),
                old(self).usdt_balance,
            ),
    {
        proof {
            crate::okx::protocol::lemma_details_view(details@);
            assert(details_view(details@).subrange(0, 0) =~= Seq::<DetailV>::empty());
        }
        let ghost dv = details_view(details@);
        let ghost init = self.usdt_balance;
        let n = details.len();
        let mut i: usize = 0;
        while i < n
            invariant
                0 <= i <= n,
                n == details@.len(),
                dv == details_view(details@),
                dv.len() == n,
                forall|k: int| 0 <= k < n ==> dv[k] == (#[trigger] details@[k])@,
                self.usdt_balance == balance_after(dv.subrange(0, i as int), init),
            decreases n - i,
        {
            let d = &details[i];
            if str_is(d.ccy.as_str(), "USDT") {
                match parse_scaled(d.avail_bal.as_str()) {
                    Some(v) => {
                        self.usdt_balance = v;
                    },
                    None => {},
                }
            }
            proof {
                assert(dv.subrange(0, i + 1).subrange(0, i as int) =~= dv.subrange(
                    0,
                    i as int,
                ));
                assert(dv.subrange(0, i + 1)[i as int] == dv[i as int]);
            }
            i = i + 1;
        }
        proof {
            assert(dv.subrange(0, n as int) =~= dv);
        }
    }
}


/// The deterministic fields of an order the strategy decides to send;
/// the packet itself also carries a random correlation id.
pub struct OrderShape {
    pub inst_id: Seq<char>,
    pub side: Seq<char>,
    pub size: Seq<char>,
    pub pos_side: Seq<char>,
    pub cl_ord_id: Seq<char>,
}

/// The strategy's whole state, mathematically.
pub struct StateV {
    pub books: Seq<BookV>,
    pub positions: Seq<PosV>,
    pub balance: u64,
    pub counter: u64,
}

/// How the client-order-id counter advances.
pub open spec fn bump(c: u64) -> u64 {
    if c == u64::MAX {
        0u64
    } else {
        (c + 1) as u64
    }
}

/// Whether a packet is the order a shape calls for.
pub open spec fn order_matches(r: Option<String>, shape: Option<OrderShape>) -> bool {
    match (r, shape) {
        (Some(s), Some(sh)) => is_order_packet_for(
            s@,
            sh.inst_id,
            sh.side,
            sh.size,
            sh.pos_side,
            sh.cl_ord_id,
        ),
        (None, None) => true,
        _ => false,
    }
}

pub open spec fn orders_match(rs: Seq<String>, shapes: Seq<OrderShape>) -> bool {
    rs.len() == shapes.len() && forall|i: int|
        0 <= i < rs.len() ==> is_order_packet_for(
            (#[trigger] rs[i])@,
            shapes[i].inst_id,
            shapes[i].side,
            shapes[i].size,
            shapes[i].pos_side,
            shapes[i].cl_ord_id,
        )
}

/// What one tick decides.  An instrument already held is only examined
/// for an exit (so a second buy can never race the first: single
/// flight); otherwise the signal path runs, and a fired signal passes
/// the risk gate before a position is opened and a buy emitted.  At most
/// one order comes out of one tick.
pub open spec fn tick_step(st: StateV, t: TickV, now_ms: u64, now_secs: u64) -> (
    StateV,
    Option<OrderShape>,
) {
    let i = pos_index_v(st.positions, t.inst_id);
    if i < st.positions.len() {
        let p = st.positions[i];
        match exit_reason_spec(p.entry_price, p.entry_ts, t.bid_px, now_ms) {
            Some(_) => (
                StateV {
                    books: st.books,
                    positions: st.positions.remove(i),
                    balance: st.balance,
                    counter: bump(st.counter),
                },
                Some(
                    OrderShape {
                        inst_id: t.inst_id,
                        side: "sell"@,
                        size: p.size,
                        pos_side: "net"@,
                        cl_ord_id: clordid_spec(now_secs, st.counter),
                    },
                ),
            ),
            None => (st, None),
        }
    } else if is_stale(t.ts, now_ms) || has_swap(t.inst_id) {
        (st, None)
    } else {
        let nb = signal_step(st.books, t.inst_id, now_ms, t.last);
        if signal_fired(st.books, t.inst_id, now_ms, t.last) && risk_approved(
            st.positions.len() as int,
            st.balance,
        ) {
            (
                StateV {
                    books: nb,
                    positions: st.positions.push(
                        PosV {
                            inst_id: t.inst_id,
                            entry_price: t.ask_px,
                            entry_ts: now_ms,
                            size: dec_digits(BET_SIZE_UNITS as nat),
                        },
                    ),
                    balance: st.balance,
                    counter: bump(st.counter),
                },
                Some(
                    OrderShape {
                        inst_id: t.inst_id,
                        side: "buy"@,
                        size: dec_digits(BET_SIZE_UNITS as nat),
                        pos_side: "net"@,
                        cl_ord_id: clordid_spec(now_secs, st.counter),
                    },
                ),
            )
        } else {
            (
                StateV {
                    books: nb,
                    positions: st.positions,
                    balance: st.balance,
                    counter: st.counter,
                },
                None,
            )
        }
    }
}

/// What a whole data payload decides: each element that is a tick takes
/// one step, in order; the rest are skipped.
pub open spec fn ticks_fold(st: StateV, items: Seq<JsonV>, now_ms: u64, now_secs: u64) -> (
    StateV,
    Seq<OrderShape>,
)
    decreases items.len(),
{
    if items.len() == 0 {
        (st, Seq::empty())
    } else {
        let prev = ticks_fold(st, items.subrange(0, items.len() - 1), now_ms, now_secs);
        match tick_of(items[items.len() - 1]) {
            Some(t) => {
                let step = tick_step(prev.0, t, now_ms, now_secs);
                (
                    step.0,
                    prev.1 + (match step.1 {
                        Some(sh) => seq![sh],
                        None => Seq::empty(),
                    }),
                )
            },
            None => prev,
        }
    }
}

/// The strategy engine: price windows, open positions, the cached
/// balance, and the order-id counter.
pub struct MarketStrategy {
    pub signal: SignalEngine,
    pub positions: PositionManager,
    pub account: AccountStateCache,
    pub ids: OrderIdGen,
}

/// Well-formed engine: books and positions well-formed, the position
/// count within the cap.
pub open spec fn strategy_wf(m: MarketStrategy) -> bool {
    &&& books_wf(books_view(m.signal.books@))
    &&& positions_wf(positions_view(m.positions.positions@))
    &&& positions_view(m.positions.positions@).len() <= MAX_POSITIONS
}

/// The engine's state, mathematically.
pub open spec fn state_of(m: MarketStrategy) -> StateV {
    StateV {
        books: books_view(m.signal.books@),
        positions: positions_view(m.positions.positions@),
        balance: m.account.usdt_balance,
        counter: m.ids.counter,
    }
}

impl MarketStrategy {
    pub fn new() -> (r: MarketStrategy)
        ensures
            strategy_wf(r),
            state_of(r).books.len() == 0,
            state_of(r).positions.len() == 0,
            state_of(r).balance == 0,
            state_of(r).counter == 1,
    {
        MarketStrategy {
            signal: SignalEngine::new(),
            positions: PositionManager::new(),
            account: AccountStateCache::new(),
            ids: OrderIdGen::new(),
        }
    }

    /// One tick through the whole strategy: exit evaluation for a held
    /// instrument, else the signal path behind the risk gate — exactly
    /// one `tick_step`.
    pub fn analyze_ticker(&mut self, ticker: &Ticker, now_ms: u64, now_secs: u64) -> (r:
        Option<String>)
        requires
            strategy_wf(*old(self)),
            ticker.last >= 1,
            ticker.ask_px >= 1,
            ticker.bid_px >= 1,
        ensures
            strategy_wf(*final(self)),
            state_of(*final(self)) == tick_step(
                state_of(*old(self)),
                ticker@,
                now_ms,
                now_secs,
            ).0,
            order_matches(r, tick_step(state_of(*old(self)), ticker@, now_ms, now_secs).1),
    {
        let ghost st = state_of(*old(self));
        proof {
            lemma_positions_view(self.positions.positions@);
            lemma_pos_index(st.positions, ticker.inst_id@);
        }
        match self.positions.find(&ticker.inst_id) {
            Some(i) => {
                let entry = self.positions.positions[i].entry_price;
                let ets = self.positions.positions[i].entry_ts;
                proof {
                    assert(st.positions[i as int] == self.positions.positions@[i as int]@);
                }
                match check_exit(entry, ets, ticker.bid_px, now_ms) {
                    Some(_) => {
                        let size = self.positions.positions[i].size.clone();
                        self.positions.close_at(i);
                        let pkt = crate::okx::protocol::create_order_packet(
                            ticker.inst_id.as_str(),
                            "sell",
                            size.as_str(),
                            None,
                            now_secs,
                            &mut self.ids,
                        );
                        proof {
                            assert(state_of(*self) == tick_step(st, ticker@, now_ms, now_secs).0);
                        }
                        Some(pkt)
                    },
                    None => None,
                }
            },
            None => {
                match self.signal.on_tick(ticker, now_ms) {
                    Some(sig) => {
                        let count = self.positions.count();
                        if risk_approve(count, self.account.usdt_balance) {
                            let size = format_u64(BET_SIZE_UNITS);
                            let pkt = crate::okx::protocol::create_order_packet(
                                ticker.inst_id.as_str(),
                                "buy",
                                size.as_str(),
                                None,
                                now_secs,
                                &mut self.ids,
                            );
                            let p = Position {
                                inst_id: sig.inst_id,
                                entry_price: sig.ask_px,
                                entry_ts: now_ms,
                                size,
                            };
                            self.positions.open(p);
                            proof {
                                assert(state_of(*self) == tick_step(
                                    st,
                                    ticker@,
                                    now_ms,
                                    now_secs,
                                ).0);
                            }
                            Some(pkt)
                        } else {
                            None
                        }
                    },
                    None => None,
                }
            },
        }
    }

    /// Folds one account push into the cached balance; nothing else
    /// moves.
    pub fn update_balance(&mut self, data: &Vec<Json>)
        requires
            strategy_wf(*old(self)),
        ensures
            strategy_wf(*final(self)),
            state_of(*final(self)) == (StateV {
                balance: balance_after(
                    account_details_of(items_view(data@)),
                    old(self).account.usdt_balance,
                ),
                ..state_of(*old(self))
            }),
    {
        let acct = parse_account_data(data);
        self.account.on_account_update(&acct.details);
    }

    /// One inbound frame through the whole engine: decode, route, and
    /// decide.  A frame that does not decode, a keep-alive, a system
    /// event or an unrecognised push changes nothing and yields nothing;
    /// a tickers push folds its ticks through `tick_step`; an account
    /// push refreshes the cached balance.  The returned packets are the
    /// orders to send, in decision order.
    #[verifier::loop_isolation(false)]
    pub fn process_message(&mut self, text: &str, now_ms: u64, now_secs: u64) -> (r: Vec<
        String,
    >)
        requires
            strategy_wf(*old(self)),
        ensures
            strategy_wf(*final(self)),
            ({
                let st = state_of(*old(self));
                match decode_spec(text@) {
                    None => *final(self) == *old(self) && r@.len() == 0,
                    Some(env) => match env {
                        EnvelopeV::SubscriptionData { arg, data } => {
                            if arg.channel == "tickers"@ {
                                let fold = ticks_fold(st, data, now_ms, now_secs);
                                state_of(*final(self)) == fold.0 && orders_match(
                                    r@,
                                    fold.1,
                                )
                            } else if arg.channel == "account"@ {
                                state_of(*final(self)) == (StateV {
                                    balance: balance_after(
                                        account_details_of(data),
                                        st.balance,
                                    ),
                                    ..st
                                }) && r@.len() == 0
                            } else {
                                *final(self) == *old(self) && r@.len() == 0
                            }
                        },
                        _ => *final(self) == *old(self) && r@.len() == 0,
                    },
                }
            }),
    {
        match decode(text) {
            Err(_) => Vec::new(),
            Ok(env) => match env {
                Envelope::SubscriptionData { arg, data } => {
                    if str_is(arg.channel.as_str(), "tickers") {
                        let ghost st0 = state_of(*self);
                        let ghost dv = items_view(data@);
                        proof {
                            crate::json::lemma_items_view(data@);
                            assert(dv.subrange(0, 0) =~= Seq::<JsonV>::empty());
                        }
                        let mut out: Vec<String> = Vec::new();
                        let n = data.len();
                        let mut i: usize = 0;
                        while i < n
                            invariant
                                0 <= i <= n,
                                n == data@.len(),
                                dv == items_view(data@),
                                dv.len() == n,
                                strategy_wf(*self),
                                state_of(*self) == ticks_fold(
                                    st0,
                                    dv.subrange(0, i as int),
                                    now_ms,
                                    now_secs,
                                ).0,
                                orders_match(
                                    out@,
                                    ticks_fold(st0, dv.subrange(0, i as int), now_ms, now_secs).1,
                                ),
                            decreases n - i,
                        {
                            let ghost prev = ticks_fold(
                                st0,
                                dv.subrange(0, i as int),
                                now_ms,
                                now_secs,
                            );
                            proof {
                                assert(dv.subrange(0, i + 1).subrange(0, i as int)
                                    =~= dv.subrange(0, i as int));
                                assert(dv.subrange(0, i + 1)[i as int] == dv[i as int]);
                                assert(dv[i as int] == json_view(data@[i as int]));
                            }
                            match parse_ticker(&data[i]) {
                                Some(t) => {
                                    let ghost pre_state = state_of(*self);
                                    let one = self.analyze_ticker(&t, now_ms, now_secs);
                                    proof {
                                        assert(tick_of(dv[i as int]) == Some(t@));
                                    }
                                    match one {
                                        Some(pkt) => {
                                            let ghost out0 = out@;
                                            out.push(pkt);
                                            proof {
                                                let step = tick_step(
                                                    prev.0,
                                                    t@,
                                                    now_ms,
                                                    now_secs,
                                                );
                                                let sh = step.1->0;
                                                let shapes2 = ticks_fold(
                                                    st0,
                                                    dv.subrange(0, i + 1),
                                                    now_ms,
                                                    now_secs,
                                                ).1;
                                                assert(shapes2 == prev.1 + seq![sh]);
                                                assert forall|k: int|
                                                    0 <= k < out@.len() implies is_order_packet_for(
                                                    (#[trigger] out@[k])@,
                                                    shapes2[k].inst_id,
                                                    shapes2[k].side,
                                                    shapes2[k].size,
                                                    shapes2[k].pos_side,
                                                    shapes2[k].cl_ord_id,
                                                ) by {
                                                    if k < out0.len() {
                                                        assert(out@[k] == out0[k]);
                                                        assert(shapes2[k] == prev.1[k]);
                                                    } else {
                                                        assert(out@[k] == out0.push(
                                                            out@[out@.len() - 1],
                                                        )[k]);
                                                        assert(shapes2[k] == sh);
                                                    }
                                                }
                                            }
                                        },
                                        None => {
                                            proof {
                                                assert(prev.1 + Seq::<
                                                    OrderShape,
                                                >::empty() =~= prev.1);
                                            }
                                        },
                                    }
                                },
                                None => {
                                    proof {
                                        assert(tick_of(dv[i as int]) is None);
                                    }
                                },
                            }
                            i = i + 1;
                        }
                        proof {
                            assert(dv.subrange(0, n as int) =~= dv);
                        }
                        out
                    } else if str_is(arg.channel.as_str(), "account") {
                        self.update_balance(&data);
                        Vec::new()
                    } else {
                        Vec::new()
                    }
                },
                _ => Vec::new(),
            },
        }
    }
}

/// Law: while a position is open for an instrument, a tick for that
/// instrument can only keep or close it — the position count never
/// grows, and any order emitted is a sell.  A second buy can never race
/// the first.
pub proof fn lemma_single_flight(st: StateV, t: TickV, now_ms: u64, now_secs: u64)
    requires
        has_position_v(st.positions, t.inst_id),
    ensures
        tick_step(st, t, now_ms, now_secs).0.positions.len() <= st.positions.len(),
        tick_step(st, t, now_ms, now_secs).1 matches Some(sh) ==> sh.side == "sell"@,
{
    lemma_pos_index(st.positions, t.inst_id);
    let i = pos_index_v(st.positions, t.inst_id);
    assert(st.positions.remove(i).len() == st.positions.len() - 1);
}

/// Law: the open-position count never passes the cap.
pub proof fn lemma_position_cap(st: StateV, t: TickV, now_ms: u64, now_secs: u64)
    requires
        st.positions.len() <= MAX_POSITIONS,
    ensures
        tick_step(st, t, now_ms, now_secs).0.positions.len() <= MAX_POSITIONS,
{
    lemma_pos_index(st.positions, t.inst_id);
    let i = pos_index_v(st.positions, t.inst_id);
    if i < st.positions.len() {
        assert(st.positions.remove(i).len() == st.positions.len() - 1);
    }
}

/// Law: a buy comes out of a tick only when the instrument is not yet
/// held, the open positions are under the cap, and the cached balance
/// covers the bet — and only together with the new position.
pub proof fn lemma_risk_gate(st: StateV, t: TickV, now_ms: u64, now_secs: u64)
    ensures
        ({
            let step = tick_step(st, t, now_ms, now_secs);
            (step.1 matches Some(sh) && sh.side == "buy"@) ==> {
                &&& !has_position_v(st.positions, t.inst_id)
                &&& risk_approved(st.positions.len() as int, st.balance)
                &&& step.0.positions.len() == st.positions.len() + 1
            }
        }),
{
    reveal_strlit("buy");
    reveal_strlit("sell");
    let i = pos_index_v(st.positions, t.inst_id);
    if i < st.positions.len() {
        let step = tick_step(st, t, now_ms, now_secs);
        if step.1 is Some {
            assert(step.1->0.side == "sell"@);
            assert("buy"@.len() == 3 && "sell"@.len() == 4);
        }
    }
}

/// Law: a stale tick moves nothing: for an instrument not held, the
/// whole state stands and no order is emitted.
pub proof fn lemma_stale_tick(st: StateV, t: TickV, now_ms: u64, now_secs: u64)
    requires
        is_stale(t.ts, now_ms),
        !has_position_v(st.positions, t.inst_id),
    ensures
        tick_step(st, t, now_ms, now_secs).0 == st,
        tick_step(st, t, now_ms, now_secs).1 is None,
{
}

} // verus!
