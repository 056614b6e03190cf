//! Market-domain data: one tick of one instrument.
//!
//! Prices cross the wire as decimal strings; here they are fixed-point
//! integers scaled by [`crate::PRICE_SCALE`], so the strategy's arithmetic
//! is exact.  The 24-hour volume is carried as its raw string: nothing
//! computes with it.

use vstd::prelude::*;

use crate::decimal::dec_spec;
use crate::decimal::int_spec;
use crate::decimal::parse_scaled;
use crate::decimal::parse_u64;
use crate::json::json_view;
use crate::json::lookup;
use crate::json::members_view;
use crate::json::Json;
use crate::json::JsonV;
use crate::okx::protocol::get_str_field;
use crate::okx::protocol::str_opt;

verus! {

/// One market-data update.  Prices are fixed-point, scaled by
/// `PRICE_SCALE` and strictly positive; `ts` is the exchange-side
/// timestamp in milliseconds.
pub struct Ticker {
    pub inst_id: String,
    pub last: u64,
    pub volume: String,
    pub ask_px: u64,
    pub bid_px: u64,
    pub ts: u64,
}

/// The mathematical shape of a tick.
pub struct TickV {
    pub inst_id: Seq<char>,
    pub last: u64,
    pub volume: Seq<char>,
    pub ask_px: u64,
    pub bid_px: u64,
    pub ts: u64,
}

impl View for Ticker {
    type V = TickV;

    open spec fn view(&self) -> TickV {
        TickV {
            inst_id: self.inst_id@,
            last: self.last,
            volume: self.volume@,
            ask_px: self.ask_px,
            bid_px: self.bid_px,
            ts: self.ts,
        }
    }
}

/// The tick that a payload element denotes: an object carrying the six
/// wire fields as strings, whose three prices parse to positive
/// fixed-point values and whose timestamp parses as an integer.  `None`
/// for anything else; such an element is skipped, never fatal.
pub open spec fn tick_of(j: JsonV) -> Option<TickV> {
    match j {
        JsonV::Obj(ms) => tick_of_fields(
            str_opt(lookup(ms, "instId"@)),
            str_opt(lookup(ms, "last"@)),
            str_opt(lookup(ms, "vol24h"@)),
            str_opt(lookup(ms, "askPx"@)),
            str_opt(lookup(ms, "bidPx"@)),
            str_opt(lookup(ms, "ts"@)),
        ),
        _ => None,
    }
}

pub open spec fn tick_of_fields(
    inst: Option<Seq<char>>,
    last: Option<Seq<char>>,
    vol: Option<Seq<char>>,
    ask: Option<Seq<char>>,
    bid: Option<Seq<char>>,
    ts: Option<Seq<char>>,
) -> Option<TickV> {
    if inst is Some && last is Some && vol is Some && ask is Some && bid is Some && ts
        is Some {
        match (dec_spec(last->0), dec_spec(ask->0), dec_spec(bid->0), int_spec(ts->0)) {
            (Some(l), Some(a), Some(b), Some(t)) => {
                if 1 <= l && 1 <= a && 1 <= b && t <= u64::MAX {
                    Some(
                        TickV {
                            inst_id: inst->0,
                            last: l as u64,
                            volume: vol->0,
                            ask_px: a as u64,
                            bid_px: b as u64,
                            ts: t as u64,
                        },
                    )
                } else {
                    None
                }
            },
            _ => None,
        }
    } else {
        None
    }
}

/// Reads one payload element as a tick: exactly the elements and values
/// of `tick_of`.
pub fn parse_ticker(j: &Json) -> (r: Option<Ticker>)
    ensures
        match r {
            Some(t) => tick_of(json_view(*j)) == Some(t@) && t.last >= 1 && t.ask_px >= 1
                && t.bid_px >= 1,
            None => tick_of(json_view(*j)) is None,
        },
{
    match j {
        Json::Obj(ms) => {
            let inst = get_str_field(ms, "instId");
            let last_s = get_str_field(ms, "last");
            let vol_s = get_str_field(ms, "vol24h");
            let ask_s = get_str_field(ms, "askPx");
            let bid_s = get_str_field(ms, "bidPx");
            let ts_s = get_str_field(ms, "ts");
            match (inst, last_s, vol_s, ask_s, bid_s, ts_s) {
                (Some(inst), Some(last_s), Some(vol_s), Some(ask_s), Some(bid_s), Some(
                    ts_s,
                )) => {
                    let l = parse_scaled(last_s.as_str());
                    let a = parse_scaled(ask_s.as_str());
                    let b = parse_scaled(bid_s.as_str());
                    let t = parse_u64(ts_s.as_str());
                    match (l, a, b, t) {
                        (Some(l), Some(a), Some(b), Some(t)) => {
                            if l >= 1 && a >= 1 && b >= 1 {
                                Some(
                                    Ticker {
                                        inst_id: inst,
                                        last: l,
                                        volume: vol_s,
                                        ask_px: a,
                                        bid_px: b,
                                        ts: t,
                                    },
                                )
                            } else {
                                None
                            }
                        },
                        _ => None,
                    }
                },
                _ => None,
            }
        },
        _ => None,
    }
}

} // verus!
