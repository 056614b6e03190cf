//! The exchange's message protocol: outbound packet encoding and inbound
//! envelope decoding.
//!
//! Outbound packets are built character-exactly against specification
//! functions; inbound frames go through the verified JSON parser and are
//! classified once, into a tagged envelope, before anything branches.

use vstd::prelude::*;
use vstd::string::StrSliceExecFns;
use vstd::string::StringExecFns;

use crate::decimal::dec_digits;
use crate::decimal::format_hex;
use crate::decimal::format_u64;
use crate::decimal::hex_char;
use crate::decimal::hex_digits;
use crate::decimal::hex_str;
use crate::json::items_view;
use crate::json::json_view;
use crate::json::lookup;
use crate::json::members_view;
use crate::json::obj_get;
use crate::json::parse_json;
use crate::json::parse_spec;
use crate::json::Json;
use crate::json::JsonV;

verus! {

/// Which of the two duplex channels a connection serves.
#[derive(Clone, Copy, PartialEq, Eq, Structural)]
pub enum Endpoint {
    Public,
    Private,
}

pub open spec fn endpoint_url(e: Endpoint) -> Seq<char> {
    match e {
        Endpoint::Public => "wss://ws.okx.com:8443/ws/v5/public"@,
        Endpoint::Private => "wss://ws.okx.com:8443/ws/v5/private"@,
    }
}

impl Endpoint {
    /// The fixed handshake URL of this channel.
    pub fn as_url(&self) -> (r: &'static str)
        ensures
            r@ == endpoint_url(*self),
    {
        match self {
            Endpoint::Public => "wss://ws.okx.com:8443/ws/v5/public",
            Endpoint::Private => "wss://ws.okx.com:8443/ws/v5/private",
        }
    }
}

/// The subscription channels the strategy uses.
#[derive(Clone, Copy, PartialEq, Eq, Structural)]
pub enum ChannelType {
    Tickers,
    Account,
}

pub open spec fn channel_str(c: ChannelType) -> Seq<char> {
    match c {
        ChannelType::Tickers => "tickers"@,
        ChannelType::Account => "account"@,
    }
}

impl ChannelType {
    /// The channel's name on the wire.
    pub fn as_str(&self) -> (r: &'static str)
        ensures
            r@ == channel_str(*self),
    {
        match self {
            ChannelType::Tickers => "tickers",
            ChannelType::Account => "account",
        }
    }
}

/// How one character stands inside a JSON string: quote and backslash
/// escaped, control characters in the `\u00XX` form, everything else as
/// it is.
pub open spec fn esc_char(c: char) -> Seq<char> {
    if c == '"' {
        seq!['\\', '"']
    } else if c == '\\' {
        seq!['\\', '\\']
    } else if (c as u32) < 32 {
        seq!['\\', 'u', '0', '0', hex_char((c as u32 / 16) as int), hex_char(
            (c as u32 % 16) as int,
        )]
    } else {
        seq![c]
    }
}

/// A whole string escaped for a JSON string literal.
pub open spec fn esc(s: Seq<char>) -> Seq<char>
    decreases s.len(),
{
    if s.len() == 0 {
        Seq::empty()
    } else {
        esc_char(s[0]) + esc(s.drop_first())
    }
}

pub proof fn lemma_esc_snoc(t: Seq<char>, c: char)
    ensures
        esc(t.push(c)) == esc(t) + esc_char(c),
    decreases t.len(),
{
    if t.len() == 0 {
        assert(t.push(c)[0] == c);
        assert(t.push(c).drop_first() =~= Seq::<char>::empty());
        assert(esc(t.push(c)) == esc_char(c) + esc(Seq::<char>::empty()));
        assert(esc(Seq::<char>::empty()) == Seq::<char>::empty());
        assert(esc(t) == Seq::<char>::empty());
        assert(esc_char(c) + Seq::<char>::empty() =~= Seq::<char>::empty() + esc_char(c));
    } else {
        assert(t.push(c).drop_first() =~= t.drop_first().push(c));
        lemma_esc_snoc(t.drop_first(), c);
        assert(t.push(c)[0] == t[0]);
        assert(esc(t.push(c)) == esc_char(t[0]) + (esc(t.drop_first()) + esc_char(c)));
        assert(esc_char(t[0]) + (esc(t.drop_first()) + esc_char(c)) =~= (esc_char(t[0])
            + esc(t.drop_first())) + esc_char(c));
    }
}

/// Escapes a string for embedding in a JSON string literal.
pub fn escape_json(s: &str) -> (r: String)
    ensures
        r@ == esc(s@),
{
    let n = s.unicode_len();
    let mut out = String::new();
    let mut i: usize = 0;
    while i < n
        invariant
            0 <= i <= n,
            n == s@.len(),
            out@ == esc(s@.subrange(0, i as int)),
        decreases n - i,
    {
        let c = s.get_char(i);
        let u = c as u32;
        if c == '"' {
            out.append("\\\"");
            proof {
                reveal_strlit("\\\"");
                assert("\\\""@ =~= esc_char(c));
            }
        } else if c == '\\' {
            out.append("\\\\");
            proof {
                reveal_strlit("\\\\");
                assert("\\\\"@ =~= esc_char(c));
            }
        } else if u < 32 {
            out.append("\\u00");
            out.append(hex_str(((u / 16) as u64)));
            out.append(hex_str(((u % 16) as u64)));
            proof {
                reveal_strlit("\\u00");
                assert("\\u00"@ + seq![hex_char((c as u32 / 16) as int)] + seq![
                    hex_char((c as u32 % 16) as int)] =~= esc_char(c));
            }
        } else {
            let piece = s.substring_char(i, i + 1);
            out.append(piece);
            proof {
                assert(s@.subrange(i as int, i + 1) =~= seq![c]);
                assert(seq![c] =~= esc_char(c));
            }
        }
        proof {
            lemma_esc_snoc(s@.subrange(0, i as int), c);
            assert(s@.subrange(0, i + 1) =~= s@.subrange(0, i as int).push(c));
        }
        i = i + 1;
    }
    proof {
        assert(s@.subrange(0, n as int) =~= s@);
    }
    out
}

/// Whether `s` and `lit` hold the same characters.
pub fn str_is(s: &str, lit: &str) -> (r: bool)
    ensures
        r == (s@ == lit@),
{
    let n = s.unicode_len();
    let m = lit.unicode_len();
    if n != m {
        proof {
            assert(s@.len() != lit@.len());
        }
        return false;
    }
    let hit = crate::json::expect_lit(s, 0, lit);
    proof {
        assert(s@.subrange(0, lit@.len() as int) =~= s@);
    }
    hit
}

/// The subscribe request for a channel: keyed by currency for the account
/// channel (recognised, as on the wire, by the `USDT`/`ANY` argument), by
/// instrument otherwise.
pub open spec fn subscribe_packet_spec(channel: ChannelType, inst: Seq<char>) -> Seq<char> {
    if inst == "USDT"@ || inst == "ANY"@ {
        "{\"op\":\"subscribe\",\"args\":[{\"channel\":\""@ + channel_str(channel)
            + "\",\"ccy\":\"USDT\"}]}"@
    } else {
        "{\"op\":\"subscribe\",\"args\":[{\"channel\":\""@ + channel_str(channel)
            + "\",\"instId\":\""@ + esc(inst) + "\"}]}"@
    }
}

/// Builds the subscribe request for a channel and instrument (or currency).
pub fn create_subscribe_packet(channel: ChannelType, inst_id: &str) -> (r: String)
    ensures
        r@ == subscribe_packet_spec(channel, inst_id@),
{
    let mut out = String::new();
    out.append("{\"op\":\"subscribe\",\"args\":[{\"channel\":\"");
    out.append(channel.as_str());
    if str_is(inst_id, "USDT") || str_is(inst_id, "ANY") {
        out.append("\",\"ccy\":\"USDT\"}]}");
    } else {
        out.append("\",\"instId\":\"");
        let escaped = escape_json(inst_id);
        out.append(escaped.as_str());
        out.append("\"}]}");
    }
    out
}

/// Whether the instrument name carries the derivative marker `SWAP`
/// anywhere: such instruments trade on margin, all others in cash.
pub open spec fn has_swap(s: Seq<char>) -> bool {
    exists|i: int| 0 <= i && i + 4 <= s.len() && #[trigger] s.subrange(i, i + 4) == "SWAP"@
}

/// Looks for the derivative marker in an instrument name.
pub fn contains_swap(s: &str) -> (r: bool)
    ensures
        r == has_swap(s@),
{
    proof {
        reveal_strlit("SWAP");
    }
    let n = s.unicode_len();
    if n < 4 {
        return false;
    }
    let mut i: usize = 0;
    while i <= n - 4
        invariant
            4 <= n,
            0 <= i <= n,
            n == s@.len(),
            "SWAP"@.len() == 4,
            forall|j: int| 0 <= j < i ==> #[trigger] s@.subrange(j, j + 4) != "SWAP"@,
        decreases n - i,
    {
        if crate::json::expect_lit(s, i, "SWAP") {
            proof {
                assert(s@.subrange(i as int, i + 4) == "SWAP"@);
            }
            return true;
        }
        i = i + 1;
    }
    proof {
        assert forall|j: int| !(0 <= j && j + 4 <= s@.len() && #[trigger] s@.subrange(
            j,
            j + 4,
        ) == "SWAP"@) by {
            if 0 <= j && j + 4 <= s@.len() {
                assert(j < i);
            }
        }
    }
    false
}

/// The client order id: a fixed prefix, the low bits of the second-level
/// timestamp in hexadecimal, and the in-process counter in decimal.
pub open spec fn clordid_spec(now_secs: u64, counter: u64) -> Seq<char> {
    "snip"@ + hex_digits((now_secs % 10000) as nat) + dec_digits(counter as nat)
}

/// The in-process client-order-id counter, owned by the codec rather than
/// hidden in a global.
pub struct OrderIdGen {
    pub counter: u64,
}

impl OrderIdGen {
    pub fn new() -> (r: OrderIdGen)
        ensures
            r.counter == 1,
    {
        OrderIdGen { counter: 1 }
    }

    /// Renders the next client order id and advances the counter, wrapping
    /// at the top of the range.
    pub fn next_client_id(&mut self, now_secs: u64) -> (r: String)
        ensures
            r@ == clordid_spec(now_secs, old(self).counter),
            final(self).counter == if old(self).counter == u64::MAX {
                0u64
            } else {
                (old(self).counter + 1) as u64
            },
    {
        let mut out = String::new();
        out.append("snip");
        let hexpart = format_hex(now_secs % 10000);
        out.append(hexpart.as_str());
        let decpart = format_u64(self.counter);
        out.append(decpart.as_str());
        if self.counter == u64::MAX {
            self.counter = 0;
        } else {
            self.counter = self.counter + 1;
        }
        out
    }
}

/// Relies on uuid's `Uuid::new_v4` and its `Display` form: a fresh random
/// identifier in the 36-character hyphenated rendering.  Nothing relates
/// two calls: the value is random.
#[verifier::external_body]
fn new_request_id() -> (r: String)
    ensures
        r@.len() == 36,
{
    uuid::Uuid::new_v4().to_string()
}

/// A market order request: correlation id, operation, and one argument
/// object; margin mode derived from the instrument naming convention.
pub open spec fn order_packet_spec(
    inst: Seq<char>,
    side: Seq<char>,
    sz: Seq<char>,
    pos_side: Seq<char>,
    cl_ord_id: Seq<char>,
    req_id: Seq<char>,
) -> Seq<char> {
    "{\"id\":\""@ + esc(req_id) + "\",\"op\":\"order\",\"args\":[{\"clOrdId\":\""@ + esc(
        cl_ord_id,
    ) + "\",\"side\":\""@ + esc(side) + "\",\"posSide\":\""@ + esc(pos_side)
        + "\",\"ordType\":\"market\",\"instId\":\""@ + esc(inst) + "\",\"sz\":\""@ + esc(sz)
        + "\",\"tdMode\":\""@ + (if has_swap(inst) {
        "cross"@
    } else {
        "cash"@
    }) + "\"}]}"@
}

/// Whether `r` is a market order packet for the given fields, under some
/// 36-character correlation id.
pub open spec fn is_order_packet_for(
    r: Seq<char>,
    inst: Seq<char>,
    side: Seq<char>,
    sz: Seq<char>,
    pos_side: Seq<char>,
    cl: Seq<char>,
) -> bool {
    exists|req: Seq<char>|
        req.len() == 36 && r == #[trigger] order_packet_spec(inst, side, sz, pos_side, cl, req)
}

/// Renders a market order packet from fully chosen identifiers.
pub fn build_order_packet(
    inst_id: &str,
    side: &str,
    size: &str,
    pos_side: &str,
    cl_ord_id: &str,
    req_id: &str,
) -> (r: String)
    ensures
        r@ == order_packet_spec(inst_id@, side@, size@, pos_side@, cl_ord_id@, req_id@),
{
    let mut out = String::new();
    out.append("{\"id\":\"");
    let e_req = escape_json(req_id);
    out.append(e_req.as_str());
    out.append("\",\"op\":\"order\",\"args\":[{\"clOrdId\":\"");
    let e_cl = escape_json(cl_ord_id);
    out.append(e_cl.as_str());
    out.append("\",\"side\":\"");
    let e_side = escape_json(side);
    out.append(e_side.as_str());
    out.append("\",\"posSide\":\"");
    let e_ps = escape_json(pos_side);
    out.append(e_ps.as_str());
    out.append("\",\"ordType\":\"market\",\"instId\":\"");
    let e_inst = escape_json(inst_id);
    out.append(e_inst.as_str());
    out.append("\",\"sz\":\"");
    let e_sz = escape_json(size);
    out.append(e_sz.as_str());
    out.append("\",\"tdMode\":\"");
    if contains_swap(inst_id) {
        out.append("cross");
    } else {
        out.append("cash");
    }
    out.append("\"}]}");
    out
}

/// Builds a market order packet: derives the margin mode from the
/// instrument name, takes the next client order id from the generator,
/// and draws a fresh random correlation id.
pub fn create_order_packet(
    inst_id: &str,
    side: &str,
    size: &str,
    pos_side: Option<&str>,
    now_secs: u64,
    ids: &mut OrderIdGen,
) -> (r: String)
    ensures
        is_order_packet_for(
            r@,
            inst_id@,
            side@,
            size@,
            match pos_side {
                Some(p) => p@,
                None => "net"@,
            },
            clordid_spec(now_secs, old(ids).counter),
        ),
        final(ids).counter == if old(ids).counter == u64::MAX {
            0u64
        } else {
            (old(ids).counter + 1) as u64
        },
{
    let ps: &str = match pos_side {
        Some(p) => p,
        None => "net",
    };
    let cl = ids.next_client_id(now_secs);
    let req = new_request_id();
    let out = build_order_packet(inst_id, side, size, ps, cl.as_str(), req.as_str());
    proof {
        assert(is_order_packet_for(
            out@,
            inst_id@,
            side@,
            size@,
            ps@,
            clordid_spec(now_secs, old(ids).counter),
        )) by {
            assert(req@.len() == 36 && out@ == order_packet_spec(
                inst_id@,
                side@,
                size@,
                ps@,
                clordid_spec(now_secs, old(ids).counter),
                req@,
            ));
        }
        assert(ps@ == (match pos_side {
            Some(p) => p@,
            None => "net"@,
        }));
    }
    out
}

/// The subscription argument of a data push: channel name and, where the
/// channel is per-instrument, the instrument id.
#[allow(non_snake_case)]
pub struct WsArg {
    pub channel: String,
    pub instId: Option<String>,
}

pub struct WsArgV {
    pub channel: Seq<char>,
    pub inst_id: Option<Seq<char>>,
}

pub open spec fn opt_str_view(o: Option<String>) -> Option<Seq<char>> {
    match o {
        Some(s) => Some(s@),
        None => None,
    }
}

impl View for WsArg {
    type V = WsArgV;

    open spec fn view(&self) -> WsArgV {
        WsArgV { channel: self.channel@, inst_id: opt_str_view(self.instId) }
    }
}

/// A decoded inbound frame, classified once: a data push with its
/// subscription argument, a system event with its optional code and
/// message, one of the two bare keep-alive texts, or a well-formed frame
/// of no interest.
pub enum Envelope {
    SubscriptionData { arg: WsArg, data: Vec<Json> },
    SystemEvent { event: String, code: Option<String>, msg: Option<String> },
    Pong,
    Ping,
    Unrelated,
}

pub enum EnvelopeV {
    SubscriptionData { arg: WsArgV, data: Seq<JsonV> },
    SystemEvent { event: Seq<char>, code: Option<Seq<char>>, msg: Option<Seq<char>> },
    Pong,
    Ping,
    Unrelated,
}

impl View for Envelope {
    type V = EnvelopeV;

    open spec fn view(&self) -> EnvelopeV {
        match self {
            Envelope::SubscriptionData { arg, data } => EnvelopeV::SubscriptionData {
                arg: arg@,
                data: items_view(data@),
            },
            Envelope::SystemEvent { event, code, msg } => EnvelopeV::SystemEvent {
                event: event@,
                code: opt_str_view(*code),
                msg: opt_str_view(*msg),
            },
            Envelope::Pong => EnvelopeV::Pong,
            Envelope::Ping => EnvelopeV::Ping,
            Envelope::Unrelated => EnvelopeV::Unrelated,
        }
    }
}

/// A frame that would not parse.  It carries the raw text for diagnostics.
#[derive(Debug)]
pub struct DecodeError {
    pub raw: String,
}

pub open spec fn str_opt(o: Option<JsonV>) -> Option<Seq<char>> {
    match o {
        Some(JsonV::Str(t)) => Some(t),
        _ => None,
    }
}

pub open spec fn arr_or_empty(o: Option<JsonV>) -> Seq<JsonV> {
    match o {
        Some(JsonV::Arr(items)) => items,
        _ => Seq::empty(),
    }
}

/// How a well-formed object frame is classified: an `event` string makes
/// it a system event; otherwise an `arg` object with a `channel` string
/// makes it a data push whose payload is the `data` array (empty if
/// absent); anything else is of no interest.
pub open spec fn classify_obj(ms: Seq<(Seq<char>, JsonV)>) -> EnvelopeV {
    match lookup(ms, "event"@) {
        Some(JsonV::Str(ev)) => EnvelopeV::SystemEvent {
            event: ev,
            code: str_opt(lookup(ms, "code"@)),
            msg: str_opt(lookup(ms, "msg"@)),
        },
        _ => match lookup(ms, "arg"@) {
            Some(JsonV::Obj(am)) => match lookup(am, "channel"@) {
                Some(JsonV::Str(ch)) => EnvelopeV::SubscriptionData {
                    arg: WsArgV { channel: ch, inst_id: str_opt(lookup(am, "instId"@)) },
                    data: arr_or_empty(lookup(ms, "data"@)),
                },
                _ => EnvelopeV::Unrelated,
            },
            _ => EnvelopeV::Unrelated,
        },
    }
}

/// What a frame decodes to: the two keep-alive texts, or a JSON object
/// classified by `classify_obj`; `None` is a decode error.
pub open spec fn decode_spec(t: Seq<char>) -> Option<EnvelopeV> {
    if t == "pong"@ {
        Some(EnvelopeV::Pong)
    } else if t == "ping"@ {
        Some(EnvelopeV::Ping)
    } else {
        match parse_spec(t) {
            Some(JsonV::Obj(ms)) => Some(classify_obj(ms)),
            _ => None,
        }
    }
}

impl Json {
    /// A structural copy with the same mathematical value.
    pub fn deep_clone(&self) -> (r: Json)
        ensures
            json_view(r) == json_view(*self),
        decreases *self, 0nat,
    {
        match self {
            Json::Null => Json::Null,
            Json::True => Json::True,
            Json::False => Json::False,
            Json::Num(t) => Json::Num(t.clone()),
            Json::Str(t) => Json::Str(t.clone()),
            Json::Arr(items) => {
                let out = clone_items(items, 0);
                proof {
                    crate::json::lemma_items_view(out@);
                    crate::json::lemma_items_view(items@);
                    assert forall|k: int|
                        0 <= k < out@.len() implies items_view(out@)[k] == items_view(
                        items@,
                    )[k] by {
                        assert(json_view(out@[k]) == json_view(items@[k]));
                    }
                    assert(items_view(out@) =~= items_view(items@));
                }
                Json::Arr(out)
            },
            Json::Obj(ms) => {
                let out = clone_members(ms, 0);
                proof {
                    crate::json::lemma_members_view(out@);
                    crate::json::lemma_members_view(ms@);
                    assert forall|k: int|
                        0 <= k < out@.len() implies members_view(out@)[k] == members_view(
                        ms@,
                    )[k] by {
                        assert(out@[k].0@ == ms@[k].0@ && json_view(out@[k].1)
                            == json_view(ms@[k].1));
                    }
                    assert(members_view(out@) =~= members_view(ms@));
                }
                Json::Obj(out)
            },
        }
    }
}

/// Copies the tail of an array of values, element by element.
fn clone_items(items: &Vec<Json>, from: usize) -> (r: Vec<Json>)
    requires
        from <= items@.len(),
    ensures
        r@.len() == items@.len() - from,
        forall|k: int|
            0 <= k < r@.len() ==> json_view(#[trigger] r@[k]) == json_view(
                items@[from + k],
            ),
    decreases *items, (items@.len() - from) as nat,
{
    if from == items.len() {
        Vec::new()
    } else {
        let head = items[from].deep_clone();
        let mut rest = clone_items(items, from + 1);
        let ghost rest0 = rest@;
        rest.insert(0, head);
        proof {
            assert(forall|k: int| 1 <= k < rest@.len() ==> rest@[k] == rest0[k - 1]);
            assert(json_view(rest@[0]) == json_view(items@[from as int]));
        }
        rest
    }
}

/// Copies the tail of an object's member list, pair by pair.
fn clone_members(ms: &Vec<(String, Json)>, from: usize) -> (r: Vec<(String, Json)>)
    requires
        from <= ms@.len(),
    ensures
        r@.len() == ms@.len() - from,
        forall|k: int|
            0 <= k < r@.len() ==> (#[trigger] r@[k]).0@ == ms@[from + k].0@ && json_view(
                r@[k].1,
            ) == json_view(ms@[from + k].1),
    decreases *ms, (ms@.len() - from) as nat,
{
    if from == ms.len() {
        Vec::new()
    } else {
        let key = ms[from].0.clone();
        let val = ms[from].1.deep_clone();
        let mut rest = clone_members(ms, from + 1);
        let ghost rest0 = rest@;
        rest.insert(0, (key, val));
        proof {
            assert(forall|k: int| 1 <= k < rest@.len() ==> rest@[k] == rest0[k - 1]);
            assert(rest@[0].0@ == ms@[from as int].0@ && json_view(rest@[0].1)
                == json_view(ms@[from as int].1));
        }
        rest
    }
}

/// The string bound to `key` in an object's members, if a string is what
/// stands there.
pub fn get_str_field(ms: &Vec<(String, Json)>, key: &str) -> (r: Option<String>)
    ensures
        opt_str_view(r) == str_opt(lookup(members_view(ms@), key@)),
{
    let k = key.to_owned();
    match obj_get(ms, &k) {
        Some(j) => match j {
            Json::Str(t) => Some(t.clone()),
            _ => None,
        },
        None => None,
    }
}

/// The array bound to `key` in an object's members; empty if nothing, or
/// anything else, stands there.
pub fn get_arr_field(ms: &Vec<(String, Json)>, key: &str) -> (r: Vec<Json>)
    ensures
        items_view(r@) == arr_or_empty(lookup(members_view(ms@), key@)),
{
    let k = key.to_owned();
    match obj_get(ms, &k) {
        Some(j) => match j {
            Json::Arr(items) => {
                let out = clone_items(items, 0);
                proof {
                    crate::json::lemma_items_view(out@);
                    crate::json::lemma_items_view(items@);
                    assert forall|kk: int|
                        0 <= kk < out@.len() implies items_view(out@)[kk] == items_view(
                        items@,
                    )[kk] by {
                        assert(json_view(out@[kk]) == json_view(items@[kk]));
                    }
                    assert(items_view(out@) =~= items_view(items@));
                }
                out
            },
            _ => {
                let out: Vec<Json> = Vec::new();
                proof {
                    crate::json::lemma_items_view(out@);
                    assert(items_view(out@) =~= Seq::<JsonV>::empty());
                }
                out
            },
        },
        None => {
            let out: Vec<Json> = Vec::new();
            proof {
                crate::json::lemma_items_view(out@);
                assert(items_view(out@) =~= Seq::<JsonV>::empty());
            }
            out
        },
    }
}

/// Classifies a well-formed object frame, as `classify_obj` says.
fn classify_obj_exec(ms: &Vec<(String, Json)>) -> (r: Envelope)
    ensures
        r@ == classify_obj(members_view(ms@)),
{
    match get_str_field(ms, "event") {
        Some(event) => {
            let code = get_str_field(ms, "code");
            let msg = get_str_field(ms, "msg");
            Envelope::SystemEvent { event, code, msg }
        },
        None => {
            let arg_key = "arg".to_owned();
            match obj_get(ms, &arg_key) {
                Some(aj) => match aj {
                    Json::Obj(am) => {
                        match get_str_field(am, "channel") {
                            Some(ch) => {
                                let inst = get_str_field(am, "instId");
                                let data = get_arr_field(ms, "data");
                                Envelope::SubscriptionData {
                                    arg: WsArg { channel: ch, instId: inst },
                                    data,
                                }
                            },
                            None => Envelope::Unrelated,
                        }
                    },
                    _ => Envelope::Unrelated,
                },
                None => Envelope::Unrelated,
            }
        },
    }
}

/// Decodes one inbound frame into its envelope: exactly the texts and
/// classifications of `decode_spec`.  A frame that does not parse comes
/// back as a `DecodeError` holding the raw text; it never panics, so the
/// read loop survives any input.
pub fn decode(text: &str) -> (r: Result<Envelope, DecodeError>)
    ensures
        match r {
            Ok(env) => decode_spec(text@) == Some(env@),
            Err(e) => decode_spec(text@) is None && e.raw@ == text@,
        },
{
    if str_is(text, "pong") {
        return Ok(Envelope::Pong);
    }
    if str_is(text, "ping") {
        return Ok(Envelope::Ping);
    }
    match parse_json(text) {
        Some(j) => match j {
            Json::Obj(ms) => Ok(classify_obj_exec(&ms)),
            _ => Err(DecodeError { raw: text.to_owned() }),
        },
        None => Err(DecodeError { raw: text.to_owned() }),
    }
}

/// One currency's balance entry in an account push.
pub struct BalanceDetail {
    pub ccy: String,
    pub avail_bal: String,
    pub cash_bal: String,
}

/// The mathematical shape of a balance entry.
pub struct DetailV {
    pub ccy: Seq<char>,
    pub avail_bal: Seq<char>,
    pub cash_bal: Seq<char>,
}

impl View for BalanceDetail {
    type V = DetailV;

    open spec fn view(&self) -> DetailV {
        DetailV { ccy: self.ccy@, avail_bal: self.avail_bal@, cash_bal: self.cash_bal@ }
    }
}

/// One account push: its balance entries.
pub struct AccountData {
    pub details: Vec<BalanceDetail>,
}

pub open spec fn details_view(s: Seq<BalanceDetail>) -> Seq<DetailV>
    decreases s,
{
    if s.len() == 0 {
        Seq::empty()
    } else {
        details_view(s.subrange(0, s.len() - 1)).push(s[s.len() - 1]@)
    }
}

pub proof fn lemma_details_view(s: Seq<BalanceDetail>)
    ensures
        details_view(s).len() == s.len(),
        forall|i: int| 0 <= i < s.len() ==> details_view(s)[i] == (#[trigger] s[i])@,
    decreases s.len(),
{
    if s.len() > 0 {
        lemma_details_view(s.subrange(0, s.len() - 1));
        assert(forall|i: int|
            0 <= i < s.len() - 1 ==> s.subrange(0, s.len() - 1)[i] == #[trigger] s[i]);
    }
}

/// The balance entry a payload element denotes: an object with the three
/// wire fields as strings.  Anything else is skipped, never fatal.
pub open spec fn detail_of(j: JsonV) -> Option<DetailV> {
    match j {
        JsonV::Obj(ms) => {
            match (str_opt(lookup(ms, "ccy"@)), str_opt(lookup(ms, "availBal"@)), str_opt(
                lookup(ms, "cashBal"@),
            )) {
                (Some(c), Some(a), Some(b)) => Some(
                    DetailV { ccy: c, avail_bal: a, cash_bal: b },
                ),
                _ => None,
            }
        },
        _ => None,
    }
}

/// The balance entries listed by the elements of a `details` array, in
/// order, unusable elements skipped.
pub open spec fn details_list_of(items: Seq<JsonV>) -> Seq<DetailV>
    decreases items.len(),
{
    if items.len() == 0 {
        Seq::empty()
    } else {
        details_list_of(items.subrange(0, items.len() - 1)) + (match detail_of(
            items[items.len() - 1],
        ) {
            Some(d) => seq![d],
            None => Seq::empty(),
        })
    }
}

/// The balance entries of an account push payload: the `details` array of
/// its first element (the cache consumes one push at a time; an empty or
/// shapeless payload holds no entries).
pub open spec fn account_details_of(data: Seq<JsonV>) -> Seq<DetailV> {
    if data.len() == 0 {
        Seq::empty()
    } else {
        match data[0] {
            JsonV::Obj(ms) => match lookup(ms, "details"@) {
                Some(JsonV::Arr(items)) => details_list_of(items),
                _ => Seq::empty(),
            },
            _ => Seq::empty(),
        }
    }
}

/// Reads one payload element as a balance entry: exactly `detail_of`.
pub fn parse_balance_detail(j: &Json) -> (r: Option<BalanceDetail>)
    ensures
        match r {
            Some(d) => detail_of(json_view(*j)) == Some(d@),
            None => detail_of(json_view(*j)) is None,
        },
{
    match j {
        Json::Obj(ms) => {
            let c = get_str_field(ms, "ccy");
            let a = get_str_field(ms, "availBal");
            let b = get_str_field(ms, "cashBal");
            match (c, a, b) {
                (Some(c), Some(a), Some(b)) => Some(
                    BalanceDetail { ccy: c, avail_bal: a, cash_bal: b },
                ),
                _ => None,
            }
        },
        _ => None,
    }
}

/// Reads the balance entries out of an account push payload: exactly
/// `account_details_of`.
pub fn parse_account_data(data: &Vec<Json>) -> (r: AccountData)
    ensures
        details_view(r.details@) == account_details_of(items_view(data@)),
{
    proof {
        crate::json::lemma_items_view(data@);
    }
    let mut details: Vec<BalanceDetail> = Vec::new();
    proof {
        lemma_details_view(details@);
        assert(details_view(details@) =~= Seq::<DetailV>::empty());
    }
    if data.len() == 0 {
        return AccountData { details };
    }
    let first = &data[0];
    match first {
        Json::Obj(ms) => {
            let items = get_arr_field(ms, "details");
            proof {
                crate::json::lemma_items_view(items@);
            }
            let n = items.len();
            let mut i: usize = 0;
            while i < n
                invariant
                    0 <= i <= n,
                    n == items@.len(),
                    items_view(items@).len() == n,
                    forall|k: int|
                        0 <= k < n ==> items_view(items@)[k] == json_view(
                            #[trigger] items@[k],
                        ),
                    details_view(details@) == details_list_of(
                        items_view(items@).subrange(0, i as int),
                    ),
                decreases n - i,
            {
                let ghost dv0 = details_view(details@);
                let ghost pre = items_view(items@).subrange(0, i as int);
                match parse_balance_detail(&items[i]) {
                    Some(d) => {
                        let ghost dvnew = d@;
                        let ghost d0seq = details@;
                        details.push(d);
                        proof {
                            lemma_details_view(d0seq);
                            lemma_details_view(details@);
                            assert forall|k: int|
                                0 <= k < details@.len() implies details_view(
                                details@,
                            )[k] == dv0.push(dvnew)[k] by {
                                assert(details_view(details@)[k] == details@[k]@);
                                if k < d0seq.len() {
                                    assert(details@[k] == d0seq[k]);
                                    assert(dv0[k] == d0seq[k]@);
                                }
                            }
                            assert(details_view(details@) =~= dv0.push(dvnew));
                            assert(items_view(items@).subrange(0, i + 1).subrange(
                                0,
                                i as int,
                            ) =~= pre);
                            assert(items_view(items@).subrange(0, i + 1)[i as int]
                                == items_view(items@)[i as int]);
                            assert(dv0.push(dvnew) =~= details_list_of(
                                items_view(items@).subrange(0, i + 1),
                            ));
                        }
                    },
                    None => {
                        proof {
                            assert(items_view(items@).subrange(0, i + 1).subrange(
                                0,
                                i as int,
                            ) =~= pre);
                            assert(items_view(items@).subrange(0, i + 1)[i as int]
                                == items_view(items@)[i as int]);
                            assert(dv0 + Seq::<DetailV>::empty() =~= dv0);
                        }
                    },
                }
                i = i + 1;
            }
            proof {
                assert(items_view(items@).subrange(0, n as int) =~= items_view(items@));
            }
            AccountData { details }
        },
        _ => AccountData { details },
    }
}

} // verus!
