//! The wire messages' JSON subset, parsed by verified code.
//!
//! Every inbound frame is a JSON text.  This module gives the grammar the
//! decoder accepts as recursive specification functions over the character
//! sequence, and an executable parser proved to return exactly what the
//! grammar denotes.
//!
//! Two deliberate simplifications, both stated here and in the contracts:
//! string contents are kept as they stand on the wire (escape sequences are
//! scanned over but not reduced; the protocol's identifiers contain none),
//! and number tokens are kept as raw character spans, uninterpreted (the
//! protocol wraps every numeric value in a string).

use vstd::prelude::*;
use vstd::string::StrSliceExecFns;

verus! {

/// A parsed JSON value.  Strings hold the raw span between the quotes;
/// numbers hold the raw token.
pub enum Json {
    Null,
    True,
    False,
    Num(String),
    Str(String),
    Arr(Vec<Json>),
    Obj(Vec<(String, Json)>),
}

/// The mathematical shape of a parsed JSON value.
pub enum JsonV {
    Null,
    True,
    False,
    Num(Seq<char>),
    Str(Seq<char>),
    Arr(Seq<JsonV>),
    Obj(Seq<(Seq<char>, JsonV)>),
}

pub open spec fn json_view(j: Json) -> JsonV
    decreases j,
{
    match j {
        Json::Null => JsonV::Null,
        Json::True => JsonV::True,
        Json::False => JsonV::False,
        Json::Num(t) => JsonV::Num(t@),
        Json::Str(t) => JsonV::Str(t@),
        Json::Arr(items) => JsonV::Arr(items_view(items@)),
        Json::Obj(ms) => JsonV::Obj(members_view(ms@)),
    }
}

pub open spec fn items_view(items: Seq<Json>) -> Seq<JsonV>
    decreases items,
{
    if items.len() == 0 {
        Seq::empty()
    } else {
        items_view(items.subrange(0, items.len() - 1)).push(
            json_view(items[items.len() - 1]),
        )
    }
}

pub open spec fn members_view(ms: Seq<(String, Json)>) -> Seq<(Seq<char>, JsonV)>
    decreases ms,
{
    if ms.len() == 0 {
        Seq::empty()
    } else {
        members_view(ms.subrange(0, ms.len() - 1)).push(
            (ms[ms.len() - 1].0@, json_view(ms[ms.len() - 1].1)),
        )
    }
}

pub proof fn lemma_items_view(items: Seq<Json>)
    ensures
        items_view(items).len() == items.len(),
        forall|i: int| 0 <= i < items.len() ==> items_view(items)[i] == json_view(
            #[trigger] items[i],
        ),
    decreases items.len(),
{
    if items.len() > 0 {
        lemma_items_view(items.subrange(0, items.len() - 1));
        assert(forall|i: int|
            0 <= i < items.len() - 1 ==> items.subrange(0, items.len() - 1)[i]
                == #[trigger] items[i]);
    }
}

pub proof fn lemma_members_view(ms: Seq<(String, Json)>)
    ensures
        members_view(ms).len() == ms.len(),
        forall|i: int| 0 <= i < ms.len() ==> members_view(ms)[i] == ((#[trigger] ms[i]).0@,
        json_view(ms[i].1)),
    decreases ms.len(),
{
    if ms.len() > 0 {
        lemma_members_view(ms.subrange(0, ms.len() - 1));
        assert(forall|i: int|
            0 <= i < ms.len() - 1 ==> ms.subrange(0, ms.len() - 1)[i] == #[trigger] ms[i]);
    }
}

impl View for Json {
    type V = JsonV;

    open spec fn view(&self) -> JsonV {
        json_view(*self)
    }
}

pub open spec fn is_ws(c: char) -> bool {
    c == ' ' || c == '\t' || c == '\n' || c == '\r'
}

/// First position at or after `pos` that does not hold whitespace.
pub open spec fn ws_end(s: Seq<char>, pos: int) -> int
    decreases s.len() - pos,
{
    if 0 <= pos < s.len() && is_ws(s[pos]) {
        ws_end(s, pos + 1)
    } else {
        pos
    }
}

pub proof fn lemma_ws_end(s: Seq<char>, pos: int)
    requires
        0 <= pos <= s.len(),
    ensures
        pos <= ws_end(s, pos) <= s.len(),
        ws_end(s, pos) < s.len() ==> !is_ws(s[ws_end(s, pos)]),
    decreases s.len() - pos,
{
    if pos < s.len() && is_ws(s[pos]) {
        lemma_ws_end(s, pos + 1);
    }
}

/// Position of the closing quote of a string whose content starts at
/// `pos`; a backslash carries the following character, whatever it is.
pub open spec fn string_end(s: Seq<char>, pos: int) -> Option<int>
    decreases s.len() - pos,
{
    if pos < 0 || pos >= s.len() {
        None
    } else if s[pos] == '"' {
        Some(pos)
    } else if s[pos] == '\\' {
        if pos + 1 < s.len() {
            string_end(s, pos + 2)
        } else {
            None
        }
    } else {
        string_end(s, pos + 1)
    }
}

pub proof fn lemma_string_end(s: Seq<char>, pos: int)
    requires
        0 <= pos <= s.len(),
    ensures
        string_end(s, pos) matches Some(e) ==> pos <= e < s.len() && s[e] == '"',
    decreases s.len() - pos,
{
    if pos < s.len() && s[pos] != '"' {
        if s[pos] == '\\' {
            if pos + 1 < s.len() {
                lemma_string_end(s, pos + 2);
            }
        } else {
            lemma_string_end(s, pos + 1);
        }
    }
}

/// The characters that may make up a raw number token.
pub open spec fn is_num_char(c: char) -> bool {
    crate::decimal::is_digit(c) || c == '-' || c == '+' || c == '.' || c == 'e' || c == 'E'
}

/// One past the last number character of the run starting at `pos`.
pub open spec fn num_end(s: Seq<char>, pos: int) -> int
    decreases s.len() - pos,
{
    if 0 <= pos < s.len() && is_num_char(s[pos]) {
        num_end(s, pos + 1)
    } else {
        pos
    }
}

pub proof fn lemma_num_end(s: Seq<char>, pos: int)
    requires
        0 <= pos <= s.len(),
    ensures
        pos <= num_end(s, pos) <= s.len(),
    decreases s.len() - pos,
{
    if pos < s.len() && is_num_char(s[pos]) {
        lemma_num_end(s, pos + 1);
    }
}

/// Whether the literal `lit` stands in `s` at `pos`.
pub open spec fn lit_at(s: Seq<char>, pos: int, lit: Seq<char>) -> bool {
    0 <= pos && pos + lit.len() <= s.len() && s.subrange(pos, pos + lit.len() as int) == lit
}

pub fn char_is_ws(c: char) -> (r: bool)
    ensures
        r == is_ws(c),
{
    c == ' ' || c == '\t' || c == '\n' || c == '\r'
}

pub fn char_is_num(c: char) -> (r: bool)
    ensures
        r == is_num_char(c),
{
    crate::decimal::char_is_digit(c) || c == '-' || c == '+' || c == '.' || c == 'e' || c
        == 'E'
}

/// Advances over whitespace.
pub fn skip_ws(s: &str, pos: usize) -> (r: usize)
    requires
        pos <= s@.len(),
    ensures
        r == ws_end(s@, pos as int),
        pos <= r <= s@.len(),
{
    let n = s.unicode_len();
    let mut p: usize = pos;
    while p < n && char_is_ws(s.get_char(p))
        invariant
            pos <= p <= n,
            n == s@.len(),
            ws_end(s@, pos as int) == ws_end(s@, p as int),
        decreases n - p,
    {
        p = p + 1;
    }
    p
}

/// Finds the closing quote of the string content that starts at `pos`.
pub fn find_string_end(s: &str, pos: usize) -> (r: Option<usize>)
    requires
        pos <= s@.len(),
    ensures
        match r {
            Some(e) => string_end(s@, pos as int) == Some(e as int) && pos <= e < s@.len(),
            None => string_end(s@, pos as int) is None,
        },
{
    let n = s.unicode_len();
    let mut p: usize = pos;
    loop
        invariant
            pos <= p <= n,
            n == s@.len(),
            string_end(s@, pos as int) == string_end(s@, p as int),
        decreases n - p,
    {
        if p >= n {
            return None;
        }
        let c = s.get_char(p);
        if c == '"' {
            return Some(p);
        }
        if c == '\\' {
            if p + 1 < n {
                p = p + 2;
            } else {
                return None;
            }
        } else {
            p = p + 1;
        }
    }
}

/// Advances over a raw number token.
pub fn find_num_end(s: &str, pos: usize) -> (r: usize)
    requires
        pos <= s@.len(),
    ensures
        r == num_end(s@, pos as int),
        pos <= r <= s@.len(),
{
    let n = s.unicode_len();
    let mut p: usize = pos;
    while p < n && char_is_num(s.get_char(p))
        invariant
            pos <= p <= n,
            n == s@.len(),
            num_end(s@, pos as int) == num_end(s@, p as int),
        decreases n - p,
    {
        p = p + 1;
    }
    p
}

/// Whether `lit` stands in `s` at `pos`.
pub fn expect_lit(s: &str, pos: usize, lit: &str) -> (r: bool)
    requires
        pos <= s@.len(),
    ensures
        r == lit_at(s@, pos as int, lit@),
{
    let n = s.unicode_len();
    let m = lit.unicode_len();
    if n - pos < m || pos > n - m {
        proof {
            assert(pos + lit@.len() > s@.len());
        }
        return false;
    }
    let mut i: usize = 0;
    while i < m
        invariant
            0 <= i <= m,
            m == lit@.len(),
            n == s@.len(),
            pos + m <= n,
            forall|j: int| 0 <= j < i ==> s@[pos + j] == lit@[j],
        decreases m - i,
    {
        if s.get_char(pos + i) != lit.get_char(i) {
            proof {
                assert(s@.subrange(pos as int, pos + lit@.len() as int)[i as int]
                    == s@[pos + i]);
            }
            return false;
        }
        i = i + 1;
    }
    proof {
        assert(s@.subrange(pos as int, pos + lit@.len() as int) =~= lit@);
    }
    true
}


/// Fuel that lets the parser finish on any frame it will ever see: every
/// fueled step consumes input, and no frame spends more than two units per
/// character.
pub open spec fn json_fuel(n: nat) -> nat {
    2 * n + 4
}

/// A value of the grammar at `pos`: a literal, a string, a number token,
/// an array or an object, with leading whitespace.  Yields the value and
/// the position one past it.
pub open spec fn parse_value(s: Seq<char>, pos: int, fuel: nat) -> Option<(JsonV, int)>
    decreases fuel,
{
    if fuel == 0 {
        None
    } else {
        let p = ws_end(s, pos);
        if p >= s.len() {
            None
        } else if s[p] == 'n' {
            if lit_at(s, p, "null"@) {
                Some((JsonV::Null, p + 4))
            } else {
                None
            }
        } else if s[p] == 't' {
            if lit_at(s, p, "true"@) {
                Some((JsonV::True, p + 4))
            } else {
                None
            }
        } else if s[p] == 'f' {
            if lit_at(s, p, "false"@) {
                Some((JsonV::False, p + 5))
            } else {
                None
            }
        } else if s[p] == '"' {
            match string_end(s, p + 1) {
                Some(e) => Some((JsonV::Str(s.subrange(p + 1, e)), e + 1)),
                None => None,
            }
        } else if s[p] == '{' {
            let q = ws_end(s, p + 1);
            if q < s.len() && s[q] == '}' {
                Some((JsonV::Obj(Seq::empty()), q + 1))
            } else {
                match parse_members(s, p + 1, (fuel - 1) as nat) {
                    Some((ms, e)) => Some((JsonV::Obj(ms), e)),
                    None => None,
                }
            }
        } else if s[p] == '[' {
            let q = ws_end(s, p + 1);
            if q < s.len() && s[q] == ']' {
                Some((JsonV::Arr(Seq::empty()), q + 1))
            } else {
                match parse_items(s, p + 1, (fuel - 1) as nat) {
                    Some((vs, e)) => Some((JsonV::Arr(vs), e)),
                    None => None,
                }
            }
        } else if is_num_char(s[p]) {
            Some((JsonV::Num(s.subrange(p, num_end(s, p))), num_end(s, p)))
        } else {
            None
        }
    }
}

/// The members of an object, from just after `{` or `,` through the
/// closing `}` inclusive.
pub open spec fn parse_members(s: Seq<char>, pos: int, fuel: nat) -> Option<
    (Seq<(Seq<char>, JsonV)>, int),
>
    decreases fuel,
{
    if fuel == 0 {
        None
    } else {
        let p = ws_end(s, pos);
        if p < s.len() && s[p] == '"' {
            match string_end(s, p + 1) {
                Some(e) => {
                    let key = s.subrange(p + 1, e);
                    let q = ws_end(s, e + 1);
                    if q < s.len() && s[q] == ':' {
                        match parse_value(s, q + 1, (fuel - 1) as nat) {
                            Some((v, r0)) => {
                                let t = ws_end(s, r0);
                                if t < s.len() && s[t] == ',' {
                                    match parse_members(s, t + 1, (fuel - 1) as nat) {
                                        Some((rest, u)) => Some(
                                            (seq![(key, v)] + rest, u),
                                        ),
                                        None => None,
                                    }
                                } else if t < s.len() && s[t] == '}' {
                                    Some((seq![(key, v)], t + 1))
                                } else {
                                    None
                                }
                            },
                            None => None,
                        }
                    } else {
                        None
                    }
                },
                None => None,
            }
        } else {
            None
        }
    }
}

/// The items of an array, from just after `[` or `,` through the closing
/// `]` inclusive.
pub open spec fn parse_items(s: Seq<char>, pos: int, fuel: nat) -> Option<(Seq<JsonV>, int)>
    decreases fuel,
{
    if fuel == 0 {
        None
    } else {
        match parse_value(s, pos, (fuel - 1) as nat) {
            Some((v, r0)) => {
                let t = ws_end(s, r0);
                if t < s.len() && s[t] == ',' {
                    match parse_items(s, t + 1, (fuel - 1) as nat) {
                        Some((rest, u)) => Some((seq![v] + rest, u)),
                        None => None,
                    }
                } else if t < s.len() && s[t] == ']' {
                    Some((seq![v], t + 1))
                } else {
                    None
                }
            },
            None => None,
        }
    }
}

/// Longest frame the decoder will look at.
pub const MAX_FRAME_LEN: usize = 1_000_000_000;

/// What the whole text denotes: one value, possibly wrapped in
/// whitespace, and nothing after it.  Texts beyond `MAX_FRAME_LEN`
/// characters are refused outright.
pub open spec fn parse_spec(s: Seq<char>) -> Option<JsonV> {
    if s.len() > MAX_FRAME_LEN {
        None
    } else {
        match parse_value(s, 0, json_fuel(s.len())) {
            Some((v, e)) => if ws_end(s, e) == s.len() {
                Some(v)
            } else {
                None
            },
            None => None,
        }
    }
}

fn parse_value_at(s: &str, pos: usize, fuel: u64) -> (r: Option<(Json, usize)>)
    requires
        pos <= s@.len(),
    ensures
        ({
            let sp = parse_value(s@, pos as int, fuel as nat);
            match (r, sp) {
                (Some(a), Some(b)) => json_view(a.0) == b.0 && a.1 == b.1 && a.1 <= s@.len(),
                (None, None) => true,
                _ => false,
            }
        }),
    decreases fuel,
{
    if fuel == 0 {
        return None;
    }
    let n = s.unicode_len();
    let p = skip_ws(s, pos);
    if p >= n {
        return None;
    }
    let c = s.get_char(p);
    if c == 'n' {
        if expect_lit(s, p, "null") {
            proof {
                reveal_strlit("null");
            }
            Some((Json::Null, p + 4))
        } else {
            None
        }
    } else if c == 't' {
        if expect_lit(s, p, "true") {
            proof {
                reveal_strlit("true");
            }
            Some((Json::True, p + 4))
        } else {
            None
        }
    } else if c == 'f' {
        if expect_lit(s, p, "false") {
            proof {
                reveal_strlit("false");
            }
            Some((Json::False, p + 5))
        } else {
            None
        }
    } else if c == '"' {
        match find_string_end(s, p + 1) {
            Some(e) => {
                let content = s.substring_char(p + 1, e).to_owned();
                Some((Json::Str(content), e + 1))
            },
            None => None,
        }
    } else if c == '{' {
        let q = skip_ws(s, p + 1);
        if q < n && s.get_char(q) == '}' {
            let ms: Vec<(String, Json)> = Vec::new();
            proof {
                lemma_members_view(ms@);
                assert(members_view(ms@) =~= Seq::<(Seq<char>, JsonV)>::empty());
            }
            Some((Json::Obj(ms), q + 1))
        } else {
            match parse_members_at(s, p + 1, fuel - 1) {
                Some((ms, e)) => Some((Json::Obj(ms), e)),
                None => None,
            }
        }
    } else if c == '[' {
        let q = skip_ws(s, p + 1);
        if q < n && s.get_char(q) == ']' {
            let items: Vec<Json> = Vec::new();
            proof {
                lemma_items_view(items@);
                assert(items_view(items@) =~= Seq::<JsonV>::empty());
            }
            Some((Json::Arr(items), q + 1))
        } else {
            match parse_items_at(s, p + 1, fuel - 1) {
                Some((items, e)) => Some((Json::Arr(items), e)),
                None => None,
            }
        }
    } else if char_is_num(c) {
        let e = find_num_end(s, p);
        let tok = s.substring_char(p, e).to_owned();
        Some((Json::Num(tok), e))
    } else {
        None
    }
}

fn parse_members_at(s: &str, pos: usize, fuel: u64) -> (r: Option<
    (Vec<(String, Json)>, usize),
>)
    requires
        pos <= s@.len(),
    ensures
        ({
            let sp = parse_members(s@, pos as int, fuel as nat);
            match (r, sp) {
                (Some(a), Some(b)) => members_view(a.0@) == b.0 && a.1 == b.1 && a.1
                    <= s@.len(),
                (None, None) => true,
                _ => false,
            }
        }),
    decreases fuel,
{
    if fuel == 0 {
        return None;
    }
    let n = s.unicode_len();
    let p = skip_ws(s, pos);
    if p >= n {
        return None;
    }
    if s.get_char(p) != '"' {
        return None;
    }
    match find_string_end(s, p + 1) {
        None => None,
        Some(e) => {
            let key = s.substring_char(p + 1, e).to_owned();
            let q = skip_ws(s, e + 1);
            if q < n && s.get_char(q) == ':' {
                match parse_value_at(s, q + 1, fuel - 1) {
                    None => None,
                    Some((v, r0)) => {
                        let t = skip_ws(s, r0);
                        if t < n && s.get_char(t) == ',' {
                            match parse_members_at(s, t + 1, fuel - 1) {
                                None => None,
                                Some((mut rest, u)) => {
                                    let ghost rest0 = rest@;
                                    let ghost keyv = key@;
                                    let ghost vv = json_view(v);
                                    rest.insert(0, (key, v));
                                    proof {
                                        lemma_members_view(rest0);
                                        lemma_members_view(rest@);
                                        assert(forall|i: int|
                                            1 <= i < rest@.len() ==> rest@[i] == rest0[
                                            i - 1]);
                                        assert(rest@[0].0@ == keyv && json_view(
                                            rest@[0].1,
                                        ) == vv);
                                        assert forall|i: int|
                                            0 <= i < rest@.len() implies members_view(
                                            rest@,
                                        )[i] == (seq![(keyv, vv)] + members_view(
                                            rest0,
                                        ))[i] by {
                                            if i == 0 {
                                                assert(members_view(rest@)[0] == (
                                                rest@[0].0@,
                                                json_view(rest@[0].1),
                                                ));
                                            } else {
                                                assert(rest@[i] == rest0[i - 1]);
                                                assert(members_view(rest@)[i] == (
                                                rest@[i].0@,
                                                json_view(rest@[i].1),
                                                ));
                                                assert(members_view(rest0)[i - 1] == (
                                                rest0[i - 1].0@,
                                                json_view(rest0[i - 1].1),
                                                ));
                                            }
                                        }
                                        assert(members_view(rest@) =~= seq![(keyv, vv)]
                                            + members_view(rest0));
                                    }
                                    Some((rest, u))
                                },
                            }
                        } else if t < n && s.get_char(t) == '}' {
                            let mut ms: Vec<(String, Json)> = Vec::new();
                            let ghost keyv = key@;
                            let ghost vv = json_view(v);
                            ms.push((key, v));
                            proof {
                                lemma_members_view(ms@);
                                assert(members_view(ms@) =~= seq![(keyv, vv)]);
                            }
                            Some((ms, t + 1))
                        } else {
                            None
                        }
                    },
                }
            } else {
                None
            }
        },
    }
}

fn parse_items_at(s: &str, pos: usize, fuel: u64) -> (r: Option<(Vec<Json>, usize)>)
    requires
        pos <= s@.len(),
    ensures
        ({
            let sp = parse_items(s@, pos as int, fuel as nat);
            match (r, sp) {
                (Some(a), Some(b)) => items_view(a.0@) == b.0 && a.1 == b.1 && a.1
                    <= s@.len(),
                (None, None) => true,
                _ => false,
            }
        }),
    decreases fuel,
{
    if fuel == 0 {
        return None;
    }
    let n = s.unicode_len();
    match parse_value_at(s, pos, fuel - 1) {
        None => None,
        Some((v, r0)) => {
            let t = skip_ws(s, r0);
            if t < n && s.get_char(t) == ',' {
                match parse_items_at(s, t + 1, fuel - 1) {
                    None => None,
                    Some((mut rest, u)) => {
                        let ghost rest0 = rest@;
                        let ghost vv = json_view(v);
                        rest.insert(0, v);
                        proof {
                            lemma_items_view(rest0);
                            lemma_items_view(rest@);
                            assert(forall|i: int|
                                1 <= i < rest@.len() ==> rest@[i] == rest0[i - 1]);
                            assert(json_view(rest@[0]) == vv);
                            assert forall|i: int|
                                0 <= i < rest@.len() implies items_view(rest@)[i] == (
                            seq![vv] + items_view(rest0))[i] by {
                                if i == 0 {
                                    assert(items_view(rest@)[0] == json_view(rest@[0]));
                                } else {
                                    assert(rest@[i] == rest0[i - 1]);
                                    assert(items_view(rest@)[i] == json_view(rest@[i]));
                                    assert(items_view(rest0)[i - 1] == json_view(
                                        rest0[i - 1],
                                    ));
                                }
                            }
                            assert(items_view(rest@) =~= seq![vv] + items_view(rest0));
                        }
                        Some((rest, u))
                    },
                }
            } else if t < n && s.get_char(t) == ']' {
                let mut items: Vec<Json> = Vec::new();
                let ghost vv = json_view(v);
                items.push(v);
                proof {
                    lemma_items_view(items@);
                    assert(items_view(items@) =~= seq![vv]);
                }
                Some((items, t + 1))
            } else {
                None
            }
        },
    }
}

/// Parses a whole frame: exactly the texts and values of `parse_spec`.
pub fn parse_json(s: &str) -> (r: Option<Json>)
    ensures
        match r {
            Some(j) => parse_spec(s@) == Some(json_view(j)),
            None => parse_spec(s@) is None,
        },
{
    let n = s.unicode_len();
    if n > MAX_FRAME_LEN {
        return None;
    }
    let fuel: u64 = 2 * (n as u64) + 4;
    match parse_value_at(s, 0, fuel) {
        Some((j, e)) => {
            if skip_ws(s, e) == n {
                Some(j)
            } else {
                None
            }
        },
        None => None,
    }
}

/// First value bound to `key` among the members of an object.
pub open spec fn lookup(ms: Seq<(Seq<char>, JsonV)>, key: Seq<char>) -> Option<JsonV>
    decreases ms.len(),
{
    if ms.len() == 0 {
        None
    } else if ms[0].0 == key {
        Some(ms[0].1)
    } else {
        lookup(ms.drop_first(), key)
    }
}

/// Looks a key up among an object's members.
pub fn obj_get<'a>(ms: &'a Vec<(String, Json)>, key: &String) -> (r: Option<&'a Json>)
    ensures
        match r {
            Some(j) => lookup(members_view(ms@), key@) == Some(json_view(*j)),
            None => lookup(members_view(ms@), key@) is None,
        },
{
    proof {
        lemma_members_view(ms@);
        assert(members_view(ms@).skip(0) =~= members_view(ms@));
    }
    let n = ms.len();
    let mut i: usize = 0;
    while i < n
        invariant
            0 <= i <= n,
            n == ms@.len(),
            members_view(ms@).len() == n,
            forall|k: int| 0 <= k < ms@.len() ==> members_view(ms@)[k] == ((
            #[trigger] ms@[k]).0@, json_view(ms@[k].1)),
            lookup(members_view(ms@), key@) == lookup(
                members_view(ms@).skip(i as int),
                key@,
            ),
        decreases n - i,
    {
        if ms[i].0.eq(key) {
            proof {
                assert(members_view(ms@).skip(i as int)[0] == members_view(ms@)[
                i as int]);
            }
            return Some(&ms[i].1);
        }
        proof {
            assert(members_view(ms@).skip(i as int).drop_first() =~= members_view(
                ms@,
            ).skip(i as int + 1));
            assert(members_view(ms@).skip(i as int)[0] == members_view(ms@)[i as int]);
        }
        i = i + 1;
    }
    proof {
        assert(members_view(ms@).skip(n as int) =~= Seq::<(Seq<char>, JsonV)>::empty());
    }
    None
}

} // verus!
