//! The callback side of the interactive login: the state machine of the
//! ephemeral local listener that captures the single authorization redirect.
//!
//! The listener itself — sockets, the HTTP loop, the background task — lives
//! in the surrounding binary. What is here is everything that decides: the
//! bind-policy cascade, the parsing of the one meaningful request's query
//! string, and the single-delivery channel that guarantees exactly one
//! outcome, delivered to exactly one waiter. The binary calls
//! [`CallbackChannel::handle_request`] under its lock for every request the
//! listener sees, in arrival order, and answers with the reply it returns.

use vstd::prelude::*;

use crate::claims::{first_sep, split_on, split_char};
use crate::utils::{is_hex_digit, hex_digit_val, hex_val};

verus! {

// --- bind policy ---

/// An address family to bind the listener on.
#[derive(Clone, Copy, Debug, PartialEq, Eq, Structural)]
pub enum AddrFamily {
    V4,
    V6,
}

/// How to bind the local server: the "prefer" modes try the primary family
/// first and fall back to the other only on bind failure; the "only" modes
/// never fall back.
#[derive(Clone, Copy, Debug, PartialEq, Eq, Structural)]
pub enum Bind {
    Prefer6,
    Prefer4,
    Only6,
    Only4,
}

/// The address families a bind policy attempts, in order.
pub open spec fn bind_candidates_spec(bind: Bind) -> Seq<AddrFamily> {
    match bind {
        Bind::Prefer6 => seq![AddrFamily::V6, AddrFamily::V4],
        Bind::Prefer4 => seq![AddrFamily::V4, AddrFamily::V6],
        Bind::Only6 => seq![AddrFamily::V6],
        Bind::Only4 => seq![AddrFamily::V4],
    }
}

/// The ordered list of address families to attempt for a bind policy; binding
/// short-circuits on the first family that binds, and exhausting the list is
/// a bind failure.
pub fn bind_candidates(bind: Bind) -> (r: Vec<AddrFamily>)
    ensures
        r@ == bind_candidates_spec(bind),
{
    let mut r: Vec<AddrFamily> = Vec::new();
    match bind {
        Bind::Prefer6 => {
            r.push(AddrFamily::V6);
            r.push(AddrFamily::V4);
        },
        Bind::Prefer4 => {
            r.push(AddrFamily::V4);
            r.push(AddrFamily::V6);
        },
        Bind::Only6 => {
            r.push(AddrFamily::V6);
        },
        Bind::Only4 => {
            r.push(AddrFamily::V4);
        },
    }
    proof {
        assert(r@ =~= bind_candidates_spec(bind));
    }
    r
}

// --- the captured redirect ---

/// The authorization result captured from the one meaningful redirect:
/// the code to exchange, and the round-tripped CSRF `state` value.
#[derive(Clone, Debug)]
pub struct FlowResult {
    pub code: String,
    pub state: Option<String>,
}

/// The mathematical content of a [`FlowResult`].
pub struct FlowResultView {
    pub code: Seq<char>,
    pub state: Option<Seq<char>>,
}

impl View for FlowResult {
    type V = FlowResultView;

    open spec fn view(&self) -> FlowResultView {
        FlowResultView {
            code: self.code@,
            state: match self.state {
                Some(s) => Some(s@),
                None => None,
            },
        }
    }
}

// --- query-string parsing ---

/// What percent-encoded text decodes to: `%` escapes of ASCII bytes become
/// the character, `+` becomes a space, everything else stands for itself.
/// `None` for a malformed or non-ASCII escape.
pub open spec fn pct_decode_spec(s: Seq<char>) -> Option<Seq<char>>
    decreases s.len(),
{
    if s.len() == 0 {
        Some(Seq::empty())
    } else if s[0] == '%' {
        if s.len() >= 3 && is_hex_digit(s[1]) && is_hex_digit(s[2]) && hex_digit_val(s[1]) * 16
            + hex_digit_val(s[2]) < 0x80 {
            match pct_decode_spec(s.skip(3)) {
                Some(rest) => Some(
                    seq![((hex_digit_val(s[1]) * 16 + hex_digit_val(s[2])) as u8) as char] + rest,
                ),
                None => None,
            }
        } else {
            None
        }
    } else {
        let c = if s[0] == '+' {
            ' '
        } else {
            s[0]
        };
        match pct_decode_spec(s.skip(1)) {
            Some(rest) => Some(seq![c] + rest),
            None => None,
        }
    }
}

/// Decode percent-encoded query text.
pub fn pct_decode(s: &str) -> (r: Option<String>)
    ensures
        match r {
            Some(d) => pct_decode_spec(s@) == Some(d@),
            None => pct_decode_spec(s@) is None,
        },
{
    let len = s.unicode_len();
    let mut out = String::new();
    let mut i: usize = 0;
    proof {
        assert(s@.skip(0) =~= s@);
        let r0 = pct_decode_spec(s@);
        if r0 is Some {
            assert(out@ + r0->Some_0 =~= r0->Some_0);
        }
    }
    while i < len
        invariant
            len == s@.len(),
            i <= len,
            match pct_decode_spec(s@.skip(i as int)) {
                Some(rest) => pct_decode_spec(s@) == Some(out@ + rest),
                None => pct_decode_spec(s@) is None,
            },
        decreases len - i,
    {
        let ghost tail = s@.skip(i as int);
        proof {
            assert(tail[0] == s@[i as int]);
            if tail.len() >= 3 {
                assert(tail[1] == s@[i as int + 1]);
                assert(tail[2] == s@[i as int + 2]);
            }
        }
        let c = s.get_char(i);
        let ghost out_before = out@;
        if c == '%' {
            if len - i < 3 {
                return None;
            }
            let h1 = match hex_val(s.get_char(i + 1)) {
                Some(v) => v,
                None => {
                    return None;
                },
            };
            let h2 = match hex_val(s.get_char(i + 2)) {
                Some(v) => v,
                None => {
                    return None;
                },
            };
            let b = h1 * 16 + h2;
            if b >= 0x80 {
                return None;
            }
            out.push(b as char);
            proof {
                assert(tail.skip(3) =~= s@.skip(i as int + 3));
                let decoded = ((hex_digit_val(tail[1]) * 16 + hex_digit_val(tail[2])) as u8) as char;
                assert(out@ =~= out_before.push(decoded));
                match pct_decode_spec(s@.skip(i as int + 3)) {
                    Some(rest2) => {
                        assert(pct_decode_spec(tail) == Some(seq![decoded] + rest2));
                        assert(out_before + (seq![decoded] + rest2) =~= out@ + rest2);
                    },
                    None => {
                        assert(pct_decode_spec(tail) is None);
                    },
                }
            }
            i = i + 3;
        } else {
            let d = if c == '+' {
                ' '
            } else {
                c
            };
            out.push(d);
            proof {
                assert(tail.skip(1) =~= s@.skip(i as int + 1));
                assert(out@ =~= out_before.push(d));
                match pct_decode_spec(s@.skip(i as int + 1)) {
                    Some(rest2) => {
                        assert(pct_decode_spec(tail) == Some(seq![d] + rest2));
                        assert(out_before + (seq![d] + rest2) =~= out@ + rest2);
                    },
                    None => {
                        assert(pct_decode_spec(tail) is None);
                    },
                }
            }
            i = i + 1;
        }
    }
    proof {
        assert(s@.skip(len as int) =~= Seq::<char>::empty());
        let rt = pct_decode_spec(s@.skip(len as int));
        assert(rt == Some(Seq::<char>::empty()));
        assert(out@ + Seq::<char>::empty() =~= out@);
    }
    Some(out)
}

/// One `key=value` pair of a query string, both sides decoded; a pair without
/// `=` has an empty value. `None` when a side fails to decode.
pub open spec fn pair_of(p: Seq<char>) -> Option<(Seq<char>, Seq<char>)> {
    let eq = first_sep(p, '=');
    let k = pct_decode_spec(p.take(eq));
    let v = if eq == p.len() {
        Some(Seq::<char>::empty())
    } else {
        pct_decode_spec(p.skip(eq + 1))
    };
    match (k, v) {
        (Some(kd), Some(vd)) => Some((kd, vd)),
        _ => None,
    }
}

/// All `key=value` pairs of the already-split query string; `None` as soon as
/// one of them is malformed.
pub open spec fn decode_pairs(ps: Seq<Seq<char>>) -> Option<Seq<(Seq<char>, Seq<char>)>>
    decreases ps.len(),
{
    if ps.len() == 0 {
        Some(Seq::empty())
    } else {
        match (pair_of(ps[0]), decode_pairs(ps.skip(1))) {
            (Some(p), Some(rest)) => Some(seq![p] + rest),
            _ => None,
        }
    }
}

/// Whether exactly one pair carries `key`.
pub open spec fn unique_key(pairs: Seq<(Seq<char>, Seq<char>)>, key: Seq<char>) -> bool {
    exists|i: int|
        0 <= i < pairs.len() && pairs[i].0 == key && (forall|j: int|
            0 <= j < pairs.len() && j != i ==> pairs[j].0 != key)
}

/// Whether no pair carries `key`.
pub open spec fn no_key(pairs: Seq<(Seq<char>, Seq<char>)>, key: Seq<char>) -> bool {
    forall|i: int| 0 <= i < pairs.len() ==> pairs[i].0 != key
}

/// The index of the one pair carrying `key`.
pub open spec fn key_index(pairs: Seq<(Seq<char>, Seq<char>)>, key: Seq<char>) -> int {
    choose|i: int| 0 <= i < pairs.len() && pairs[i].0 == key
}

/// What the query string of a meaningful callback request parses to: a `code`
/// value (exactly one), and at most one `state` value. Anything else — a
/// malformed pair, no `code`, a duplicated `code` or `state` — is not a
/// meaningful request.
pub open spec fn callback_query_of(q: Seq<char>) -> Option<FlowResultView> {
    match decode_pairs(split_on(q, '&')) {
        None => None,
        Some(pairs) => {
            if unique_key(pairs, "code"@) && (unique_key(pairs, "state"@) || no_key(
                pairs,
                "state"@,
            )) {
                Some(
                    FlowResultView {
                        code: pairs[key_index(pairs, "code"@)].1,
                        state: if unique_key(pairs, "state"@) {
                            Some(pairs[key_index(pairs, "state"@)].1)
                        } else {
                            None
                        },
                    },
                )
            } else {
                None
            }
        },
    }
}

/// Two distinct pairs carrying the same key rule a unique occurrence out.
proof fn lemma_not_unique_two(pairs: Seq<(Seq<char>, Seq<char>)>, key: Seq<char>, a: int, b: int)
    requires
        0 <= a < pairs.len(),
        0 <= b < pairs.len(),
        a != b,
        pairs[a].0 == key,
        pairs[b].0 == key,
    ensures
        !unique_key(pairs, key),
{
    if unique_key(pairs, key) {
        let w = choose|i: int|
            0 <= i < pairs.len() && pairs[i].0 == key && (forall|j: int|
                0 <= j < pairs.len() && j != i ==> pairs[j].0 != key);
        if w != a {
            assert(pairs[a].0 != key);
        } else {
            assert(pairs[b].0 != key);
        }
    }
}

/// A key no pair carries occurs uniquely in none of them.
proof fn lemma_not_unique_absent(pairs: Seq<(Seq<char>, Seq<char>)>, key: Seq<char>)
    requires
        no_key(pairs, key),
    ensures
        !unique_key(pairs, key),
{
    if unique_key(pairs, key) {
        let w = choose|i: int|
            0 <= i < pairs.len() && pairs[i].0 == key && (forall|j: int|
                0 <= j < pairs.len() && j != i ==> pairs[j].0 != key);
        assert(pairs[w].0 != key);
    }
}

/// A pair that carries `key`, alone among all of them, is the unique
/// occurrence, and `key_index` finds it.
proof fn lemma_unique_at(pairs: Seq<(Seq<char>, Seq<char>)>, key: Seq<char>, a: int)
    requires
        0 <= a < pairs.len(),
        pairs[a].0 == key,
        forall|j: int| 0 <= j < pairs.len() && j != a ==> pairs[j].0 != key,
    ensures
        unique_key(pairs, key),
        key_index(pairs, key) == a,
{
    assert(unique_key(pairs, key));
    let w = key_index(pairs, key);
    assert(0 <= w < pairs.len() && pairs[w].0 == key);
}

/// Split one `key=value` piece and decode both sides.
fn parse_pair(p: &str) -> (r: Option<(String, String)>)
    ensures
        match r {
            Some(kv) => pair_of(p@) == Some((kv.0@, kv.1@)),
            None => pair_of(p@) is None,
        },
{
    let len = p.unicode_len();
    let mut j: usize = 0;
    while j < len && p.get_char(j) != '='
        invariant
            len == p@.len(),
            j <= len,
            forall|k: int| 0 <= k < j ==> p@[k] != '=',
        decreases len - j,
    {
        j = j + 1;
    }
    proof {
        crate::claims::lemma_first_sep(p@, '=', j as int);
    }
    let key_part = p.substring_char(0, j);
    let key = match pct_decode(key_part) {
        Some(k) => k,
        None => {
            proof {
                assert(p@.take(j as int) =~= key_part@);
            }
            return None;
        },
    };
    proof {
        assert(p@.take(j as int) =~= key_part@);
    }
    if j == len {
        let value = String::new();
        return Some((key, value));
    }
    let value_part = p.substring_char(j + 1, len);
    proof {
        assert(p@.skip(j as int + 1) =~= value_part@);
    }
    match pct_decode(value_part) {
        Some(v) => Some((key, v)),
        None => None,
    }
}

/// Parse the query string of a callback request into the captured result.
pub fn parse_callback_query(q: &str) -> (r: Option<FlowResult>)
    ensures
        match r {
            Some(res) => callback_query_of(q@) == Some(res@),
            None => callback_query_of(q@) is None,
        },
{
    let parts = split_char(q, '&');
    let n = parts.len();
    let ghost pieces = parts.deep_view();
    let mut pairs: Vec<(String, String)> = Vec::new();
    proof {
        assert(pieces.skip(0) =~= pieces);
        let r0 = decode_pairs(pieces);
        if r0 is Some {
            assert(pairs.deep_view() + r0->Some_0 =~= r0->Some_0);
        }
    }
    for i in 0..n
        invariant
            n == pieces.len(),
            pieces == parts.deep_view(),
            pieces == split_on(q@, '&'),
            match decode_pairs(pieces.skip(i as int)) {
                Some(rest) => decode_pairs(pieces) == Some(pairs.deep_view() + rest),
                None => decode_pairs(pieces) is None,
            },
    {
        let ghost tail = pieces.skip(i as int);
        proof {
            assert(tail[0] == pieces[i as int]);
            assert(parts.deep_view()[i as int] == parts@[i as int]@);
        }
        let pair = match parse_pair(&parts[i]) {
            Some(kv) => kv,
            None => {
                return None;
            },
        };
        let ghost pairs_before = pairs.deep_view();
        pairs.push(pair);
        proof {
            assert(pairs.deep_view() =~= pairs_before.push((pair.0@, pair.1@)));
            assert(tail.skip(1) =~= pieces.skip(i as int + 1));
            match decode_pairs(pieces.skip(i as int + 1)) {
                Some(rest2) => {
                    assert(decode_pairs(tail) == Some(seq![(pair.0@, pair.1@)] + rest2));
                    assert(pairs_before + (seq![(pair.0@, pair.1@)] + rest2) =~= pairs.deep_view()
                        + rest2);
                },
                None => {
                    assert(decode_pairs(tail) is None);
                },
            }
        }
    }
    proof {
        assert(pieces.skip(n as int) =~= Seq::<Seq<char>>::empty());
        assert(decode_pairs(pieces) == Some(pairs.deep_view() + Seq::<(Seq<char>, Seq<char>)>::empty()));
        assert(pairs.deep_view() + Seq::<(Seq<char>, Seq<char>)>::empty() =~= pairs.deep_view());
    }
    let ghost dpairs = pairs.deep_view();
    // find `code` and `state`, rejecting duplicates
    let mut code: Option<String> = None;
    let mut state: Option<String> = None;
    let ghost mut code_at: int = 0;
    let ghost mut state_at: int = 0;
    let code_key = String::from_str("code");
    let state_key = String::from_str("state");
    let m = pairs.len();
    for i in 0..m
        invariant
            m == dpairs.len(),
            dpairs == pairs.deep_view(),
            code_key@ == "code"@,
            state_key@ == "state"@,
            decode_pairs(split_on(q@, '&')) == Some(dpairs),
            match code {
                Some(c) => 0 <= code_at < i && dpairs[code_at].0 == "code"@ && c@
                    == dpairs[code_at].1 && (forall|j: int|
                    0 <= j < i && j != code_at ==> dpairs[j].0 != "code"@),
                None => forall|j: int| 0 <= j < i ==> dpairs[j].0 != "code"@,
            },
            match state {
                Some(s) => 0 <= state_at < i && dpairs[state_at].0 == "state"@ && s@
                    == dpairs[state_at].1 && (forall|j: int|
                    0 <= j < i && j != state_at ==> dpairs[j].0 != "state"@),
                None => forall|j: int| 0 <= j < i ==> dpairs[j].0 != "state"@,
            },
    {
        proof {
            assert(dpairs[i as int] == (pairs@[i as int].0@, pairs@[i as int].1@));
            reveal_strlit("code");
            reveal_strlit("state");
            assert("code"@.len() == 4);
            assert("state"@.len() == 5);
        }
        if pairs[i].0.eq(&code_key) {
            if code.is_some() {
                proof {
                    lemma_not_unique_two(dpairs, "code"@, code_at, i as int);
                }
                return None;
            }
            code = Some(pairs[i].1.clone());
            proof {
                code_at = i as int;
            }
        } else if pairs[i].0.eq(&state_key) {
            if state.is_some() {
                proof {
                    lemma_not_unique_two(dpairs, "state"@, state_at, i as int);
                }
                return None;
            }
            state = Some(pairs[i].1.clone());
            proof {
                state_at = i as int;
            }
        }
    }
    let code = match code {
        Some(c) => c,
        None => {
            proof {
                lemma_not_unique_absent(dpairs, "code"@);
            }
            return None;
        },
    };
    proof {
        lemma_unique_at(dpairs, "code"@, code_at);
        match &state {
            Some(s) => {
                lemma_unique_at(dpairs, "state"@, state_at);
            },
            None => {
                lemma_not_unique_absent(dpairs, "state"@);
            },
        }
    }
    Some(FlowResult { code, state })
}

/// The query part of a request target: the characters after the first `?`.
pub open spec fn target_query_of(t: Seq<char>) -> Option<Seq<char>> {
    let f = first_sep(t, '?');
    if f == t.len() {
        None
    } else {
        Some(t.skip(f + 1))
    }
}

/// Extract the query string from a request target such as `/?code=abc`.
pub fn query_of_target(target: &str) -> (r: Option<String>)
    ensures
        match r {
            Some(q) => target_query_of(target@) == Some(q@),
            None => target_query_of(target@) is None,
        },
{
    let len = target.unicode_len();
    let mut j: usize = 0;
    while j < len && target.get_char(j) != '?'
        invariant
            len == target@.len(),
            j <= len,
            forall|k: int| 0 <= k < j ==> target@[k] != '?',
        decreases len - j,
    {
        j = j + 1;
    }
    proof {
        crate::claims::lemma_first_sep(target@, '?', j as int);
    }
    if j == len {
        None
    } else {
        let q = target.substring_char(j + 1, len);
        proof {
            assert(target@.skip(j as int + 1) =~= q@);
        }
        Some(String::from_str(q))
    }
}

// --- the single-delivery channel ---

/// The listener's phase: still waiting for the one meaningful request, or
/// already holding its outcome. Terminal phases are never left.
#[derive(Clone, Copy, Debug, PartialEq, Eq, Structural)]
pub enum ServerPhase {
    Listening,
    Delivered,
    Errored,
}

/// The reply the listener sends for a request.
#[derive(Clone, Copy, Debug, PartialEq, Eq, Structural)]
pub enum HttpReply {
    /// The "you may close this window" page.
    Ok200,
    /// The delivery slot is already taken.
    Gone410,
    /// Not a meaningful callback request.
    BadRequest400,
}

/// The single-delivery channel between the listener and the waiting flow:
/// at most one outcome is ever filled in, and it is taken out at most once.
pub struct CallbackChannel {
    pub phase: ServerPhase,
    /// The one outcome, from its delivery until it is consumed.
    pub pending: Option<Result<FlowResult, String>>,
}

/// The mathematical content of a [`CallbackChannel`].
pub struct CallbackChannelView {
    pub phase: ServerPhase,
    pub pending: Option<Result<FlowResultView, Seq<char>>>,
}

impl View for CallbackChannel {
    type V = CallbackChannelView;

    open spec fn view(&self) -> CallbackChannelView {
        CallbackChannelView {
            phase: self.phase,
            pending: match self.pending {
                Some(Ok(res)) => Some(Ok(res@)),
                Some(Err(msg)) => Some(Err(msg@)),
                None => None,
            },
        }
    }
}

/// What handling one request does to the channel, and what it replies: a
/// malformed request changes nothing; the first meaningful request while the
/// slot is open delivers its result; every later one sees Gone.
pub open spec fn handle_spec(ch: CallbackChannelView, q: Seq<char>) -> (
    CallbackChannelView,
    HttpReply,
) {
    match callback_query_of(q) {
        None => (ch, HttpReply::BadRequest400),
        Some(res) => {
            if ch.phase is Listening {
                (
                    CallbackChannelView { phase: ServerPhase::Delivered, pending: Some(Ok(res)) },
                    HttpReply::Ok200,
                )
            } else {
                (ch, HttpReply::Gone410)
            }
        },
    }
}

/// What a listener failure does to the channel: while the slot is open, the
/// error becomes the one delivered outcome; afterwards it is dropped.
pub open spec fn fail_spec(ch: CallbackChannelView, msg: Seq<char>) -> CallbackChannelView {
    if ch.phase is Listening {
        CallbackChannelView { phase: ServerPhase::Errored, pending: Some(Err(msg)) }
    } else {
        ch
    }
}

impl CallbackChannel {
    /// An open delivery slot: the channel only ever holds an outcome once a
    /// request or a failure has filled it.
    pub open spec fn wf(self) -> bool {
        self.phase is Listening ==> self.pending is None
    }

    /// A channel for a freshly started listener.
    pub fn new() -> (r: CallbackChannel)
        ensures
            r@.phase is Listening,
            r@.pending is None,
            r.wf(),
    {
        CallbackChannel { phase: ServerPhase::Listening, pending: None }
    }

    /// Handle one request's query string, in arrival order under the
    /// listener's lock, and reply as [`handle_spec`] says.
    pub fn handle_request(&mut self, query: &str) -> (reply: HttpReply)
        requires
            old(self).wf(),
        ensures
            final(self).wf(),
            (final(self)@, reply) == handle_spec(old(self)@, query@),
    {
        match parse_callback_query(query) {
            None => HttpReply::BadRequest400,
            Some(res) => {
                match self.phase {
                    ServerPhase::Listening => {
                        self.phase = ServerPhase::Delivered;
                        self.pending = Some(Ok(res));
                        HttpReply::Ok200
                    },
                    _ => HttpReply::Gone410,
                }
            },
        }
    }

    /// Record a listener failure, as [`fail_spec`] says: delivered through
    /// the same single slot, so the waiter still sees exactly one outcome.
    pub fn report_failure(&mut self, msg: String)
        requires
            old(self).wf(),
        ensures
            final(self).wf(),
            final(self)@ == fail_spec(old(self)@, msg@),
    {
        match self.phase {
            ServerPhase::Listening => {
                self.phase = ServerPhase::Errored;
                self.pending = Some(Err(msg));
            },
            _ => {},
        }
    }

    /// Consume the delivered outcome. It is handed out exactly once: a second
    /// call finds nothing, whatever the phase.
    pub fn take_result(&mut self) -> (r: Option<Result<FlowResult, String>>)
        requires
            old(self).wf(),
        ensures
            final(self).wf(),
            r == old(self).pending,
            final(self).pending is None,
            final(self).phase == old(self).phase,
    {
        self.pending.take()
    }
}

// --- the channel's laws ---

/// Two requests racing for the delivery slot, in the order the listener's
/// lock admits them: the first meaningful one gets the success page and its
/// result is delivered; the other sees Gone, and what was delivered stands.
pub proof fn lemma_single_delivery(ch: CallbackChannelView, q1: Seq<char>, q2: Seq<char>)
    requires
        ch.phase is Listening,
        callback_query_of(q1) is Some,
        callback_query_of(q2) is Some,
    ensures
        ({
            let (ch1, r1) = handle_spec(ch, q1);
            let (ch2, r2) = handle_spec(ch1, q2);
            &&& r1 == HttpReply::Ok200
            &&& r2 == HttpReply::Gone410
            &&& ch1.pending == Some(Ok::<FlowResultView, Seq<char>>(callback_query_of(q1)->Some_0))
            &&& ch2 == ch1
        }),
{
}

/// Once the channel has left `Listening`, no request changes it again: the
/// delivered outcome is never overwritten.
pub proof fn lemma_terminal_stays(ch: CallbackChannelView, q: Seq<char>)
    requires
        !(ch.phase is Listening),
    ensures
        handle_spec(ch, q).0 == ch,
        handle_spec(ch, q).1 != HttpReply::Ok200,
{
}

/// The replies a run of requests receives, in arrival order, each one
/// handled on the channel state the previous requests left behind.
pub open spec fn replies_of(ch: CallbackChannelView, qs: Seq<Seq<char>>) -> Seq<HttpReply>
    decreases qs.len(),
{
    if qs.len() == 0 {
        Seq::empty()
    } else {
        seq![handle_spec(ch, qs[0]).1] + replies_of(handle_spec(ch, qs[0]).0, qs.skip(1))
    }
}

/// A run of requests gets one reply each.
pub proof fn lemma_replies_len(ch: CallbackChannelView, qs: Seq<Seq<char>>)
    ensures
        replies_of(ch, qs).len() == qs.len(),
    decreases qs.len(),
{
    if qs.len() > 0 {
        lemma_replies_len(handle_spec(ch, qs[0]).0, qs.skip(1));
    }
}

/// A channel that is no longer listening sends the success page to nobody.
proof fn lemma_no_delivery_when_terminal(ch: CallbackChannelView, qs: Seq<Seq<char>>)
    requires
        !(ch.phase is Listening),
    ensures
        forall|i: int|
            0 <= i < qs.len() ==> #[trigger] replies_of(ch, qs)[i] != HttpReply::Ok200,
    decreases qs.len(),
{
    if qs.len() > 0 {
        let ch1 = handle_spec(ch, qs[0]).0;
        let r0 = handle_spec(ch, qs[0]).1;
        lemma_terminal_stays(ch, qs[0]);
        lemma_no_delivery_when_terminal(ch1, qs.skip(1));
        lemma_replies_len(ch1, qs.skip(1));
        assert(replies_of(ch, qs) == seq![r0] + replies_of(ch1, qs.skip(1)));
        assert forall|i: int|
            0 <= i < qs.len() implies #[trigger] replies_of(ch, qs)[i] != HttpReply::Ok200 by {
            if i > 0 {
                assert(replies_of(ch, qs)[i] == (seq![r0] + replies_of(ch1, qs.skip(1)))[i]);
                assert((seq![r0] + replies_of(ch1, qs.skip(1)))[i] == replies_of(
                    ch1,
                    qs.skip(1),
                )[i - 1]);
            }
        };
    }
}

/// At-most-one successful delivery: whatever requests arrive, and in whatever
/// state the channel starts, no two of them receive the success page.
pub proof fn lemma_at_most_one_delivery(ch: CallbackChannelView, qs: Seq<Seq<char>>)
    ensures
        forall|i: int, j: int|
            0 <= i < j < qs.len() && #[trigger] replies_of(ch, qs)[i] == HttpReply::Ok200
                ==> #[trigger] replies_of(ch, qs)[j] != HttpReply::Ok200,
    decreases qs.len(),
{
    if qs.len() > 0 {
        let ch1 = handle_spec(ch, qs[0]).0;
        let r0 = handle_spec(ch, qs[0]).1;
        lemma_at_most_one_delivery(ch1, qs.skip(1));
        lemma_replies_len(ch1, qs.skip(1));
        assert(replies_of(ch, qs) == seq![r0] + replies_of(ch1, qs.skip(1)));
        assert forall|i: int, j: int|
            0 <= i < j < qs.len() && #[trigger] replies_of(ch, qs)[i] == HttpReply::Ok200
                implies #[trigger] replies_of(ch, qs)[j] != HttpReply::Ok200 by {
            assert(replies_of(ch, qs)[j] == (seq![r0] + replies_of(ch1, qs.skip(1)))[j]);
            assert((seq![r0] + replies_of(ch1, qs.skip(1)))[j] == replies_of(
                ch1,
                qs.skip(1),
            )[j - 1]);
            if i == 0 {
                // the first request delivered, so the channel is terminal after it
                assert(r0 == HttpReply::Ok200);
                assert(ch1.phase is Delivered);
                lemma_no_delivery_when_terminal(ch1, qs.skip(1));
            } else {
                assert(replies_of(ch, qs)[i] == (seq![r0] + replies_of(ch1, qs.skip(1)))[i]);
                assert((seq![r0] + replies_of(ch1, qs.skip(1)))[i] == replies_of(
                    ch1,
                    qs.skip(1),
                )[i - 1]);
            }
        };
    }
}

} // verus!
