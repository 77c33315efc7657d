//! The persisted form of a cached client state.
//!
//! A `ClientState` is laid out as one line of text: each string field is
//! length-prefixed with sixteen hexadecimal digits, each optional field is
//! preceded by a `1`/`0` marker, and the expiry timestamp is sixteen
//! hexadecimal digits of its two's-complement bits. Length prefixes make
//! escaping unnecessary, whatever characters the tokens hold. Decoding
//! accepts exactly what encoding produces: the round trip gives the state
//! back field for field.

use vstd::prelude::*;

use crate::config::{ClientState, ClientStateView};
use crate::utils::{hex_char, hex_digit_char, hex_digit_val, hex_val, is_hex_digit};

verus! {

/// The `k`-th four-bit group of `x`, counting from the least significant.
pub open spec fn nibble_of(x: u64, k: int) -> u64
    recommends
        0 <= k < 16,
{
    (x >> ((4 * k) as u64)) & 0xf
}

/// The sixteen hexadecimal digits of `x`, most significant first.
pub open spec fn hex16_of(x: u64) -> Seq<char> {
    Seq::new(16, |j: int| hex_digit_char(nibble_of(x, 15 - j) as int))
}

/// Whether `s` is exactly sixteen hexadecimal digits.
pub open spec fn is_hex16(s: Seq<char>) -> bool {
    s.len() == 16 && forall|j: int| 0 <= j < 16 ==> is_hex_digit(#[trigger] s[j])
}

/// The value of sixteen hexadecimal digits, most significant first.
#[verifier::opaque]
pub open spec fn hex16_val(s: Seq<char>) -> u64
    recommends
        is_hex16(s),
{
    ((hex_digit_val(s[0]) as u64) << 60) | ((hex_digit_val(s[1]) as u64) << 56) | ((hex_digit_val(
        s[2],
    ) as u64) << 52) | ((hex_digit_val(s[3]) as u64) << 48) | ((hex_digit_val(s[4]) as u64) << 44)
        | ((hex_digit_val(s[5]) as u64) << 40) | ((hex_digit_val(s[6]) as u64) << 36) | ((
    hex_digit_val(s[7]) as u64) << 32) | ((hex_digit_val(s[8]) as u64) << 28) | ((hex_digit_val(
        s[9],
    ) as u64) << 24) | ((hex_digit_val(s[10]) as u64) << 20) | ((hex_digit_val(s[11]) as u64)
        << 16) | ((hex_digit_val(s[12]) as u64) << 12) | ((hex_digit_val(s[13]) as u64) << 8) | ((
    hex_digit_val(s[14]) as u64) << 4) | (hex_digit_val(s[15]) as u64)
}

/// Every four-bit group is below sixteen.
proof fn lemma_nibble_bound(x: u64, k: int)
    requires
        0 <= k < 16,
    ensures
        nibble_of(x, k) < 16,
{
    let s = (4 * k) as u64;
    assert((x >> s) & 0xf < 16) by (bit_vector);
}

/// Reading the sixteen digits of `x` back gives `x`.
pub proof fn lemma_hex16_roundtrip(x: u64)
    ensures
        is_hex16(hex16_of(x)),
        hex16_val(hex16_of(x)) == x,
{
    reveal(hex16_val);
    let s = hex16_of(x);
    assert forall|j: int| 0 <= j < 16 implies is_hex_digit(#[trigger] s[j]) && hex_digit_val(s[j])
        == nibble_of(x, 15 - j) by {
        lemma_nibble_bound(x, 15 - j);
        crate::utils::lemma_hex_digit_roundtrip(nibble_of(x, 15 - j) as int);
    };
    assert(x == (((x >> 60) & 0xf) << 60) | (((x >> 56) & 0xf) << 56) | (((x >> 52) & 0xf) << 52)
        | (((x >> 48) & 0xf) << 48) | (((x >> 44) & 0xf) << 44) | (((x >> 40) & 0xf) << 40) | (((x
        >> 36) & 0xf) << 36) | (((x >> 32) & 0xf) << 32) | (((x >> 28) & 0xf) << 28) | (((x >> 24)
        & 0xf) << 24) | (((x >> 20) & 0xf) << 20) | (((x >> 16) & 0xf) << 16) | (((x >> 12) & 0xf)
        << 12) | (((x >> 8) & 0xf) << 8) | (((x >> 4) & 0xf) << 4) | ((x >> 0) & 0xf)) by (bit_vector);
    assert((4 * 0) as u64 == 0u64);
    assert(hex_digit_val(s[15]) == nibble_of(x, 0));
    assert(hex16_val(s) == x);
}

/// Append the sixteen hexadecimal digits of `x`.
fn push_hex16(x: u64, out: &mut String)
    ensures
        final(out)@ == old(out)@ + hex16_of(x),
{
    let mut j: usize = 0;
    proof {
        assert(out@ =~= old(out)@ + hex16_of(x).take(0));
    }
    while j < 16
        invariant
            j <= 16,
            out@ == old(out)@ + hex16_of(x).take(j as int),
        decreases 16 - j,
    {
        let shift: u64 = 4 * (15 - j as u64);
        let nib = ((x >> shift) & 0xf) as u8;
        proof {
            lemma_nibble_bound(x, 15 - j as int);
            assert(nib == nibble_of(x, 15 - j as int));
        }
        out.push(hex_char(nib));
        proof {
            assert(hex16_of(x)[j as int] == hex_digit_char(nibble_of(x, 15 - j as int) as int));
            assert(hex16_of(x).take(j as int + 1) =~= hex16_of(x).take(j as int).push(
                hex16_of(x)[j as int],
            ));
            assert(out@ =~= old(out)@ + hex16_of(x).take(j as int + 1));
        }
        j = j + 1;
    }
    proof {
        assert(hex16_of(x).take(16) =~= hex16_of(x));
    }
}

/// Read sixteen hexadecimal digits of `s` starting at `p`.
fn read_hex16(s: &str, p: usize) -> (r: Option<u64>)
    requires
        p + 16 <= s@.len(),
        s@.len() <= usize::MAX,
    ensures
        match r {
            Some(y) => is_hex16(s@.subrange(p as int, p as int + 16)) && y == hex16_val(
                s@.subrange(p as int, p as int + 16),
            ),
            None => !is_hex16(s@.subrange(p as int, p as int + 16)),
        },
{
    let ghost digits = s@.subrange(p as int, p as int + 16);
    let mut ds: Vec<u8> = Vec::new();
    let mut j: usize = 0;
    while j < 16
        invariant
            j <= 16,
            p + 16 <= s@.len(),
            s@.len() <= usize::MAX,
            digits == s@.subrange(p as int, p as int + 16),
            ds@.len() == j,
            forall|k: int| 0 <= k < j ==> is_hex_digit(#[trigger] digits[k]),
            forall|k: int| 0 <= k < j ==> #[trigger] ds@[k] == hex_digit_val(digits[k]),
        decreases 16 - j,
    {
        proof {
            assert(digits[j as int] == s@[p as int + j]);
        }
        let c = s.get_char(p + j);
        let d = match hex_val(c) {
            Some(d) => d,
            None => {
                return None;
            },
        };
        let ghost ds_before = ds@;
        ds.push(d);
        proof {
            assert(c == digits[j as int]);
            assert forall|k: int| 0 <= k < j + 1 implies is_hex_digit(#[trigger] digits[k]) by {
                if k == j {
                    assert(is_hex_digit(c));
                }
            };
            assert forall|k: int|
                0 <= k < j + 1 implies #[trigger] ds@[k] == hex_digit_val(digits[k]) by {
                if k < j {
                    assert(ds_before[k] == hex_digit_val(digits[k]));
                    assert(ds@[k] == ds_before[k]);
                } else {
                    assert(ds@[k] == d);
                }
            };
        }
        j = j + 1;
    }
    proof {
        assert(forall|k: int| 0 <= k < 16 ==> hex_digit_val(#[trigger] digits[k]) < 16);
    }
    let y = ((ds[0] as u64) << 60u64) | ((ds[1] as u64) << 56u64) | ((ds[2] as u64) << 52u64) | ((
    ds[3] as u64) << 48u64) | ((ds[4] as u64) << 44u64) | ((ds[5] as u64) << 40u64) | ((ds[6]
        as u64) << 36u64) | ((ds[7] as u64) << 32u64) | ((ds[8] as u64) << 28u64) | ((ds[9] as u64)
        << 24u64) | ((ds[10] as u64) << 20u64) | ((ds[11] as u64) << 16u64) | ((ds[12] as u64)
        << 12u64) | ((ds[13] as u64) << 8u64) | ((ds[14] as u64) << 4u64) | (ds[15] as u64);
    proof {
        reveal(hex16_val);
        assert(y == hex16_val(digits));
    }
    Some(y)
}

/// The timestamp's sixteen-digit value: its two's-complement bits.
pub open spec fn u64_of_ts(e: int) -> u64
    recommends
        i64::MIN <= e <= i64::MAX,
{
    if e >= 0 {
        e as u64
    } else {
        (e + 0x10000000000000000) as u64
    }
}

/// The timestamp a sixteen-digit value stands for.
pub open spec fn ts_of_u64(y: u64) -> int {
    if y <= i64::MAX as u64 {
        y as int
    } else {
        y as int - 0x10000000000000000
    }
}

/// Reading a timestamp's bits back gives the timestamp.
pub proof fn lemma_ts_roundtrip(e: int)
    requires
        i64::MIN <= e <= i64::MAX,
    ensures
        ts_of_u64(u64_of_ts(e)) == e,
{
}

/// The two's-complement bits of a timestamp.
fn ts_bits(e: i64) -> (r: u64)
    ensures
        r == u64_of_ts(e as int),
{
    if e >= 0 {
        e as u64
    } else {
        let mag = (-(e + 1)) as u64;
        u64::MAX - mag
    }
}

/// The timestamp whose two's-complement bits are `y`.
fn ts_from_bits(y: u64) -> (r: i64)
    ensures
        r as int == ts_of_u64(y),
{
    if y <= i64::MAX as u64 {
        y as i64
    } else {
        let mag = u64::MAX - y;
        -(mag as i64) - 1
    }
}

/// A string field in the persisted form: its length, then its characters.
pub open spec fn enc_str(t: Seq<char>) -> Seq<char> {
    hex16_of(t.len() as u64) + t
}

/// An optional string field: a presence marker, then the field.
pub open spec fn enc_opt_str(t: Option<Seq<char>>) -> Seq<char> {
    match t {
        Some(v) => seq!['1'] + enc_str(v),
        None => seq!['0'],
    }
}

/// The optional expiry: a presence marker, then the timestamp's bits.
pub open spec fn enc_expires(e: Option<int>) -> Seq<char> {
    match e {
        Some(v) => seq!['1'] + hex16_of(u64_of_ts(v)),
        None => seq!['0'],
    }
}

/// The persisted form of a cached state.
pub open spec fn encode_state_spec(s: ClientStateView) -> Seq<char> {
    enc_str(s.access_token) + enc_opt_str(s.id_token) + enc_opt_str(s.refresh_token) + enc_expires(
        s.expires,
    )
}

/// Append a length-prefixed string field.
fn push_str_field(t: &String, out: &mut String)
    ensures
        final(out)@ == old(out)@ + enc_str(t@),
{
    let len = t.as_str().unicode_len();
    push_hex16(len as u64, out);
    out.append(t.as_str());
    proof {
        assert(out@ =~= old(out)@ + enc_str(t@));
    }
}

/// Encode a cached state to its persisted form.
pub fn encode_client_state(s: &ClientState) -> (r: String)
    ensures
        r@ == encode_state_spec(s@),
{
    let mut out = String::new();
    push_str_field(&s.access_token, &mut out);
    match &s.id_token {
        Some(t) => {
            out.push('1');
            push_str_field(t, &mut out);
        },
        None => {
            out.push('0');
        },
    }
    match &s.refresh_token {
        Some(t) => {
            out.push('1');
            push_str_field(t, &mut out);
        },
        None => {
            out.push('0');
        },
    }
    match s.expires {
        Some(e) => {
            out.push('1');
            push_hex16(ts_bits(e), &mut out);
        },
        None => {
            out.push('0');
        },
    }
    proof {
        assert(out@ =~= encode_state_spec(s@));
    }
    out
}

/// Read a length-prefixed string field of `s` at `p`: `None` when the prefix
/// is not hexadecimal or the text is shorter than the prefix says.
pub open spec fn dec_str_at(s: Seq<char>, p: int) -> Option<(Seq<char>, int)>
    recommends
        0 <= p <= s.len(),
{
    if p + 16 > s.len() {
        None
    } else if !is_hex16(s.subrange(p, p + 16)) {
        None
    } else {
        let l = hex16_val(s.subrange(p, p + 16)) as int;
        if s.len() - (p + 16) < l {
            None
        } else {
            Some((s.subrange(p + 16, p + 16 + l), p + 16 + l))
        }
    }
}

/// Read an optional string field of `s` at `p`.
pub open spec fn dec_opt_str_at(s: Seq<char>, p: int) -> Option<(Option<Seq<char>>, int)>
    recommends
        0 <= p <= s.len(),
{
    if p >= s.len() {
        None
    } else if s[p] == '0' {
        Some((None, p + 1))
    } else if s[p] == '1' {
        match dec_str_at(s, p + 1) {
            Some((v, q)) => Some((Some(v), q)),
            None => None,
        }
    } else {
        None
    }
}

/// Read the optional expiry of `s` at `p`.
pub open spec fn dec_expires_at(s: Seq<char>, p: int) -> Option<(Option<int>, int)>
    recommends
        0 <= p <= s.len(),
{
    if p >= s.len() {
        None
    } else if s[p] == '0' {
        Some((None, p + 1))
    } else if s[p] == '1' {
        if p + 1 + 16 > s.len() {
            None
        } else if !is_hex16(s.subrange(p + 1, p + 17)) {
            None
        } else {
            Some((Some(ts_of_u64(hex16_val(s.subrange(p + 1, p + 17)))), p + 17))
        }
    } else {
        None
    }
}

/// What a persisted form decodes to: the state, when the text is exactly one
/// encoded state and nothing more.
pub open spec fn decode_state_spec(s: Seq<char>) -> Option<ClientStateView> {
    match dec_str_at(s, 0) {
        None => None,
        Some((access_token, p1)) => match dec_opt_str_at(s, p1) {
            None => None,
            Some((id_token, p2)) => match dec_opt_str_at(s, p2) {
                None => None,
                Some((refresh_token, p3)) => match dec_expires_at(s, p3) {
                    None => None,
                    Some((expires, p4)) => if p4 == s.len() {
                        Some(ClientStateView { access_token, id_token, refresh_token, expires })
                    } else {
                        None
                    },
                },
            },
        },
    }
}

/// Read a length-prefixed string field at `p`, handing back the field and the
/// position after it.
fn read_str_field(s: &str, len: usize, p: usize) -> (r: Option<(String, usize)>)
    requires
        len == s@.len(),
        p <= len,
    ensures
        match r {
            Some((v, q)) => dec_str_at(s@, p as int) == Some((v@, q as int)) && p < q <= len,
            None => dec_str_at(s@, p as int) is None,
        },
{
    if len - p < 16 {
        return None;
    }
    let l = match read_hex16(s, p) {
        Some(l) => l,
        None => {
            return None;
        },
    };
    let avail: u64 = (len - (p + 16)) as u64;
    if avail < l {
        proof {
            assert(s@.len() - (p as int + 16) < hex16_val(s@.subrange(p as int, p as int + 16)));
        }
        return None;
    }
    let l = l as usize;
    let v = s.substring_char(p + 16, p + 16 + l);
    proof {
        assert(v@ =~= s@.subrange(p as int + 16, p as int + 16 + l as int));
    }
    Some((String::from_str(v), p + 16 + l))
}

/// Decode a persisted form back into a cached state. `None` for any text that
/// is not exactly the encoding of one state.
pub fn decode_client_state(s: &str) -> (r: Option<ClientState>)
    ensures
        match r {
            Some(st) => decode_state_spec(s@) == Some(st@),
            None => decode_state_spec(s@) is None,
        },
{
    let len = s.unicode_len();
    let (access_token, p1) = match read_str_field(s, len, 0) {
        Some(x) => x,
        None => {
            return None;
        },
    };
    let (id_token, p2) = match read_opt_str_field(s, len, p1) {
        Some(x) => x,
        None => {
            return None;
        },
    };
    let (refresh_token, p3) = match read_opt_str_field(s, len, p2) {
        Some(x) => x,
        None => {
            return None;
        },
    };
    let (expires, p4) = match read_expires_field(s, len, p3) {
        Some(x) => x,
        None => {
            return None;
        },
    };
    if p4 != len {
        return None;
    }
    Some(ClientState { access_token, id_token, refresh_token, expires })
}

/// Read an optional string field at `p`.
fn read_opt_str_field(s: &str, len: usize, p: usize) -> (r: Option<(Option<String>, usize)>)
    requires
        len == s@.len(),
        p <= len,
    ensures
        match r {
            Some((v, q)) => p < q <= len && (match v {
                Some(t) => dec_opt_str_at(s@, p as int) == Some((Some(t@), q as int)),
                None => dec_opt_str_at(s@, p as int) == Some((None::<Seq<char>>, q as int)),
            }),
            None => dec_opt_str_at(s@, p as int) is None,
        },
{
    if p >= len {
        return None;
    }
    let marker = s.get_char(p);
    if marker == '0' {
        Some((None, p + 1))
    } else if marker == '1' {
        match read_str_field(s, len, p + 1) {
            Some((v, q)) => Some((Some(v), q)),
            None => None,
        }
    } else {
        None
    }
}

/// Read the optional expiry at `p`.
fn read_expires_field(s: &str, len: usize, p: usize) -> (r: Option<(Option<i64>, usize)>)
    requires
        len == s@.len(),
        p <= len,
    ensures
        match r {
            Some((v, q)) => p < q <= len && (match v {
                Some(e) => dec_expires_at(s@, p as int) == Some((Some(e as int), q as int)),
                None => dec_expires_at(s@, p as int) == Some((None::<int>, q as int)),
            }),
            None => dec_expires_at(s@, p as int) is None,
        },
{
    if p >= len {
        return None;
    }
    let marker = s.get_char(p);
    if marker == '0' {
        Some((None, p + 1))
    } else if marker == '1' {
        if len - (p + 1) < 16 {
            return None;
        }
        match read_hex16(s, p + 1) {
            Some(y) => Some((Some(ts_from_bits(y)), p + 17)),
            None => None,
        }
    } else {
        None
    }
}

// --- the round trip ---

/// A state the persisted form can carry: field lengths that fit in the
/// sixteen-digit prefix and a timestamp in range. Every state held in memory
/// satisfies this; it is stated here because the view alone does not bound
/// them.
pub open spec fn encodable(s: ClientStateView) -> bool {
    &&& s.access_token.len() < 0x10000000000000000
    &&& (s.id_token matches Some(t) ==> t.len() < 0x10000000000000000)
    &&& (s.refresh_token matches Some(t) ==> t.len() < 0x10000000000000000)
    &&& (s.expires matches Some(e) ==> i64::MIN <= e <= i64::MAX)
}

/// Reading a length-prefixed field back from where it was written gives the
/// field and the position after it.
proof fn lemma_str_field_roundtrip(prefix: Seq<char>, t: Seq<char>, rest: Seq<char>)
    requires
        t.len() < 0x10000000000000000,
    ensures
        dec_str_at(prefix + (enc_str(t) + rest), prefix.len() as int) == Some(
            (t, prefix.len() + 16 + t.len() as int),
        ),
{
    let s = prefix + (enc_str(t) + rest);
    let p = prefix.len() as int;
    lemma_hex16_roundtrip(t.len() as u64);
    assert(s.subrange(p, p + 16) =~= hex16_of(t.len() as u64));
    assert(hex16_val(s.subrange(p, p + 16)) as int == t.len());
    assert(s.len() == p + 16 + t.len() + rest.len());
    assert(s.subrange(p + 16, p + 16 + t.len()) =~= t);
}

/// Decoding the persisted form of any encodable state gives the state back,
/// field for field.
#[verifier::rlimit(100)]
pub proof fn lemma_state_roundtrip(v: ClientStateView)
    requires
        encodable(v),
    ensures
        decode_state_spec(encode_state_spec(v)) == Some(v),
{
    let s = encode_state_spec(v);
    let e1 = enc_str(v.access_token);
    let e2 = enc_opt_str(v.id_token);
    let e3 = enc_opt_str(v.refresh_token);
    let e4 = enc_expires(v.expires);
    assert(s =~= Seq::<char>::empty() + (e1 + (e2 + (e3 + e4))));
    lemma_str_field_roundtrip(Seq::empty(), v.access_token, e2 + (e3 + e4));
    assert(dec_str_at(s, 0) == Some((v.access_token, 16 + v.access_token.len() as int)));
    let p1 = 16 + v.access_token.len() as int;
    let pre1 = s.take(p1);
    assert(s =~= pre1 + (e2 + (e3 + e4)));
    match v.id_token {
        Some(t) => {
            assert(s[p1] == '1');
            assert(s =~= (pre1 + seq!['1']) + (enc_str(t) + (e3 + e4)));
            lemma_str_field_roundtrip(pre1 + seq!['1'], t, e3 + e4);
            assert(dec_opt_str_at(s, p1) == Some((Some(t), p1 + 17 + t.len())));
        },
        None => {
            assert(s[p1] == '0');
            assert(dec_opt_str_at(s, p1) == Some((None::<Seq<char>>, p1 + 1)));
        },
    }
    let p2 = p1 + (if v.id_token is Some {
        17 + v.id_token->Some_0.len() as int
    } else {
        1
    });
    let pre2 = s.take(p2);
    assert(pre1 + e2 =~= pre2);
    assert(s =~= pre2 + (e3 + e4));
    match v.refresh_token {
        Some(t) => {
            assert(s[p2] == '1');
            assert(s =~= (pre2 + seq!['1']) + (enc_str(t) + e4));
            lemma_str_field_roundtrip(pre2 + seq!['1'], t, e4);
            assert(dec_opt_str_at(s, p2) == Some((Some(t), p2 + 17 + t.len())));
        },
        None => {
            assert(s[p2] == '0');
            assert(dec_opt_str_at(s, p2) == Some((None::<Seq<char>>, p2 + 1)));
        },
    }
    let p3 = p2 + (if v.refresh_token is Some {
        17 + v.refresh_token->Some_0.len() as int
    } else {
        1
    });
    let pre3 = s.take(p3);
    assert(pre2 + e3 =~= pre3);
    assert(s =~= pre3 + e4);
    match v.expires {
        Some(ev) => {
            assert(s[p3] == '1');
            lemma_hex16_roundtrip(u64_of_ts(ev));
            assert(s.subrange(p3 + 1, p3 + 17) =~= hex16_of(u64_of_ts(ev)));
            assert(hex16_val(s.subrange(p3 + 1, p3 + 17)) == u64_of_ts(ev));
            lemma_ts_roundtrip(ev);
            assert(dec_expires_at(s, p3) == Some((Some(ev), p3 + 17)));
            assert(p3 + 17 == s.len());
        },
        None => {
            assert(s[p3] == '0');
            assert(dec_expires_at(s, p3) == Some((None::<int>, p3 + 1)));
            assert(p3 + 1 == s.len());
        },
    }
    assert(decode_state_spec(s) == Some(v));
}

} // verus!
