//! Unverified peeking into compact JSON tokens.
//!
//! A compact token is a sequence of base64url segments separated by dots; the
//! second segment encodes the claims as a JSON object. The decoder here splits
//! the token, undoes the base64url encoding, and extracts recognized claim
//! fields (`exp` above all). It performs no signature verification and must
//! never back a trust decision — it only estimates whether a locally held
//! token is probably still within its validity window.

use vstd::prelude::*;

verus! {

// --- base64url (URL-safe alphabet, no padding, canonical trailing bits) ---

/// Whether `c` belongs to the URL-safe base64 alphabet.
pub open spec fn is_b64url_char(c: char) -> bool {
    ||| 'A' <= c <= 'Z'
    ||| 'a' <= c <= 'z'
    ||| '0' <= c <= '9'
    ||| c == '-'
    ||| c == '_'
}

/// The six-bit value of a base64url character.
pub open spec fn b64url_val(c: char) -> int
    recommends
        is_b64url_char(c),
{
    if 'A' <= c <= 'Z' {
        c as int - 'A' as int
    } else if 'a' <= c <= 'z' {
        c as int - 'a' as int + 26
    } else if '0' <= c <= '9' {
        c as int - '0' as int + 52
    } else if c == '-' {
        62
    } else {
        63
    }
}

/// First decoded byte of a group: all of the first value, top two bits of the
/// second.
pub open spec fn b64_byte0(a: int, b: int) -> u8 {
    (a * 4 + b / 16) as u8
}

/// Second decoded byte of a group: low four bits of the second value, top four
/// of the third.
pub open spec fn b64_byte1(b: int, c: int) -> u8 {
    ((b % 16) * 16 + c / 4) as u8
}

/// Third decoded byte of a group: low two bits of the third value, all of the
/// fourth.
pub open spec fn b64_byte2(c: int, d: int) -> u8 {
    ((c % 4) * 64 + d) as u8
}

/// What unpadded base64url text decodes to: `None` for a length of 1 mod 4,
/// for a character outside the alphabet, and for non-zero trailing bits in the
/// last group (the canonical-form requirement).
pub open spec fn b64url_decode_spec(s: Seq<char>) -> Option<Seq<u8>>
    decreases s.len(),
{
    if s.len() == 0 {
        Some(Seq::empty())
    } else if s.len() == 1 {
        None
    } else if s.len() == 2 {
        if is_b64url_char(s[0]) && is_b64url_char(s[1]) && b64url_val(s[1]) % 16 == 0 {
            Some(seq![b64_byte0(b64url_val(s[0]), b64url_val(s[1]))])
        } else {
            None
        }
    } else if s.len() == 3 {
        if is_b64url_char(s[0]) && is_b64url_char(s[1]) && is_b64url_char(s[2])
            && b64url_val(s[2]) % 4 == 0 {
            Some(
                seq![
                    b64_byte0(b64url_val(s[0]), b64url_val(s[1])),
                    b64_byte1(b64url_val(s[1]), b64url_val(s[2])),
                ],
            )
        } else {
            None
        }
    } else {
        if is_b64url_char(s[0]) && is_b64url_char(s[1]) && is_b64url_char(s[2])
            && is_b64url_char(s[3]) {
            match b64url_decode_spec(s.skip(4)) {
                Some(rest) => Some(
                    seq![
                        b64_byte0(b64url_val(s[0]), b64url_val(s[1])),
                        b64_byte1(b64url_val(s[1]), b64url_val(s[2])),
                        b64_byte2(b64url_val(s[2]), b64url_val(s[3])),
                    ] + rest,
                ),
                None => None,
            }
        } else {
            None
        }
    }
}

/// The six-bit value of a base64url character, or `None` for any other
/// character.
pub fn b64url_char_val(c: char) -> (r: Option<u8>)
    ensures
        match r {
            Some(v) => is_b64url_char(c) && v == b64url_val(c) && v < 64,
            None => !is_b64url_char(c),
        },
{
    if 'A' <= c && c <= 'Z' {
        Some((c as u32 - 'A' as u32) as u8)
    } else if 'a' <= c && c <= 'z' {
        Some((c as u32 - 'a' as u32 + 26) as u8)
    } else if '0' <= c && c <= '9' {
        Some((c as u32 - '0' as u32 + 52) as u8)
    } else if c == '-' {
        Some(62)
    } else if c == '_' {
        Some(63)
    } else {
        None
    }
}

/// Decode unpadded base64url text to bytes; `None` exactly where
/// [`b64url_decode_spec`] says the text is not canonical base64url.
pub fn b64url_decode(s: &str) -> (r: Option<Vec<u8>>)
    ensures
        match r {
            Some(v) => b64url_decode_spec(s@) == Some(v@),
            None => b64url_decode_spec(s@) is None,
        },
{
    let len = s.unicode_len();
    let mut out: Vec<u8> = Vec::new();
    let mut i: usize = 0;
    proof {
        assert(s@.skip(0) =~= s@);
        let r0 = b64url_decode_spec(s@);
        if r0 is Some {
            assert(out@ + r0->Some_0 =~= r0->Some_0);
        }
    }
    while len - i >= 4
        invariant
            len == s@.len(),
            i <= len,
            match b64url_decode_spec(s@.skip(i as int)) {
                Some(rest) => b64url_decode_spec(s@) == Some(out@ + rest),
                None => b64url_decode_spec(s@) is None,
            },
        decreases len - i,
    {
        let ghost tail = s@.skip(i as int);
        proof {
            assert(tail.len() >= 4);
            assert(tail[0] == s@[i as int]);
            assert(tail[1] == s@[i as int + 1]);
            assert(tail[2] == s@[i as int + 2]);
            assert(tail[3] == s@[i as int + 3]);
        }
        let v0 = match b64url_char_val(s.get_char(i)) {
            Some(v) => v,
            None => {
                return None;
            },
        };
        let v1 = match b64url_char_val(s.get_char(i + 1)) {
            Some(v) => v,
            None => {
                return None;
            },
        };
        let v2 = match b64url_char_val(s.get_char(i + 2)) {
            Some(v) => v,
            None => {
                return None;
            },
        };
        let v3 = match b64url_char_val(s.get_char(i + 3)) {
            Some(v) => v,
            None => {
                return None;
            },
        };
        let ghost out_before = out@;
        out.push(v0 * 4 + v1 / 16);
        out.push((v1 % 16) * 16 + v2 / 4);
        out.push((v2 % 4) * 64 + v3);
        proof {
            assert(s@.skip(i as int).skip(4) =~= s@.skip(i as int + 4));
            let g = seq![
                b64_byte0(b64url_val(tail[0]), b64url_val(tail[1])),
                b64_byte1(b64url_val(tail[1]), b64url_val(tail[2])),
                b64_byte2(b64url_val(tail[2]), b64url_val(tail[3])),
            ];
            assert(out@ =~= out_before + g);
            match b64url_decode_spec(s@.skip(i as int + 4)) {
                Some(rest2) => {
                    assert(b64url_decode_spec(tail) == Some(g + rest2));
                    assert(out_before + (g + rest2) =~= out@ + rest2);
                },
                None => {
                    assert(b64url_decode_spec(tail) is None);
                },
            }
        }
        i = i + 4;
    }
    let rem = len - i;
    let ghost tail = s@.skip(i as int);
    proof {
        assert(tail.len() == rem);
        if rem > 0 {
            assert(tail[0] == s@[i as int]);
        }
        if rem > 1 {
            assert(tail[1] == s@[i as int + 1]);
        }
        if rem > 2 {
            assert(tail[2] == s@[i as int + 2]);
        }
    }
    if rem == 0 {
        proof {
            let rt = b64url_decode_spec(tail);
            if rt is Some {
                assert(tail =~= Seq::<char>::empty());
                assert(rt->Some_0 =~= Seq::<u8>::empty());
                assert(out@ + rt->Some_0 =~= out@);
            }
        }
        return Some(out);
    }
    if rem == 1 {
        return None;
    }
    let v0 = match b64url_char_val(s.get_char(i)) {
        Some(v) => v,
        None => {
            return None;
        },
    };
    let v1 = match b64url_char_val(s.get_char(i + 1)) {
        Some(v) => v,
        None => {
            return None;
        },
    };
    if rem == 2 {
        if v1 % 16 != 0 {
            return None;
        }
        let ghost out_before = out@;
        out.push(v0 * 4 + v1 / 16);
        proof {
            let g = seq![b64_byte0(b64url_val(tail[0]), b64url_val(tail[1]))];
            assert(out@ =~= out_before + g);
            assert(b64url_decode_spec(tail) == Some(g));
        }
        return Some(out);
    }
    let v2 = match b64url_char_val(s.get_char(i + 2)) {
        Some(v) => v,
        None => {
            return None;
        },
    };
    if v2 % 4 != 0 {
        return None;
    }
    let ghost out_before = out@;
    out.push(v0 * 4 + v1 / 16);
    out.push((v1 % 16) * 16 + v2 / 4);
    proof {
        let g = seq![
            b64_byte0(b64url_val(tail[0]), b64url_val(tail[1])),
            b64_byte1(b64url_val(tail[1]), b64url_val(tail[2])),
        ];
        assert(out@ =~= out_before + g);
        assert(b64url_decode_spec(tail) == Some(g));
    }
    Some(out)
}

// --- splitting a compact token into its dot-separated segments ---

/// The number of characters before the first `sep` in `s` (the length of `s`
/// when `sep` does not occur).
pub open spec fn first_sep(s: Seq<char>, sep: char) -> int
    decreases s.len(),
{
    if s.len() == 0 {
        0
    } else if s[0] == sep {
        0
    } else {
        1 + first_sep(s.skip(1), sep)
    }
}

/// The segments of `s` between occurrences of `sep`. Splitting never yields
/// an empty result: text without `sep` is one segment.
pub open spec fn split_on(s: Seq<char>, sep: char) -> Seq<Seq<char>>
    decreases s.len(),
    via split_on_dec
{
    let f = first_sep(s, sep);
    if f == s.len() {
        seq![s]
    } else {
        seq![s.take(f)] + split_on(s.skip(f + 1), sep)
    }
}

#[via_fn]
proof fn split_on_dec(s: Seq<char>, sep: char) {
    lemma_first_sep_le(s, sep);
}

/// `first_sep` is pinned down by what the characters before and at a position
/// look like.
pub proof fn lemma_first_sep(s: Seq<char>, sep: char, idx: int)
    requires
        0 <= idx <= s.len(),
        forall|k: int| 0 <= k < idx ==> s[k] != sep,
        idx < s.len() ==> s[idx] == sep,
    ensures
        first_sep(s, sep) == idx,
    decreases idx,
{
    if idx == 0 {
        if s.len() > 0 && s[0] != sep {
            assert(s[0] == sep);
        }
    } else {
        assert(s[0] != sep);
        lemma_first_sep(s.skip(1), sep, idx - 1);
    }
}

/// `first_sep` never passes the end of the text.
pub proof fn lemma_first_sep_le(s: Seq<char>, sep: char)
    ensures
        0 <= first_sep(s, sep) <= s.len(),
        first_sep(s, sep) < s.len() ==> s[first_sep(s, sep)] == sep,
    decreases s.len(),
{
    if s.len() > 0 && s[0] != sep {
        lemma_first_sep_le(s.skip(1), sep);
    }
}

/// Split text at every occurrence of `sep`.
pub fn split_char(token: &str, sep: char) -> (parts: Vec<String>)
    ensures
        parts.deep_view() == split_on(token@, sep),
{
    let len = token.unicode_len();
    let mut parts: Vec<String> = Vec::new();
    let mut pos: usize = 0;
    proof {
        assert(token@.skip(0) =~= token@);
    }
    loop
        invariant
            len == token@.len(),
            pos <= len,
            split_on(token@, sep) == parts.deep_view() + split_on(token@.skip(pos as int), sep),
        decreases len - pos,
    {
        let ghost tail = token@.skip(pos as int);
        let mut j = pos;
        while j < len && token.get_char(j) != sep
            invariant
                len == token@.len(),
                pos <= j <= len,
                forall|k: int| pos <= k < j ==> token@[k] != sep,
            decreases len - j,
        {
            j = j + 1;
        }
        proof {
            assert(tail.len() == len - pos);
            assert(forall|k: int| 0 <= k < j - pos ==> tail[k] == token@[k + pos]);
            if j < len {
                assert(tail[j - pos] == token@[j as int]);
            }
            lemma_first_sep(tail, sep, j - pos);
        }
        let part = token.substring_char(pos, j);
        let part = String::from_str(part);
        proof {
            assert(part@ =~= tail.take(j - pos));
        }
        let ghost parts_before = parts.deep_view();
        parts.push(part);
        proof {
            assert(parts.deep_view() =~= parts_before + seq![part@]);
        }
        if j == len {
            proof {
                assert(first_sep(tail, sep) == tail.len());
                assert(split_on(tail, sep) =~= seq![tail]);
                assert(tail.take(j - pos) =~= tail);
                assert(parts.deep_view() =~= parts_before + split_on(tail, sep));
            }
            return parts;
        }
        proof {
            assert(first_sep(tail, sep) == j - pos);
            assert(j - pos < tail.len());
            assert(split_on(tail, sep) == seq![tail.take(j - pos)] + split_on(
                tail.skip(j - pos + 1),
                sep,
            ));
            assert(tail.skip(j - pos + 1) =~= token@.skip(j + 1));
            assert(parts_before + split_on(tail, sep) =~= parts.deep_view() + split_on(
                token@.skip(j + 1),
                sep,
            ));
        }
        pos = j + 1;
    }
}

/// Split a compact token at the dots.
pub fn split_dots(token: &str) -> (parts: Vec<String>)
    ensures
        parts.deep_view() == split_on(token@, '.'),
{
    split_char(token, '.')
}

// --- the JSON step, relying on an outside parser ---

/// The value of the numeric field `key` of the JSON object that `payload`
/// holds; `None` when `payload` is not a JSON object, the field is absent, or
/// it is not a whole number in range.
pub uninterp spec fn json_i64_of(payload: Seq<u8>, key: Seq<char>) -> Option<i64>;

/// The value of the string field `key` of the JSON object that `payload`
/// holds; `None` when `payload` is not a JSON object, the field is absent, or
/// it is not a string.
pub uninterp spec fn json_str_of(payload: Seq<u8>, key: Seq<char>) -> Option<Seq<char>>;

/// Relies on serde_json::from_slice, serde_json::Value::get and
/// serde_json::Value::as_i64: the numeric field of the JSON object encoded by
/// `payload`, a function of the bytes and the key alone.
#[verifier::external_body]
fn json_i64_field(payload: &[u8], key: &str) -> (r: Option<i64>)
    ensures
        r == json_i64_of(payload@, key@),
{
    serde_json::from_slice::<serde_json::Value>(payload)
        .ok()
        .and_then(|v| v.get(key).and_then(|f| f.as_i64()))
}

/// Relies on serde_json::from_slice, serde_json::Value::get and
/// serde_json::Value::as_str: the string field of the JSON object encoded by
/// `payload`, a function of the bytes and the key alone.
#[verifier::external_body]
fn json_str_field(payload: &[u8], key: &str) -> (r: Option<String>)
    ensures
        match r {
            Some(s) => json_str_of(payload@, key@) == Some(s@),
            None => json_str_of(payload@, key@) is None,
        },
{
    serde_json::from_slice::<serde_json::Value>(payload)
        .ok()
        .and_then(|v| v.get(key).and_then(|f| f.as_str().map(|s| s.to_string())))
}

// --- the decoded claims ---

/// Claims of a refresh token; only the expiry hint is recognized.
#[derive(Clone, Debug)]
pub struct RefreshTokenClaims {
    pub exp: Option<i64>,
}

/// Claims of an access token, for inspection and listing.
#[derive(Clone, Debug)]
pub struct AccessTokenClaims {
    pub azp: Option<String>,
    pub sub: Option<String>,
    pub iss: Option<String>,
    pub exp: Option<i64>,
    pub iat: Option<i64>,
    pub auth_time: Option<i64>,
    pub scope: Option<String>,
}

/// The claims segment of a compact token: the characters between the first
/// dot and the second (or the end).
pub open spec fn payload_of(token: Seq<char>) -> Option<Seq<char>> {
    let parts = split_on(token, '.');
    if parts.len() >= 2 {
        Some(parts[1])
    } else {
        None
    }
}

/// The decoded payload bytes of a compact token, if its claims segment is
/// well-formed base64url.
pub open spec fn payload_bytes_of(token: Seq<char>) -> Option<Seq<u8>> {
    match payload_of(token) {
        Some(p) => b64url_decode_spec(p),
        None => None,
    }
}

/// The `exp` hint of a compact token: the numeric `exp` claim of its decoded
/// payload, when every step of the decoding succeeds.
pub open spec fn exp_hint_of(token: Seq<char>) -> Option<i64> {
    match payload_bytes_of(token) {
        Some(bytes) => json_i64_of(bytes, "exp"@),
        None => None,
    }
}

/// The payload segment of a compact token, still base64url-encoded.
pub fn payload_segment(token: &str) -> (r: Option<String>)
    ensures
        match r {
            Some(p) => payload_of(token@) == Some(p@),
            None => payload_of(token@) is None,
        },
{
    let parts = split_dots(token);
    if parts.len() >= 2 {
        proof {
            assert(parts.deep_view()[1] == parts@[1]@);
        }
        let mut parts = parts;
        let p = parts.swap_remove(1);
        Some(p)
    } else {
        None
    }
}

/// The decoded payload bytes of a compact token.
pub fn payload_bytes(token: &str) -> (r: Option<Vec<u8>>)
    ensures
        match r {
            Some(v) => payload_bytes_of(token@) == Some(v@),
            None => payload_bytes_of(token@) is None,
        },
{
    match payload_segment(token) {
        Some(p) => b64url_decode(p.as_str()),
        None => None,
    }
}

/// Decode the claims of a refresh token without verifying it. `None` when the
/// token has no well-formed base64url claims segment; an absent or non-numeric
/// `exp` claim is a decoded-but-empty result, not a failure.
pub fn decode_refresh_claims(token: &str) -> (r: Option<RefreshTokenClaims>)
    ensures
        match r {
            Some(c) => payload_bytes_of(token@) matches Some(bytes) && c.exp == json_i64_of(
                bytes,
                "exp"@,
            ),
            None => payload_bytes_of(token@) is None,
        },
        match r {
            Some(c) => c.exp == exp_hint_of(token@),
            None => exp_hint_of(token@) is None,
        },
{
    match payload_bytes(token) {
        Some(bytes) => Some(RefreshTokenClaims { exp: json_i64_field(bytes.as_slice(), "exp") }),
        None => None,
    }
}

/// Decode the claims of an access token without verifying it, for display.
pub fn decode_access_claims(token: &str) -> (r: Option<AccessTokenClaims>)
    ensures
        match r {
            Some(c) => payload_bytes_of(token@) matches Some(bytes) && {
                &&& c.exp == json_i64_of(bytes, "exp"@)
                &&& c.iat == json_i64_of(bytes, "iat"@)
                &&& c.auth_time == json_i64_of(bytes, "auth_time"@)
                &&& (match c.sub {
                    Some(s) => json_str_of(bytes, "sub"@) == Some(s@),
                    None => json_str_of(bytes, "sub"@) is None,
                })
                &&& (match c.iss {
                    Some(s) => json_str_of(bytes, "iss"@) == Some(s@),
                    None => json_str_of(bytes, "iss"@) is None,
                })
                &&& (match c.azp {
                    Some(s) => json_str_of(bytes, "azp"@) == Some(s@),
                    None => json_str_of(bytes, "azp"@) is None,
                })
                &&& (match c.scope {
                    Some(s) => json_str_of(bytes, "scope"@) == Some(s@),
                    None => json_str_of(bytes, "scope"@) is None,
                })
            },
            None => payload_bytes_of(token@) is None,
        },
{
    match payload_bytes(token) {
        Some(bytes) => {
            let b = bytes.as_slice();
            Some(
                AccessTokenClaims {
                    azp: json_str_field(b, "azp"),
                    sub: json_str_field(b, "sub"),
                    iss: json_str_field(b, "iss"),
                    exp: json_i64_field(b, "exp"),
                    iat: json_i64_field(b, "iat"),
                    auth_time: json_i64_field(b, "auth_time"),
                    scope: json_str_field(b, "scope"),
                },
            )
        },
        None => None,
    }
}

} // verus!
