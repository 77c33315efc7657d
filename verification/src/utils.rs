//! Small display helpers shared by the command implementations.

use vstd::prelude::*;

verus! {

/// Relies on String::push: it appends the given character to the end of the
/// string. vstd specifies most String operations but not this one.
pub assume_specification[ String::push ](s: &mut String, c: char)
    ensures
        final(s)@ == old(s)@.push(c),
;

/// Whether `c` is a hexadecimal digit (either case).
pub open spec fn is_hex_digit(c: char) -> bool {
    ||| '0' <= c <= '9'
    ||| 'a' <= c <= 'f'
    ||| 'A' <= c <= 'F'
}

/// The value of a hexadecimal digit.
pub open spec fn hex_digit_val(c: char) -> int
    recommends
        is_hex_digit(c),
{
    if '0' <= c <= '9' {
        c as int - '0' as int
    } else if 'a' <= c <= 'f' {
        c as int - 'a' as int + 10
    } else {
        c as int - 'A' as int + 10
    }
}

/// The lower-case hexadecimal digit of a value below 16.
pub open spec fn hex_digit_char(v: int) -> char
    recommends
        0 <= v < 16,
{
    if v == 0 { '0' } else if v == 1 { '1' } else if v == 2 { '2' } else if v == 3 { '3' }
    else if v == 4 { '4' } else if v == 5 { '5' } else if v == 6 { '6' } else if v == 7 { '7' }
    else if v == 8 { '8' } else if v == 9 { '9' } else if v == 10 { 'a' } else if v == 11 { 'b' }
    else if v == 12 { 'c' } else if v == 13 { 'd' } else if v == 14 { 'e' } else { 'f' }
}

/// Encoding a value below 16 as a hexadecimal digit and reading it back gives
/// the value.
pub proof fn lemma_hex_digit_roundtrip(v: int)
    requires
        0 <= v < 16,
    ensures
        is_hex_digit(hex_digit_char(v)),
        hex_digit_val(hex_digit_char(v)) == v,
{
}

/// The value of a hexadecimal digit, or `None` for any other character.
pub fn hex_val(c: char) -> (r: Option<u8>)
    ensures
        match r {
            Some(v) => is_hex_digit(c) && v == hex_digit_val(c) && v < 16,
            None => !is_hex_digit(c),
        },
{
    if '0' <= c && c <= '9' {
        Some((c as u32 - '0' as u32) as u8)
    } else if 'a' <= c && c <= 'f' {
        Some((c as u32 - 'a' as u32 + 10) as u8)
    } else if 'A' <= c && c <= 'F' {
        Some((c as u32 - 'A' as u32 + 10) as u8)
    } else {
        None
    }
}

/// The lower-case hexadecimal digit of a value below 16.
pub fn hex_char(v: u8) -> (r: char)
    requires
        v < 16,
    ensures
        r == hex_digit_char(v as int),
{
    if v == 0 { '0' } else if v == 1 { '1' } else if v == 2 { '2' } else if v == 3 { '3' }
    else if v == 4 { '4' } else if v == 5 { '5' } else if v == 6 { '6' } else if v == 7 { '7' }
    else if v == 8 { '8' } else if v == 9 { '9' } else if v == 10 { 'a' } else if v == 11 { 'b' }
    else if v == 12 { 'c' } else if v == 13 { 'd' } else if v == 14 { 'e' } else { 'f' }
}

/// Whether the given bytes are text: a valid UTF-8 encoding of some character
/// sequence. Used to decide whether an undecodable token part can be shown
/// as-is or only as a hex dump.
pub fn is_text(data: &[u8]) -> (r: bool)
    ensures
        r == vstd::utf8::valid_utf8(data@),
{
    let len = data.len();
    let mut i: usize = 0;
    proof {
        assert(data@.skip(0) =~= data@);
    }
    while i < len
        invariant
            len == data@.len(),
            i <= len,
            vstd::utf8::valid_utf8(data@) == vstd::utf8::valid_utf8(data@.skip(i as int)),
        decreases len - i,
    {
        let ghost tail = data@.skip(i as int);
        proof {
            assert(tail[0] == data@[i as int]);
        }
        let b0 = data[i];
        if b0 <= 0x7f {
            proof {
                assert(vstd::utf8::valid_first_scalar(tail));
                assert(vstd::utf8::length_of_first_scalar(tail) == 1);
                assert(vstd::utf8::pop_first_scalar(tail) =~= data@.skip(i as int + 1));
            }
            i = i + 1;
        } else if 0xc0 <= b0 && b0 <= 0xdf {
            if len - i < 2 {
                proof {
                    assert(!vstd::utf8::valid_first_scalar(tail));
                }
                return false;
            }
            proof {
                assert(tail[1] == data@[i as int + 1]);
            }
            let b1 = data[i + 1];
            if !(0x80 <= b1 && b1 <= 0xbf) {
                proof {
                    assert(!vstd::utf8::valid_first_scalar(tail));
                }
                return false;
            }
            let cp: u32 = (((b0 & 0x1f) as u32) << 6u32) | ((b1 & 0x3f) as u32);
            if cp < 0x80 {
                proof {
                    assert(vstd::utf8::decode_first_codepoint(tail) == cp);
                    assert(!vstd::utf8::valid_first_scalar(tail));
                }
                return false;
            }
            proof {
                assert(cp <= 0x7ff) by (bit_vector)
                    requires
                        cp == (((b0 & 0x1f) as u32) << 6u32) | ((b1 & 0x3f) as u32),
                ;
                assert(vstd::utf8::decode_first_codepoint(tail) == cp);
                assert(vstd::utf8::valid_first_scalar(tail));
                assert(vstd::utf8::length_of_first_scalar(tail) == 2);
                assert(vstd::utf8::pop_first_scalar(tail) =~= data@.skip(i as int + 2));
            }
            i = i + 2;
        } else if 0xe0 <= b0 && b0 <= 0xef {
            if len - i < 3 {
                proof {
                    assert(!vstd::utf8::valid_first_scalar(tail));
                }
                return false;
            }
            proof {
                assert(tail[1] == data@[i as int + 1]);
                assert(tail[2] == data@[i as int + 2]);
            }
            let b1 = data[i + 1];
            let b2 = data[i + 2];
            if !(0x80 <= b1 && b1 <= 0xbf) || !(0x80 <= b2 && b2 <= 0xbf) {
                proof {
                    assert(!vstd::utf8::valid_first_scalar(tail));
                }
                return false;
            }
            let cp: u32 = (((b0 & 0x0f) as u32) << 12u32) | (((b1 & 0x3f) as u32) << 6u32) | ((b2
                & 0x3f) as u32);
            if cp < 0x800 || (0xd800 <= cp && cp <= 0xdfff) {
                proof {
                    assert(vstd::utf8::decode_first_codepoint(tail) == cp);
                    assert(!vstd::utf8::valid_first_scalar(tail));
                }
                return false;
            }
            proof {
                assert(vstd::utf8::decode_first_codepoint(tail) == cp);
                assert(vstd::utf8::valid_first_scalar(tail));
                assert(vstd::utf8::length_of_first_scalar(tail) == 3);
                assert(vstd::utf8::pop_first_scalar(tail) =~= data@.skip(i as int + 3));
            }
            i = i + 3;
        } else if 0xf0 <= b0 && b0 <= 0xf7 {
            if len - i < 4 {
                proof {
                    assert(!vstd::utf8::valid_first_scalar(tail));
                }
                return false;
            }
            proof {
                assert(tail[1] == data@[i as int + 1]);
                assert(tail[2] == data@[i as int + 2]);
                assert(tail[3] == data@[i as int + 3]);
            }
            let b1 = data[i + 1];
            let b2 = data[i + 2];
            let b3 = data[i + 3];
            if !(0x80 <= b1 && b1 <= 0xbf) || !(0x80 <= b2 && b2 <= 0xbf) || !(0x80 <= b3 && b3
                <= 0xbf) {
                proof {
                    assert(!vstd::utf8::valid_first_scalar(tail));
                }
                return false;
            }
            let cp: u32 = (((b0 & 0x07) as u32) << 18u32) | (((b1 & 0x3f) as u32) << 12u32) | (((
            b2 & 0x3f) as u32) << 6u32) | ((b3 & 0x3f) as u32);
            if cp < 0x10000 || cp > 0x10ffff {
                proof {
                    assert(vstd::utf8::decode_first_codepoint(tail) == cp);
                    assert(!vstd::utf8::valid_first_scalar(tail));
                }
                return false;
            }
            proof {
                assert(vstd::utf8::decode_first_codepoint(tail) == cp);
                assert(vstd::utf8::valid_first_scalar(tail));
                assert(vstd::utf8::length_of_first_scalar(tail) == 4);
                assert(vstd::utf8::pop_first_scalar(tail) =~= data@.skip(i as int + 4));
            }
            i = i + 4;
        } else {
            proof {
                assert(!vstd::utf8::valid_first_scalar(tail));
            }
            return false;
        }
    }
    proof {
        assert(data@.skip(len as int) =~= Seq::<u8>::empty());
    }
    true
}

/// A way to show an optional value, or a fixed placeholder when it is absent.
pub struct OrNone<'a>(pub &'a Option<String>);

impl<'a> OrNone<'a> {
    /// The text to show: the value itself, or `"n/a"` when there is none.
    pub fn text(&self) -> (r: String)
        ensures
            match self.0 {
                Some(s) => r@ == s@,
                None => r@ == "n/a"@,
            },
    {
        match self.0 {
            Some(s) => s.clone(),
            None => String::from_str("n/a"),
        }
    }
}

} // verus!
