//! Prepares the residual query arguments for substitution into a redirect
//! template: the arguments are percent-encoded under the WHATWG fragment
//! set, widened by the characters that would be misread inside a URL.

use crate::error::digit_char;
use vstd::prelude::*;
use vstd::utf8::char_is_scalar;
use vstd::utf8::encode_scalar;
use vstd::utf8::is_scalar;

verus! {

/// The uppercase hexadecimal digit character for `d`.
pub open spec fn hex_digit(d: nat) -> char {
    if d < 10 {
        digit_char(d)
    } else if d == 10 {
        'A'
    } else if d == 11 {
        'B'
    } else if d == 12 {
        'C'
    } else if d == 13 {
        'D'
    } else if d == 14 {
        'E'
    } else {
        'F'
    }
}

/// The fragment encode set, widened: the C0 controls and DEL, plus space,
/// quote, angle brackets, backtick, plus, ampersand, hash and apostrophe.
/// Given as a predicate on the code point of an ASCII character.
pub open spec fn in_fragment_set(v: u32) -> bool {
    ||| v < 0x20  // the C0 controls
    ||| v == 0x7f  // DEL
    ||| v == 0x20  // space
    ||| v == 0x22  // quote
    ||| v == 0x3c  // less-than
    ||| v == 0x3e  // greater-than
    ||| v == 0x60  // backtick
    ||| v == 0x2b  // plus
    ||| v == 0x26  // ampersand, interpreted as a GET query
    ||| v == 0x23  // hash, interpreted as a hyperlink section target
    ||| v == 0x27  // apostrophe
}

/// The three characters that percent-encode one byte.
pub open spec fn percent_byte(b: u8) -> Seq<char> {
    seq!['%', hex_digit((b / 16) as nat), hex_digit((b % 16) as nat)]
}

/// Each byte percent-encoded in turn.
pub open spec fn percent_bytes_of(bytes: Seq<u8>) -> Seq<char>
    decreases bytes.len(),
{
    if bytes.len() == 0 {
        Seq::empty()
    } else {
        percent_byte(bytes[0]) + percent_bytes_of(bytes.drop_first())
    }
}

/// How one character is rendered: an ASCII character outside the encode set
/// stands as itself; every other character has each byte of its UTF-8
/// encoding percent-encoded.
pub open spec fn encoded_char(c: char) -> Seq<char> {
    let v = c as u32;
    if v < 0x80 && !in_fragment_set(v) {
        seq![c]
    } else {
        percent_bytes_of(encode_scalar(v))
    }
}

/// The whole string percent-encoded under the widened fragment set.
pub open spec fn fragment_encoded(s: Seq<char>) -> Seq<char>
    decreases s.len(),
{
    if s.len() == 0 {
        Seq::empty()
    } else {
        fragment_encoded(s.drop_last()) + encoded_char(s.last())
    }
}

/// Relies on `percent_encoding::percent_encode_byte`: the percent-encoding
/// of any byte is a percent sign followed by the byte's two uppercase
/// hexadecimal digits.
#[verifier::external_body]
fn percent_encode_byte_str(b: u8) -> (r: &'static str)
    ensures
        r@ == percent_byte(b),
{
    percent_encoding::percent_encode_byte(b)
}

/// Whether the code point of an ASCII character falls in the encode set.
fn in_fragment_set_check(v: u32) -> (r: bool)
    ensures
        r == in_fragment_set(v),
{
    v < 0x20 || v == 0x7f || v == 0x20 || v == 0x22 || v == 0x3c || v == 0x3e || v == 0x60 || v
        == 0x2b || v == 0x26 || v == 0x23 || v == 0x27
}

/// Appends the percent-encoding of every byte of the UTF-8 encoding of the
/// scalar value `v`.
fn append_encoded_scalar(out: &mut String, v: u32)
    requires
        is_scalar(v),
    ensures
        final(out)@ == old(out)@ + percent_bytes_of(encode_scalar(v)),
{
    let ghost bytes = encode_scalar(v);
    if v < 0x80 {
        let b1 = (v & 0x7F) as u8;
        out.append(percent_encode_byte_str(b1));
        proof {
            reveal_with_fuel(percent_bytes_of, 2);
            assert(bytes =~= seq![b1]);
            assert(seq![b1].drop_first() =~= Seq::<u8>::empty());
            assert(percent_bytes_of(bytes) =~= percent_byte(b1));
        }
    } else if v < 0x800 {
        let b1 = 0xC0u8 | ((v >> 6) & 0x1F) as u8;
        let b2 = 0x80u8 | (v & 0x3F) as u8;
        out.append(percent_encode_byte_str(b1));
        out.append(percent_encode_byte_str(b2));
        proof {
            reveal_with_fuel(percent_bytes_of, 3);
            assert(bytes =~= seq![b1, b2]);
            assert(seq![b1, b2].drop_first() =~= seq![b2]);
            assert(seq![b2].drop_first() =~= Seq::<u8>::empty());
            assert(percent_bytes_of(bytes) =~= percent_byte(b1) + percent_byte(b2));
        }
    } else if v < 0x10000 {
        let b1 = 0xE0u8 | ((v >> 12) & 0x0F) as u8;
        let b2 = 0x80u8 | ((v >> 6) & 0x3F) as u8;
        let b3 = 0x80u8 | (v & 0x3F) as u8;
        out.append(percent_encode_byte_str(b1));
        out.append(percent_encode_byte_str(b2));
        out.append(percent_encode_byte_str(b3));
        proof {
            reveal_with_fuel(percent_bytes_of, 4);
            assert(bytes =~= seq![b1, b2, b3]);
            assert(seq![b1, b2, b3].drop_first() =~= seq![b2, b3]);
            assert(seq![b2, b3].drop_first() =~= seq![b3]);
            assert(seq![b3].drop_first() =~= Seq::<u8>::empty());
            assert(percent_bytes_of(bytes) =~= percent_byte(b1) + percent_byte(b2) + percent_byte(
                b3,
            ));
        }
    } else {
        let b1 = 0xF0u8 | ((v >> 18) & 0x07) as u8;
        let b2 = 0x80u8 | ((v >> 12) & 0x3F) as u8;
        let b3 = 0x80u8 | ((v >> 6) & 0x3F) as u8;
        let b4 = 0x80u8 | (v & 0x3F) as u8;
        out.append(percent_encode_byte_str(b1));
        out.append(percent_encode_byte_str(b2));
        out.append(percent_encode_byte_str(b3));
        out.append(percent_encode_byte_str(b4));
        proof {
            reveal_with_fuel(percent_bytes_of, 5);
            assert(bytes =~= seq![b1, b2, b3, b4]);
            assert(seq![b1, b2, b3, b4].drop_first() =~= seq![b2, b3, b4]);
            assert(seq![b2, b3, b4].drop_first() =~= seq![b3, b4]);
            assert(seq![b3, b4].drop_first() =~= seq![b4]);
            assert(seq![b4].drop_first() =~= Seq::<u8>::empty());
            assert(percent_bytes_of(bytes) =~= percent_byte(b1) + percent_byte(b2) + percent_byte(
                b3,
            ) + percent_byte(b4));
        }
    }
}

/// The query arguments encoded for the `query` placeholder of a redirect
/// template.
pub fn query(args: &str) -> (r: String)
    ensures
        r@ == fragment_encoded(args@),
{
    let n = args.unicode_len();
    let mut r = String::new();
    let mut i: usize = 0;
    proof {
        assert(args@.subrange(0, 0) =~= Seq::<char>::empty());
    }
    while i < n
        invariant
            n == args@.len(),
            0 <= i <= n,
            r@ == fragment_encoded(args@.subrange(0, i as int)),
        decreases n - i,
    {
        let ghost prefix = args@.subrange(0, i as int);
        let ghost step = args@.subrange(0, i as int + 1);
        proof {
            assert(step.drop_last() =~= prefix);
            assert(step.last() == args@[i as int]);
        }
        let c = args.get_char(i);
        let v = c as u32;
        if v < 0x80 && !in_fragment_set_check(v) {
            let piece = args.substring_char(i, i + 1);
            r.append(piece);
            proof {
                assert(piece@ =~= seq![args@[i as int]]);
            }
        } else {
            proof {
                char_is_scalar(c);
            }
            append_encoded_scalar(&mut r, v);
        }
        i += 1;
    }
    proof {
        assert(args@.subrange(0, n as int) =~= args@);
    }
    r
}

} // verus!
