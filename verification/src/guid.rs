//! Rendering of 16-byte identifiers as grouped uppercase hexadecimal text.
//!
//! The groups follow buffer order with byte counts 4-2-2-2-6; no per-group
//! byte swap is applied, so callers wanting the canonical UUID text order
//! must transform the first three groups themselves.
use vstd::prelude::*;
use vstd::pervasive::unreached;
use vstd::utf8::is_scalar;

use crate::chars::{char_from_u32, push_char};
use crate::gpt::GPTError;

verus! {

/// The uppercase hexadecimal digit for a value below 16.
pub open spec fn hex_digit(d: u8) -> char
    recommends
        d < 16,
{
    if d < 10 {
        ((0x30 + d) as u32) as char
    } else {
        ((0x37 + d) as u32) as char
    }
}

/// The two uppercase hexadecimal digits of one byte.
pub open spec fn byte_hex(b: u8) -> Seq<char> {
    seq![hex_digit(b / 16), hex_digit(b % 16)]
}

/// The concatenated hexadecimal digits of a byte sequence.
pub open spec fn hex_str(bytes: Seq<u8>) -> Seq<char>
    decreases bytes.len(),
{
    if bytes.len() == 0 {
        seq![]
    } else {
        hex_str(bytes.drop_last()) + byte_hex(bytes.last())
    }
}

/// The canonical grouped rendering of a 16-byte identifier: five
/// hyphen-separated hexadecimal groups of 4, 2, 2, 2 and 6 bytes.
pub open spec fn guid_string(bytes: Seq<u8>) -> Seq<char>
    recommends
        bytes.len() == 16,
{
    hex_str(bytes.subrange(0, 4)) + seq!['-'] + hex_str(bytes.subrange(4, 6)) + seq!['-'] + hex_str(
        bytes.subrange(6, 8),
    ) + seq!['-'] + hex_str(bytes.subrange(8, 10)) + seq!['-'] + hex_str(bytes.subrange(10, 16))
}

/// The executable counterpart of [`hex_digit`].
fn hex_digit_char(d: u8) -> (c: char)
    requires
        d < 16,
    ensures
        c == hex_digit(d),
{
    let v: u32 = if d < 10 {
        0x30 + d as u32
    } else {
        0x37 + d as u32
    };
    proof {
        assert(is_scalar(v));
    }
    match char_from_u32(v) {
        Some(c) => {
            proof {
                vstd::utf8::char_u32_cast(c, v);
            }
            c
        },
        None => unreached(),
    }
}

/// Appends the hexadecimal digits of `arr[from..to]` to `s`.
fn push_hex(s: &mut String, arr: &[u8], from: usize, to: usize)
    requires
        from <= to <= arr@.len(),
    ensures
        final(s)@ == old(s)@ + hex_str(arr@.subrange(from as int, to as int)),
{
    let ghost s0 = s@;
    proof {
        assert(arr@.subrange(from as int, from as int) =~= Seq::<u8>::empty());
        assert(s@ + Seq::<char>::empty() =~= s@);
    }
    let mut i = from;
    while i < to
        invariant
            from <= i <= to <= arr@.len(),
            s@ == s0 + hex_str(arr@.subrange(from as int, i as int)),
        decreases to - i,
    {
        let b = *vstd::slice::slice_index_get(arr, i);
        let c1 = hex_digit_char(b / 16);
        let c2 = hex_digit_char(b % 16);
        proof {
            let pre = arr@.subrange(from as int, i as int);
            let cur = arr@.subrange(from as int, i as int + 1);
            assert(cur.drop_last() =~= pre);
            assert(cur.last() == b);
            assert(hex_str(cur) == hex_str(pre) + byte_hex(b));
            assert(s@.push(c1).push(c2) =~= s@ + byte_hex(b));
            assert((s0 + hex_str(pre)) + byte_hex(b) =~= s0 + (hex_str(pre) + byte_hex(b)));
        }
        push_char(s, c1);
        push_char(s, c2);
        i = i + 1;
    }
}

/// Renders a 16-byte identifier as five hyphen-separated groups of uppercase
/// hexadecimal byte pairs; any other input length is rejected.
pub fn bytes_to_guid(arr: &[u8]) -> (r: Result<String, GPTError>)
    ensures
        match r {
            Ok(s) => arr@.len() == 16 && s@ == guid_string(arr@),
            Err(GPTError::InvalidGuidLength) => arr@.len() != 16,
            Err(_) => false,
        },
{
    if arr.len() != 16 {
        return Err(GPTError::InvalidGuidLength);
    }

    let mut s = String::new();
    push_hex(&mut s, arr, 0, 4);
    push_char(&mut s, '-');
    push_hex(&mut s, arr, 4, 6);
    push_char(&mut s, '-');
    push_hex(&mut s, arr, 6, 8);
    push_char(&mut s, '-');
    push_hex(&mut s, arr, 8, 10);
    push_char(&mut s, '-');
    push_hex(&mut s, arr, 10, 16);
    proof {
        assert(s@ =~= guid_string(arr@));
    }
    Ok(s)
}

} // verus!
