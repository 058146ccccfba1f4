//! Decoding of the fixed-width partition name field: little-endian 16-bit
//! code units interpreted as UTF-16 text.
use vstd::prelude::*;
use vstd::pervasive::unreached;
use vstd::slice::slice_index_get;

use crate::chars::{char_from_u32, push_char};
use crate::gpt::GPTError;

verus! {

/// A code unit that opens a surrogate pair.
pub open spec fn is_high_surrogate(u: u16) -> bool {
    0xD800 <= u < 0xDC00
}

/// A code unit that closes a surrogate pair.
pub open spec fn is_low_surrogate(u: u16) -> bool {
    0xDC00 <= u < 0xE000
}

/// A code unit that stands for a scalar value on its own.
pub open spec fn is_basic_unit(u: u16) -> bool {
    !is_high_surrogate(u) && !is_low_surrogate(u)
}

/// The scalar value encoded by a surrogate pair.
pub open spec fn pair_scalar(hi: u16, lo: u16) -> u32
    recommends
        is_high_surrogate(hi),
        is_low_surrogate(lo),
{
    (0x10000 + (hi - 0xD800) * 0x400 + (lo - 0xDC00)) as u32
}

/// The code units form well-formed UTF-16: every high surrogate is followed
/// by a low surrogate, and no low surrogate stands alone.
pub open spec fn utf16_valid(units: Seq<u16>) -> bool
    decreases units.len(),
{
    if units.len() == 0 {
        true
    } else if is_basic_unit(units[0]) {
        utf16_valid(units.skip(1))
    } else if is_high_surrogate(units[0]) && units.len() >= 2 && is_low_surrogate(units[1]) {
        utf16_valid(units.skip(2))
    } else {
        false
    }
}

/// The characters encoded by well-formed UTF-16 code units.
pub open spec fn utf16_decode(units: Seq<u16>) -> Seq<char>
    recommends
        utf16_valid(units),
    decreases units.len(),
{
    if units.len() == 0 {
        seq![]
    } else if is_basic_unit(units[0]) {
        seq![(units[0] as u32) as char] + utf16_decode(units.skip(1))
    } else if is_high_surrogate(units[0]) && units.len() >= 2 && is_low_surrogate(units[1]) {
        seq![pair_scalar(units[0], units[1]) as char] + utf16_decode(units.skip(2))
    } else {
        seq![]
    }
}

/// The 16-bit code units read little-endian from a byte sequence; a trailing
/// odd byte is ignored.
pub open spec fn name_units(bytes: Seq<u8>) -> Seq<u16> {
    Seq::new((bytes.len() / 2) as nat, |i: int| (bytes[2 * i] + bytes[2 * i + 1] * 0x100) as u16)
}

/// Decodes a partition name field: the bytes are read as little-endian
/// 16-bit code units and those as UTF-16 text.  An odd byte count or
/// ill-formed UTF-16 is rejected; trailing padding characters are kept.
pub fn read_name(slice: &[u8]) -> (r: Result<String, GPTError>)
    ensures
        match r {
            Ok(s) => slice@.len() % 2 == 0 && utf16_valid(name_units(slice@)) && s@
                == utf16_decode(name_units(slice@)),
            Err(GPTError::InvalidNameEncoding) => slice@.len() % 2 != 0 || !utf16_valid(
                name_units(slice@),
            ),
            Err(_) => false,
        },
{
    if slice.len() % 2 != 0 {
        return Err(GPTError::InvalidNameEncoding);
    }

    let slen: usize = slice.len();
    let n = slen / 2;
    let mut units: Vec<u16> = Vec::new();
    let mut i: usize = 0;
    while i < n
        invariant
            i <= n,
            slen == slice@.len(),
            n == slice@.len() / 2,
            slice@.len() % 2 == 0,
            units@.len() == i,
            forall|k: int| 0 <= k < i ==> units@[k] == name_units(slice@)[k],
        decreases n - i,
    {
        proof {
            assert(2 * (slice@.len() / 2) <= slice@.len());
            assert(2 * i + 1 < slice@.len());
        }
        let lo = *slice_index_get(slice, 2 * i);
        let hi = *slice_index_get(slice, 2 * i + 1);
        let u: u16 = (lo as u16) + (hi as u16) * 0x100;
        units.push(u);
        i = i + 1;
    }
    proof {
        assert(units@ =~= name_units(slice@));
    }

    let ghost us: Seq<u16> = units@;
    let mut out = String::new();
    let mut j: usize = 0;
    proof {
        assert(us.skip(0) =~= us);
    }
    while j < units.len()
        invariant
            j <= units@.len(),
            units@ == us,
            us == name_units(slice@),
            slice@.len() % 2 == 0,
            utf16_valid(us) == utf16_valid(us.skip(j as int)),
            utf16_valid(us.skip(j as int)) ==> utf16_decode(us) == out@ + utf16_decode(
                us.skip(j as int),
            ),
        decreases units@.len() - j,
    {
        let u = units[j];
        let ghost rest = us.skip(j as int);
        proof {
            assert(rest.len() == us.len() - j);
            assert(rest[0] == us[j as int]);
        }
        if u < 0xD800 || u >= 0xE000 {
            let c = match char_from_u32(u as u32) {
                Some(c) => c,
                None => unreached(),
            };
            proof {
                vstd::utf8::char_u32_cast(c, u as u32);
                assert(rest.skip(1) =~= us.skip(j as int + 1));
                assert(utf16_valid(rest) == utf16_valid(us.skip(j as int + 1)));
                assert(utf16_decode(rest) == seq![c] + utf16_decode(us.skip(j as int + 1)));
                assert(out@.push(c) =~= out@ + seq![c]);
                assert((out@ + seq![c]) + utf16_decode(us.skip(j as int + 1)) =~= out@ + (seq![c]
                    + utf16_decode(us.skip(j as int + 1))));
            }
            push_char(&mut out, c);
            j = j + 1;
        } else if u < 0xDC00 {
            // a high surrogate must pair with a following low surrogate
            if j + 1 < units.len() {
                let u2 = units[j + 1];
                if 0xDC00 <= u2 && u2 < 0xE000 {
                    let v: u32 = 0x10000 + (u as u32 - 0xD800) * 0x400 + (u2 as u32 - 0xDC00);
                    proof {
                        assert(rest[1] == us[j as int + 1]);
                        assert(v == pair_scalar(u, u2));
                    }
                    let c = match char_from_u32(v) {
                        Some(c) => c,
                        None => unreached(),
                    };
                    proof {
                        vstd::utf8::char_u32_cast(c, v);
                        assert(rest.skip(2) =~= us.skip(j as int + 2));
                        assert(utf16_valid(rest) == utf16_valid(us.skip(j as int + 2)));
                        assert(utf16_decode(rest) == seq![c] + utf16_decode(us.skip(j as int + 2)));
                        assert(out@.push(c) =~= out@ + seq![c]);
                        assert((out@ + seq![c]) + utf16_decode(us.skip(j as int + 2)) =~= out@ + (
                        seq![c] + utf16_decode(us.skip(j as int + 2))));
                    }
                    push_char(&mut out, c);
                    j = j + 2;
                } else {
                    proof {
                        assert(rest[1] == us[j as int + 1]);
                        assert(!utf16_valid(rest));
                    }
                    return Err(GPTError::InvalidNameEncoding);
                }
            } else {
                proof {
                    assert(rest.len() < 2);
                    assert(!utf16_valid(rest));
                }
                return Err(GPTError::InvalidNameEncoding);
            }
        } else {
            // a lone low surrogate is ill-formed
            proof {
                assert(!utf16_valid(rest));
            }
            return Err(GPTError::InvalidNameEncoding);
        }
    }
    proof {
        assert(us.skip(us.len() as int) =~= Seq::<u16>::empty());
        assert(utf16_valid(us.skip(us.len() as int)));
        assert(utf16_decode(us.skip(us.len() as int)) =~= Seq::<char>::empty());
        assert(out@ + Seq::<char>::empty() =~= out@);
    }
    Ok(out)
}

} // verus!
