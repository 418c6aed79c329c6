//! Conversion of hexadecimal text into a ROM image.
//!
//! A ROM may be written as hex text: whitespace is ignored, every
//! remaining pair of hex digits becomes one byte, and a trailing
//! unpaired digit is dropped. A non-hex, non-whitespace byte makes
//! the whole text invalid.

use vstd::prelude::*;

verus! {

/// ASCII whitespace, as the hex reader skips it.
pub open spec fn is_hex_ws(b: u8) -> bool {
    b == 0x20 || b == 0x09 || b == 0x0A || b == 0x0B || b == 0x0C || b == 0x0D
}

/// The value of one hex digit, upper or lower case, or None.
pub open spec fn hex_val(b: u8) -> Option<u8> {
    if 0x30 <= b <= 0x39 {
        Some((b - 0x30) as u8)
    } else if 0x61 <= b <= 0x66 {
        Some((b - 87) as u8)
    } else if 0x41 <= b <= 0x46 {
        Some((b - 55) as u8)
    } else {
        None
    }
}

/// The text with all whitespace taken out, order kept.
pub open spec fn strip_ws(s: Seq<u8>) -> Seq<u8>
    decreases s.len(),
{
    if s.len() == 0 {
        Seq::empty()
    } else if is_hex_ws(s.last()) {
        strip_ws(s.drop_last())
    } else {
        strip_ws(s.drop_last()) + seq![s.last()]
    }
}

/// Every digit that belongs to a complete pair is a hex digit. A
/// trailing unpaired byte is never looked at.
pub open spec fn pairs_valid(d: Seq<u8>) -> bool {
    forall|j: int| 0 <= j < 2 * (d.len() / 2) ==> (#[trigger] hex_val(d[j])) is Some
}

/// The bytes the digit pairs stand for, high digit first.
pub open spec fn decode_pairs(d: Seq<u8>) -> Seq<u8> {
    Seq::new((d.len() / 2) as nat, |j: int|
        (hex_val(d[2 * j])->Some_0 * 16 + hex_val(d[2 * j + 1])->Some_0) as u8)
}

/// What decoding a whole hex text yields: strip whitespace, then
/// pair the digits; None when some paired byte is not a hex digit.
pub open spec fn hex_decoded(s: Seq<u8>) -> Option<Seq<u8>> {
    if pairs_valid(strip_ws(s)) {
        Some(decode_pairs(strip_ws(s)))
    } else {
        None
    }
}

/// The value of one hex digit byte, or None when it is not one.
fn hex_digit(b: u8) -> (r: Option<u8>)
    ensures
        r == hex_val(b),
        r is Some ==> r->Some_0 < 16,
{
    if b >= 0x30 && b <= 0x39 {
        Some(b - 0x30)
    } else if b >= 0x61 && b <= 0x66 {
        Some(b - 87)
    } else if b >= 0x41 && b <= 0x46 {
        Some(b - 55)
    } else {
        None
    }
}

/// Decode hex text into ROM bytes, exactly as `hex_decoded` says:
/// whitespace is skipped, each remaining digit pair becomes a byte,
/// a trailing unpaired digit is dropped, and any other byte in a
/// pair makes the result None.
pub fn decode_hex(text: &Vec<u8>) -> (r: Option<Vec<u8>>)
    ensures
        match r {
            Some(v) => hex_decoded(text@) == Some(v@),
            None => hex_decoded(text@) is None,
        },
{
    let mut digits: Vec<u8> = Vec::new();
    let mut k: usize = 0;
    while k < text.len()
        invariant
            k <= text@.len(),
            digits@ == strip_ws(text@.subrange(0, k as int)),
        decreases text@.len() - k,
    {
        let b = text[k];
        proof {
            assert(text@.subrange(0, k + 1).drop_last() =~= text@.subrange(0, k as int));
            assert(text@.subrange(0, k + 1).last() == b);
        }
        if !(b == 0x20 || b == 0x09 || b == 0x0A || b == 0x0B || b == 0x0C || b == 0x0D) {
            digits.push(b);
        }
        k += 1;
    }
    proof {
        assert(text@.subrange(0, text@.len() as int) =~= text@);
    }
    let m: usize = digits.len() / 2;
    let mut out: Vec<u8> = Vec::new();
    let mut j: usize = 0;
    while j < m
        invariant
            j <= m,
            m == digits@.len() / 2,
            2 * m <= digits@.len(),
            out@.len() == j,
            digits@ == strip_ws(text@),
            forall|q: int| 0 <= q < 2 * j ==> (#[trigger] hex_val(digits@[q])) is Some,
            forall|q: int| 0 <= q < j ==> out@[q]
                == (hex_val(digits@[2 * q])->Some_0 * 16
                    + hex_val(digits@[2 * q + 1])->Some_0) as u8,
        decreases m - j,
    {
        let a = hex_digit(digits[2 * j]);
        let b = hex_digit(digits[2 * j + 1]);
        if a.is_none() || b.is_none() {
            proof {
                assert(!pairs_valid(strip_ws(text@)));
            }
            return None;
        }
        let hi = a.unwrap();
        let lo = b.unwrap();
        out.push(hi * 16 + lo);
        j += 1;
    }
    proof {
        assert(pairs_valid(digits@));
        assert(out@ =~= decode_pairs(digits@));
    }
    Some(out)
}

} // verus!
