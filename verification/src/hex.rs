//! The fixed-width hexadecimal form in which the text format carries byte
//! arrays: two digits per byte, upper or lower case accepted.

use vstd::prelude::*;

verus! {

/// Value of one hexadecimal digit, if it is one.
pub open spec fn hex_val(c: u8) -> Option<u8> {
    if 48 <= c <= 57 {
        Some((c - 48) as u8)
    } else if 97 <= c <= 102 {
        Some((c - 87) as u8)
    } else if 65 <= c <= 70 {
        Some((c - 55) as u8)
    } else {
        None
    }
}

/// A digit string decodes when its length is even and every character is a
/// hexadecimal digit; each byte is the value of one digit pair.
pub open spec fn hex_decodes(s: Seq<u8>, v: Seq<u8>) -> bool {
    &&& s.len() == 2 * v.len()
    &&& forall|i: int|
        0 <= i < v.len() ==> #[trigger] v[i] == ({
            let hi = hex_val(s[2 * i])->Some_0;
            let lo = hex_val(s[2 * i + 1])->Some_0;
            (16 * hi + lo) as u8
        })
    &&& forall|i: int| 0 <= i < s.len() ==> #[trigger] hex_val(s[i]) is Some
}

/// Decodes a hexadecimal digit string into bytes; an odd length or a
/// character that is no digit is rejected.
pub fn decode_hex(s: &[u8]) -> (r: Option<Vec<u8>>)
    ensures
        match r {
            Some(v) => hex_decodes(s@, v@),
            None => !(exists|v: Seq<u8>| hex_decodes(s@, v)),
        },
{
    if s.len() % 2 != 0 {
        proof {
            assert forall|v: Seq<u8>| !hex_decodes(s@, v) by {}
        }
        return None;
    }
    let n = s.len() / 2;
    let mut out: Vec<u8> = Vec::new();
    let mut i: usize = 0;
    while i < n
        invariant
            s@.len() == 2 * n,
            0 <= i <= n,
            out@.len() == i,
            forall|j: int|
                0 <= j < i ==> #[trigger] out@[j] == ({
                    let hi = hex_val(s@[2 * j])->Some_0;
                    let lo = hex_val(s@[2 * j + 1])->Some_0;
                    (16 * hi + lo) as u8
                }),
            forall|j: int| 0 <= j < 2 * i ==> #[trigger] hex_val(s@[j]) is Some,
        decreases n - i,
    {
        let hi = match hex_digit(s[2 * i]) {
            Some(d) => d,
            None => {
                proof {
                    assert forall|v: Seq<u8>| !hex_decodes(s@, v) by {
                        assert(hex_val(s@[2 * i as int]) is None);
                    }
                }
                return None;
            },
        };
        let lo = match hex_digit(s[2 * i + 1]) {
            Some(d) => d,
            None => {
                proof {
                    assert forall|v: Seq<u8>| !hex_decodes(s@, v) by {
                        assert(hex_val(s@[2 * i + 1]) is None);
                    }
                }
                return None;
            },
        };
        out.push(16 * hi + lo);
        i = i + 1;
    }
    Some(out)
}

/// Value of one hexadecimal digit character.
pub fn hex_digit(c: u8) -> (r: Option<u8>)
    ensures
        r == hex_val(c),
{
    if 48 <= c && c <= 57 {
        Some(c - 48)
    } else if 97 <= c && c <= 102 {
        Some(c - 87)
    } else if 65 <= c && c <= 70 {
        Some(c - 55)
    } else {
        None
    }
}

} // verus!
