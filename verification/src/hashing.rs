//! SHA-256 integrity checksums, rendered as lowercase hexadecimal.

use vstd::prelude::*;
use vstd::string::*;
use sha2::Digest;

verus! {

/// The digest SHA-256 assigns to a byte sequence.
pub uninterp spec fn sha256_of(data: Seq<u8>) -> Seq<u8>;

/// Relies on sha2::Sha256 (the `Digest` impl): the digest depends on the
/// input bytes alone and is 32 bytes long.
#[verifier::external_body]
pub(crate) fn sha256_digest(data: &[u8]) -> (r: Vec<u8>)
    ensures
        r@ == sha256_of(data@),
        r@.len() == 32,
{
    let digest = sha2::Sha256::digest(data);
    digest.to_vec()
}

/// The lowercase hexadecimal digit character for a value below sixteen.
pub open spec fn spec_hex_char(d: int) -> char {
    if d == 0 {
        '0'
    } else if d == 1 {
        '1'
    } else if d == 2 {
        '2'
    } else if d == 3 {
        '3'
    } else if d == 4 {
        '4'
    } else if d == 5 {
        '5'
    } else if d == 6 {
        '6'
    } else if d == 7 {
        '7'
    } else if d == 8 {
        '8'
    } else if d == 9 {
        '9'
    } else if d == 10 {
        'a'
    } else if d == 11 {
        'b'
    } else if d == 12 {
        'c'
    } else if d == 13 {
        'd'
    } else if d == 14 {
        'e'
    } else {
        'f'
    }
}

/// Lowercase hexadecimal rendering of a byte sequence: two digits per
/// byte, high nibble first.
pub open spec fn spec_hex_of(data: Seq<u8>) -> Seq<char> {
    Seq::new(
        2 * data.len(),
        |i: int| if i % 2 == 0 {
            spec_hex_char(data[i / 2] as int / 16)
        } else {
            spec_hex_char(data[i / 2] as int % 16)
        },
    )
}

/// A one-character string slice holding the lowercase hex digit `d`.
fn hex_char_str(d: u8) -> (s: &'static str)
    requires
        d < 16,
    ensures
        s@ =~= seq![spec_hex_char(d as int)],
{
    proof {
        reveal_strlit("0");
        reveal_strlit("1");
        reveal_strlit("2");
        reveal_strlit("3");
        reveal_strlit("4");
        reveal_strlit("5");
        reveal_strlit("6");
        reveal_strlit("7");
        reveal_strlit("8");
        reveal_strlit("9");
        reveal_strlit("a");
        reveal_strlit("b");
        reveal_strlit("c");
        reveal_strlit("d");
        reveal_strlit("e");
        reveal_strlit("f");
    }
    if d == 0 {
        "0"
    } else if d == 1 {
        "1"
    } else if d == 2 {
        "2"
    } else if d == 3 {
        "3"
    } else if d == 4 {
        "4"
    } else if d == 5 {
        "5"
    } else if d == 6 {
        "6"
    } else if d == 7 {
        "7"
    } else if d == 8 {
        "8"
    } else if d == 9 {
        "9"
    } else if d == 10 {
        "a"
    } else if d == 11 {
        "b"
    } else if d == 12 {
        "c"
    } else if d == 13 {
        "d"
    } else if d == 14 {
        "e"
    } else {
        "f"
    }
}

/// Render bytes as lowercase hex.
pub fn to_hex_string(data: &Vec<u8>) -> (s: String)
    ensures
        s@ == spec_hex_of(data@),
        s@.len() == 2 * data@.len(),
{
    let mut s = String::new();
    let mut i: usize = 0;
    while i < data.len()
        invariant
            i <= data@.len(),
            s@.len() == 2 * i,
            forall|j: int| 0 <= j < 2 * i ==> s@[j] == spec_hex_of(data@)[j],
        decreases data@.len() - i,
    {
        let b = data[i];
        let hi = b / 16;
        let lo = b % 16;
        s.append(hex_char_str(hi));
        s.append(hex_char_str(lo));
        proof {
            vstd::arithmetic::div_mod::lemma_mod_multiples_vanish(i as int, 0, 2);
            vstd::arithmetic::div_mod::lemma_mod_multiples_vanish(i as int, 1, 2);
            vstd::arithmetic::div_mod::lemma_small_mod(1nat, 2nat);
            vstd::arithmetic::div_mod::lemma_div_multiples_vanish_fancy(i as int, 0, 2);
            vstd::arithmetic::div_mod::lemma_div_multiples_vanish_fancy(i as int, 1, 2);
            assert(spec_hex_of(data@)[2 * i] == spec_hex_char(hi as int));
            assert(spec_hex_of(data@)[2 * i + 1] == spec_hex_char(lo as int));
        }
        i += 1;
    }
    proof {
        assert(s@ =~= spec_hex_of(data@));
    }
    s
}

/// Lowercase hexadecimal SHA-256 digest of `data`: 64 characters.
pub fn checksum_hex(data: &Vec<u8>) -> (s: String)
    ensures
        s@ == spec_hex_of(sha256_of(data@)),
        s@.len() == 64,
{
    let digest = sha256_digest(data.as_slice());
    to_hex_string(&digest)
}

/// Do two string slices hold the same characters?
pub fn str_eq_chars(a: &str, b: &str) -> (r: bool)
    ensures
        r == (a@ == b@),
{
    let alen = a.unicode_len();
    let blen = b.unicode_len();
    if alen != blen {
        return false;
    }
    let mut i: usize = 0;
    while i < alen
        invariant
            i <= alen,
            alen == a@.len(),
            alen == b@.len(),
            forall|j: int| 0 <= j < i ==> a@[j] == b@[j],
        decreases alen - i,
    {
        if a.get_char(i) != b.get_char(i) {
            return false;
        }
        i += 1;
    }
    proof {
        assert(a@ =~= b@);
    }
    true
}

} // verus!
