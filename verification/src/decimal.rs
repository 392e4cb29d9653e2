//! Decimal rendering and parsing of unsigned integers, used by the
//! resolution parser, the sidecar metadata and frame-channel messages.

use vstd::prelude::*;
use vstd::string::*;
use vstd::arithmetic::div_mod::*;

verus! {

broadcast use
    vstd::arithmetic::div_mod::lemma_mod_bound,
    vstd::arithmetic::div_mod::lemma_div_pos_is_pos;

/// Is `c` one of the ten decimal digit characters?
pub open spec fn is_dec_digit(c: char) -> bool {
    48 <= c as int <= 57
}

/// Numeric value of a decimal digit character.
pub open spec fn digit_val(c: char) -> int {
    c as int - 48
}

/// Does `s` consist of decimal digits only?
pub open spec fn all_dec_digits(s: Seq<char>) -> bool {
    forall|i: int| 0 <= i < s.len() ==> is_dec_digit(#[trigger] s[i])
}

/// Value of a digit string, most significant digit first.
pub open spec fn spec_digits_val(s: Seq<char>) -> int
    decreases s.len(),
{
    if s.len() == 0 {
        0
    } else {
        spec_digits_val(s.drop_last()) * 10 + digit_val(s.last())
    }
}

/// The decimal digit character for a value below ten.
pub open spec fn spec_digit_char(d: int) -> char {
    if d == 0 {
        '0'
    } else if d == 1 {
        '1'
    } else if d == 2 {
        '2'
    } else if d == 3 {
        '3'
    } else if d == 4 {
        '4'
    } else if d == 5 {
        '5'
    } else if d == 6 {
        '6'
    } else if d == 7 {
        '7'
    } else if d == 8 {
        '8'
    } else {
        '9'
    }
}

/// Canonical decimal rendering of a nonnegative integer, no leading
/// zeros except for zero itself.
pub open spec fn spec_dec_digits(n: int) -> Seq<char>
    decreases n,
{
    if n < 10 {
        seq![spec_digit_char(n)]
    } else {
        spec_dec_digits(n / 10).push(spec_digit_char(n % 10))
    }
}

/// A digit string's value is never negative.
pub proof fn lemma_digits_val_nonneg(s: Seq<char>)
    requires
        all_dec_digits(s),
    ensures
        spec_digits_val(s) >= 0,
    decreases s.len(),
{
    if s.len() > 0 {
        lemma_digits_val_nonneg(s.drop_last());
    }
}

/// A prefix of a digit string never has a larger value than the whole.
pub proof fn lemma_digits_val_prefix(s: Seq<char>, k: int)
    requires
        all_dec_digits(s),
        0 <= k <= s.len(),
    ensures
        spec_digits_val(s.take(k)) <= spec_digits_val(s),
    decreases s.len() - k,
{
    if k == s.len() {
        assert(s.take(k) =~= s);
    } else {
        lemma_digits_val_prefix(s, k + 1);
        assert(s.take(k + 1).drop_last() =~= s.take(k));
        assert(s.take(k + 1).last() == s[k]);
        lemma_digits_val_nonneg(s.take(k));
    }
}

/// The canonical rendering consists of digits and reads back as the
/// rendered value.
pub proof fn lemma_dec_digits_val(n: int)
    requires
        0 <= n,
    ensures
        all_dec_digits(spec_dec_digits(n)),
        spec_digits_val(spec_dec_digits(n)) == n,
        spec_dec_digits(n).len() >= 1,
    decreases n,
{
    if n < 10 {
        let s = spec_dec_digits(n);
        assert(s.drop_last() =~= Seq::<char>::empty());
        assert(s.last() == spec_digit_char(n));
        assert(digit_val(spec_digit_char(n)) == n);
        assert(spec_digits_val(s.drop_last()) == 0);
        assert(spec_digits_val(s) == n);
        assert(all_dec_digits(s));
    } else {
        lemma_dec_digits_val(n / 10);
        let s = spec_dec_digits(n);
        let prev = spec_dec_digits(n / 10);
        assert(s.drop_last() =~= prev);
        assert(s.last() == spec_digit_char(n % 10));
        let m = n % 10;
        assert(0 <= m < 10);
        assert(digit_val(spec_digit_char(m)) == m);
        lemma_fundamental_div_mod(n, 10);
    }
}

/// A one-character string slice holding the digit `d`.
fn digit_str(d: u64) -> (s: &'static str)
    requires
        d < 10,
    ensures
        s@ =~= seq![spec_digit_char(d as int)],
{
    proof {
        reveal_strlit("0");
        reveal_strlit("1");
        reveal_strlit("2");
        reveal_strlit("3");
        reveal_strlit("4");
        reveal_strlit("5");
        reveal_strlit("6");
        reveal_strlit("7");
        reveal_strlit("8");
        reveal_strlit("9");
    }
    if d == 0 {
        "0"
    } else if d == 1 {
        "1"
    } else if d == 2 {
        "2"
    } else if d == 3 {
        "3"
    } else if d == 4 {
        "4"
    } else if d == 5 {
        "5"
    } else if d == 6 {
        "6"
    } else if d == 7 {
        "7"
    } else if d == 8 {
        "8"
    } else {
        "9"
    }
}

/// Render `n` in decimal.
pub fn u64_to_string(n: u64) -> (s: String)
    ensures
        s@ == spec_dec_digits(n as int),
    decreases n,
{
    let d: u64 = n % 10;
    if n < 10 {
        proof {
            lemma_small_mod(n as nat, 10);
        }
        let mut s = String::new();
        s.append(digit_str(d));
        proof {
            assert(s@ =~= spec_dec_digits(n as int));
        }
        s
    } else {
        let mut s = u64_to_string(n / 10);
        s.append(digit_str(d));
        proof {
            assert(s@ =~= spec_dec_digits(n as int));
        }
        s
    }
}

/// Parse the digits of `s` between `from` (inclusive) and `to`
/// (exclusive) as a decimal number. Returns the value exactly when that
/// range is nonempty, all digits, and fits in a `u64`.
pub fn parse_u64_digits(s: &str, from: usize, to: usize) -> (r: Option<u64>)
    requires
        from <= to <= s@.len(),
    ensures
        r is Some <==> (from < to && all_dec_digits(s@.subrange(from as int, to as int))
            && spec_digits_val(s@.subrange(from as int, to as int)) <= u64::MAX),
        r is Some ==> r->Some_0 as int == spec_digits_val(s@.subrange(from as int, to as int)),
{
    if from == to {
        return None;
    }
    let ghost whole = s@.subrange(from as int, to as int);
    let mut acc: u64 = 0;
    let mut i: usize = from;
    while i < to
        invariant
            from <= i <= to <= s@.len(),
            from < to,
            whole == s@.subrange(from as int, to as int),
            all_dec_digits(s@.subrange(from as int, i as int)),
            acc as int == spec_digits_val(s@.subrange(from as int, i as int)),
        decreases to - i,
    {
        let c = s.get_char(i);
        let u = c as u32;
        if u < 48 || u > 57 {
            proof {
                assert(whole[i - from] == s@[i as int]);
                assert(!all_dec_digits(whole));
            }
            return None;
        }
        let d = (u - 48) as u64;
        let next = match acc.checked_mul(10) {
            Some(m) => m.checked_add(d),
            None => None,
        };
        proof {
            assert(s@.subrange(from as int, i + 1).drop_last() =~= s@.subrange(
                from as int,
                i as int,
            ));
            assert(s@.subrange(from as int, i + 1).last() == s@[i as int]);
        }
        match next {
            Some(v) => {
                acc = v;
            },
            None => {
                proof {
                    if all_dec_digits(whole) && spec_digits_val(whole) <= u64::MAX {
                        lemma_digits_val_prefix(whole, i + 1 - from);
                        assert(whole.take(i + 1 - from) =~= s@.subrange(from as int, i + 1));
                    }
                }
                return None;
            },
        }
        i += 1;
    }
    proof {
        assert(s@.subrange(from as int, i as int) =~= whole);
    }
    Some(acc)
}

} // verus!
