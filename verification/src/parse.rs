use vstd::prelude::*;
use vstd::arithmetic::power::pow;
use crate::bigint::{BigNat, big_add, big_mul, bn_zero, bn_from_u64, bn_pow10};
use crate::tokens::{Token, Price, Fraction};
use crate::ConvError;

verus! {

pub open spec fn is_digit(c: char) -> bool {
    '0' <= c <= '9'
}

pub open spec fn digit_val(c: char) -> int {
    c as u32 - 48
}

/// The grammar of a price string: at least one character, every character a
/// digit or a dot, at most one dot, and a digit at the end (so a dot is
/// followed by at least one digit).
pub open spec fn valid_price_str(s: Seq<char>) -> bool {
    &&& s.len() >= 1
    &&& forall|i: int| 0 <= i < s.len() ==> is_digit(#[trigger] s[i]) || s[i] == '.'
    &&& is_digit(s[s.len() - 1])
    &&& forall|i: int, j: int|
        #![trigger s[i], s[j]]
        0 <= i < j < s.len() ==> !(s[i] == '.' && s[j] == '.')
}

/// The value of a digit string read in base ten.
pub open spec fn digits_val(s: Seq<char>) -> nat
    decreases s.len(),
{
    if s.len() == 0 {
        0
    } else {
        (digits_val(s.drop_last()) * 10 + digit_val(s.last())) as nat
    }
}

/// Whether `d` marks the dot of `s`: its index, or the length when `s` has no
/// dot.
pub open spec fn dot_at(s: Seq<char>, d: int) -> bool {
    &&& 0 <= d <= s.len()
    &&& (d < s.len() ==> s[d] == '.')
    &&& forall|i: int| 0 <= i < s.len() && i != d ==> #[trigger] s[i] != '.'
}

/// The digits of `s` with the dot at `d` removed.
pub open spec fn merged_digits(s: Seq<char>, d: int) -> Seq<char> {
    if d == s.len() {
        s
    } else {
        s.subrange(0, d) + s.subrange(d + 1, s.len() as int)
    }
}

/// Parses a decimal price string into the exact rational price of `base` in
/// terms of `quote`: the digits over 10^(fraction length), rescaled by the
/// two tokens' decimals. No floating point is involved; the conversion is
/// lossless.
pub fn parse_price(base: Token, quote: Token, price: &str) -> (r: Result<Price, ConvError>)
    requires
        price@.len() <= 1000000,
    ensures
        r is Ok <==> valid_price_str(price@),
        r matches Err(e) ==> e == ConvError::InvalidFormat,
        r matches Ok(p) ==> {
            &&& p.base == base
            &&& p.quote == quote
            &&& p.wf()
            &&& exists|d: int|
                #[trigger] dot_at(price@, d) && p.num() == digits_val(merged_digits(price@, d))
                    * pow(10, quote.decimals as nat) && p.den() == pow(
                    10,
                    ((if d == price@.len() {
                        0int
                    } else {
                        price@.len() - 1 - d
                    }) + base.decimals) as nat,
                )
        },
{
    let n = price.unicode_len();
    if n == 0 {
        return Err(ConvError::InvalidFormat);
    }
    let last = price.get_char(n - 1);
    if !('0' <= last && last <= '9') {
        return Err(ConvError::InvalidFormat);
    }
    // First pass: find the dot and reject anything outside the grammar.
    let mut dot: usize = n;
    let mut i: usize = 0;
    while i < n
        invariant
            0 <= i <= n,
            n == price@.len(),
            n <= 1000000,
            dot == n || (dot < i && price@[dot as int] == '.'),
            forall|k: int|
                0 <= k < i && k != dot ==> is_digit(#[trigger] price@[k]) && price@[k] != '.',
        decreases n - i,
    {
        let c = price.get_char(i);
        if c == '.' {
            if dot < n {
                proof {
                    assert(price@[dot as int] == '.' && price@[i as int] == '.');
                }
                return Err(ConvError::InvalidFormat);
            }
            dot = i;
        } else if !('0' <= c && c <= '9') {
            proof {
                assert(!is_digit(price@[i as int]) && price@[i as int] != '.');
            }
            return Err(ConvError::InvalidFormat);
        }
        i = i + 1;
    }
    if dot == n - 1 {
        return Err(ConvError::InvalidFormat);
    }
    proof {
        assert(valid_price_str(price@));
        assert(dot_at(price@, dot as int));
    }
    // Second pass: accumulate the digits, skipping the dot.
    let ten = bn_from_u64(10);
    let mut acc = bn_zero();
    let ghost s = price@;
    let ghost d = dot as int;
    let mut j: usize = 0;
    proof {
        assert(merged_prefix(s, d, 0) =~= Seq::<char>::empty());
    }
    while j < n
        invariant
            0 <= j <= n,
            n == s.len(),
            s == price@,
            dot_at(s, d),
            d == dot as int,
            dot <= n,
            ten.val() == 10,
            acc.wf(),
            acc.val() == digits_val(merged_prefix(s, d, j as int)),
            forall|k: int| 0 <= k < s.len() && k != d ==> is_digit(#[trigger] s[k]),
        decreases n - j,
    {
        let c = price.get_char(j);
        if !(j == dot) {
            let dv: u64 = (c as u32 - 48) as u64;
            let dvn = bn_from_u64(dv);
            let shifted = big_mul(&acc, &ten);
            acc = big_add(&shifted, &dvn);
            proof {
                let prev = merged_prefix(s, d, j as int);
                let next = merged_prefix(s, d, j + 1);
                assert(next =~= prev.push(s[j as int]));
                assert(next.drop_last() =~= prev);
                assert(digits_val(next) == digits_val(prev) * 10 + digit_val(s[j as int]));
            }
        } else {
            proof {
                assert(merged_prefix(s, d, j + 1) =~= merged_prefix(s, d, j as int));
            }
        }
        j = j + 1;
    }
    proof {
        assert(merged_prefix(s, d, n as int) =~= merged_digits(s, d));
    }
    let decimals: u32 = if dot == n {
        0
    } else {
        (n - 1 - dot) as u32
    };
    let num = big_mul(&acc, &bn_pow10(quote.decimals as u32));
    let den = bn_pow10(decimals + base.decimals as u32);
    proof {
        crate::dec::lemma_p10_pos((decimals + base.decimals) as nat);
    }
    Ok(Price { base, quote, fraction: Fraction { numerator: num, denominator: den } })
}

/// The digits among the first `j` characters of `s`, the dot at `d` skipped.
pub open spec fn merged_prefix(s: Seq<char>, d: int, j: int) -> Seq<char> {
    if j <= d {
        s.subrange(0, j)
    } else {
        s.subrange(0, d) + s.subrange(d + 1, j)
    }
}

} // verus!
