//! Arbitrary-precision numbers in decimal and binary text, through GMP.
use vstd::prelude::*;

use crate::bits::{nat_bits, nat_of};

verus! {

/// Whether `s` is a non-empty run of decimal digits.
pub open spec fn is_decimal(s: Seq<char>) -> bool {
    s.len() > 0 && forall|i: int| 0 <= i < s.len() ==> '0' <= #[trigger] s[i] <= '9'
}

/// The number that the decimal digits `s` denote.
pub open spec fn decimal_value(s: Seq<char>) -> nat
    decreases s.len(),
{
    if s.len() == 0 {
        0
    } else {
        10 * decimal_value(s.drop_last()) + ((s.last() as u32) - ('0' as u32)) as nat
    }
}

pub open spec fn digit_char(d: nat) -> char {
    seq!['0', '1', '2', '3', '4', '5', '6', '7', '8', '9'][d as int]
}

/// The decimal digits of `n`, without leading zeros.
pub open spec fn decimal_text(n: nat) -> Seq<char>
    decreases n,
{
    if n < 10 {
        seq![digit_char(n)]
    } else {
        decimal_text(n / 10).push(digit_char(n % 10))
    }
}

/// The binary digits of `n`, without leading zeros.
pub open spec fn binary_text(n: nat) -> Seq<char> {
    nat_bits(n).map_values(|b: bool| if b { '1' } else { '0' })
}

/// What GMP makes of `s` as a base-10 integer, written back in base 2.
pub uninterp spec fn gmp_binary(s: Seq<char>) -> Option<Seq<char>>;

/// Relies on `Mpz::from_str` (base 10; fails on what GMP's `mpz_set_str` rejects) and on
/// `Mpz::to_str_radix(2)`: a run of decimal digits comes back as the binary digits of its value.
#[verifier::external_body]
pub fn decimal_to_binary(s: &str) -> (r: Option<String>)
    ensures
        r is Some == gmp_binary(s@) is Some,
        r is Some ==> r->Some_0@ == gmp_binary(s@)->Some_0,
        is_decimal(s@) ==> r is Some && r->Some_0@ == binary_text(decimal_value(s@)),
{
    match <gmp::mpz::Mpz as std::str::FromStr>::from_str(s) {
        Ok(n) => Some(n.to_str_radix(2)),
        Err(_) => None,
    }
}

/// Relies on `Mpz::from_str_radix(s, 2)` and `Mpz::to_str_radix(10)`: binary digits in, the
/// decimal digits of the same number out.
#[verifier::external_body]
pub fn binary_to_decimal(s: &str) -> (r: String)
    requires
        s@.len() > 0,
        forall|i: int| 0 <= i < s@.len() ==> (#[trigger] s@[i] == '0' || s@[i] == '1'),
    ensures
        r@ == decimal_text(nat_of(s@.map_values(|c: char| c == '1'))),
{
    gmp::mpz::Mpz::from_str_radix(s, 2).unwrap().to_str_radix(10)
}

} // verus!
