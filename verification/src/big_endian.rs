//! Fixed-width big-endian byte strings and the natural numbers they denote.

use vstd::prelude::*;
use vstd::arithmetic::div_mod::{
    lemma_fundamental_div_mod, lemma_multiply_divide_lt, lemma_remainder_lower,
    lemma_remainder_upper,
};
use vstd::arithmetic::power::pow;

verus! {

/// The natural number a big-endian byte string denotes.
pub open spec fn be_val(s: Seq<u8>) -> nat
    decreases s.len(),
{
    if s.len() == 0 {
        0
    } else {
        (be_val(s.drop_last()) * 256 + s.last()) as nat
    }
}

/// The canonical `n`-byte big-endian encoding of `v` (mod 256^n).
pub open spec fn be_bytes(v: nat, n: nat) -> Seq<u8>
    decreases n,
{
    if n == 0 {
        Seq::empty()
    } else {
        be_bytes(v / 256, (n - 1) as nat).push((v % 256) as u8)
    }
}

pub proof fn lemma_be_bytes_len(v: nat, n: nat)
    ensures
        be_bytes(v, n).len() == n,
    decreases n,
{
    if n > 0 {
        lemma_be_bytes_len(v / 256, (n - 1) as nat);
    }
}

/// Decoding inverts encoding for every value that fits in `n` bytes.
pub proof fn lemma_be_val_of_be_bytes(v: nat, n: nat)
    requires
        v < pow(256, n),
    ensures
        be_val(be_bytes(v, n)) == v,
    decreases n,
{
    reveal(pow);
    if n == 0 {
        assert(pow(256, 0) == 1);
    } else {
        let m = (n - 1) as nat;
        let low = (v % 256) as u8;
        let hi = v / 256;
        assert(pow(256, n) == 256 * pow(256, m));
        lemma_multiply_divide_lt(v as int, 256, pow(256, m));
        lemma_be_val_of_be_bytes(hi, m);
        lemma_be_bytes_len(hi, m);
        let s = be_bytes(v, n);
        assert(s.drop_last() =~= be_bytes(hi, m));
        assert(s.last() == low);
        lemma_remainder_lower(v as int, 256);
        lemma_remainder_upper(v as int, 256);
        assert(low == v % 256);
        lemma_fundamental_div_mod(v as int, 256);
        assert(be_val(s) == hi * 256 + v % 256);
    }
}

} // verus!
