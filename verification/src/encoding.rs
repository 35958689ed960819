//! Big-endian byte encodings of natural numbers, and decimal digit strings:
//! the specification vocabulary for the crate's fixed-size wire forms, with
//! the round-trip lemmas the adapter's laws rest on.

use vstd::arithmetic::div_mod::{lemma_fundamental_div_mod, lemma_mod_mod};
use vstd::arithmetic::power::{lemma_pow_adds, pow};
use vstd::prelude::*;

verus! {

/// The natural number a big-endian byte string stands for.
pub open spec fn be_val(bytes: Seq<u8>) -> nat
    decreases bytes.len(),
{
    if bytes.len() == 0 {
        0
    } else {
        be_val(bytes.drop_last()) * 256 + bytes.last() as nat
    }
}

/// The `n`-byte big-endian encoding of `v % 256^n`.
pub open spec fn be_bytes(v: nat, n: nat) -> Seq<u8>
    decreases n,
{
    if n == 0 {
        Seq::empty()
    } else {
        be_bytes(v / 256, (n - 1) as nat).push((v % 256) as u8)
    }
}

pub proof fn lemma_be_bytes_len(v: nat, n: nat)
    ensures
        be_bytes(v, n).len() == n,
    decreases n,
{
    if n > 0 {
        lemma_be_bytes_len(v / 256, (n - 1) as nat);
    }
}

/// Encoding then decoding returns the value, for values that fit the width.
pub proof fn lemma_be_bytes_roundtrip(v: nat, n: nat)
    requires
        v < pow(256, n),
    ensures
        be_val(be_bytes(v, n)) == v,
    decreases n,
{
    if n == 0 {
        assert(pow(256, 0) == 1) by {
            vstd::arithmetic::power::lemma_pow0(256);
        }
    } else {
        let m = (n - 1) as nat;
        assert(pow(256, n) == 256 * pow(256, m)) by {
            lemma_pow_adds(256, 1, m);
            vstd::arithmetic::power::lemma_pow1(256);
        }
        assert(v / 256 < pow(256, m)) by {
            vstd::arithmetic::div_mod::lemma_multiply_divide_lt(v as int, 256, pow(256, m));
        }
        lemma_be_bytes_roundtrip(v / 256, m);
        lemma_be_bytes_len(v / 256, m);
        let s = be_bytes(v, n);
        assert(s.drop_last() =~= be_bytes(v / 256, m));
        assert(s.last() == (v % 256) as u8);
        assert(v / 256 * 256 + v % 256 == v) by {
            lemma_fundamental_div_mod(v as int, 256);
        }
    }
}

/// Equal fixed-width encodings come from equal values.
pub proof fn lemma_be_bytes_injective(v: nat, w: nat, n: nat)
    requires
        v < pow(256, n),
        w < pow(256, n),
        be_bytes(v, n) == be_bytes(w, n),
    ensures
        v == w,
{
    lemma_be_bytes_roundtrip(v, n);
    lemma_be_bytes_roundtrip(w, n);
}

/// The last byte of a nonempty encoding is the value's low byte.
pub proof fn lemma_be_bytes_last(v: nat, n: nat)
    requires
        n > 0,
    ensures
        be_bytes(v, n).last() == (v % 256) as u8,
{
}

/// The low byte decides parity: `v % 256` is odd exactly when `v` is.
pub proof fn lemma_low_byte_parity(v: nat)
    ensures
        (v % 256) % 2 == v % 2,
{
    lemma_mod_mod(v as int, 2, 128);
}

/// The character for one decimal digit.
pub open spec fn digit_char(d: nat) -> char {
    if d == 0 {
        '0'
    } else if d == 1 {
        '1'
    } else if d == 2 {
        '2'
    } else if d == 3 {
        '3'
    } else if d == 4 {
        '4'
    } else if d == 5 {
        '5'
    } else if d == 6 {
        '6'
    } else if d == 7 {
        '7'
    } else if d == 8 {
        '8'
    } else {
        '9'
    }
}

/// The decimal digit string of a natural number, without leading zeros.
pub open spec fn dec_digits(v: nat) -> Seq<char>
    decreases v,
{
    if v < 10 {
        seq![digit_char(v)]
    } else {
        dec_digits(v / 10).push(digit_char(v % 10))
    }
}

} // verus!
