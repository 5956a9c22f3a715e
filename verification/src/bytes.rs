//! Fixed-width integers as bytes in the byte order of the running machine.
//!
//! The model is positional: `le_bytes` writes a natural number as base-256
//! digits, least significant first, and `native_bytes` keeps or reverses that
//! order according to `vstd::endian::endianness()`.  Signed integers are
//! taken in two's complement.

use vstd::endian::{endianness, Endian};
use vstd::prelude::*;

verus! {

/// `n` base-256 digits of `u`, least significant first.
pub open spec fn le_bytes(u: nat, n: nat) -> Seq<u8>
    decreases n,
{
    if n == 0 {
        Seq::empty()
    } else {
        seq![(u % 256) as u8] + le_bytes(u / 256, (n - 1) as nat)
    }
}

/// The number whose base-256 digits, least significant first, are `s`.
pub open spec fn le_value(s: Seq<u8>) -> nat
    decreases s.len(),
{
    if s.len() == 0 {
        0
    } else {
        s[0] as nat + 256 * le_value(s.drop_first())
    }
}

/// `u` has at most `n` base-256 digits.
pub open spec fn fits_bytes(u: nat, n: nat) -> bool
    decreases n,
{
    if n == 0 {
        u == 0
    } else {
        fits_bytes(u / 256, (n - 1) as nat)
    }
}

/// `n` bytes of `u` in the byte order of the running machine.
pub open spec fn native_bytes(u: nat, n: nat) -> Seq<u8> {
    match endianness() {
        Endian::Little => le_bytes(u, n),
        Endian::Big => le_bytes(u, n).reverse(),
    }
}

/// The number that `s` holds in the byte order of the running machine.
pub open spec fn native_value(s: Seq<u8>) -> nat {
    match endianness() {
        Endian::Little => le_value(s),
        Endian::Big => le_value(s.reverse()),
    }
}

pub open spec fn i32_bytes(v: i32) -> Seq<u8> {
    native_bytes(
        if v >= 0 {
            v as nat
        } else {
            (v + 0x1_0000_0000) as nat
        },
        4,
    )
}

pub open spec fn i32_value(s: Seq<u8>) -> i32 {
    let u = native_value(s);
    if u >= 0x8000_0000 {
        (u - 0x1_0000_0000) as i32
    } else {
        u as i32
    }
}

pub open spec fn i64_bytes(v: i64) -> Seq<u8> {
    native_bytes(
        if v >= 0 {
            v as nat
        } else {
            (v + 0x1_0000_0000_0000_0000) as nat
        },
        8,
    )
}

pub open spec fn i64_value(s: Seq<u8>) -> i64 {
    let u = native_value(s);
    if u >= 0x8000_0000_0000_0000 {
        (u - 0x1_0000_0000_0000_0000) as i64
    } else {
        u as i64
    }
}

pub open spec fn u64_bytes(v: u64) -> Seq<u8> {
    native_bytes(v as nat, 8)
}

pub open spec fn u64_value(s: Seq<u8>) -> u64 {
    native_value(s) as u64
}

pub proof fn lemma_le_bytes_len(u: nat, n: nat)
    ensures
        le_bytes(u, n).len() == n,
    decreases n,
{
    if n > 0 {
        lemma_le_bytes_len(u / 256, (n - 1) as nat);
    }
}

/// Reading back the digits of a number that fits gives the number.
pub proof fn lemma_le_value_of_bytes(u: nat, n: nat)
    requires
        fits_bytes(u, n),
    ensures
        le_value(le_bytes(u, n)) == u,
    decreases n,
{
    if n > 0 {
        let rest = le_bytes(u / 256, (n - 1) as nat);
        lemma_le_value_of_bytes(u / 256, (n - 1) as nat);
        lemma_le_bytes_len(u / 256, (n - 1) as nat);
        assert(le_bytes(u, n).drop_first() =~= rest);
        assert(le_bytes(u, n)[0] == (u % 256) as u8);
    }
}

/// Writing out the number that some digits hold gives the digits.
pub proof fn lemma_le_bytes_of_value(s: Seq<u8>)
    ensures
        fits_bytes(le_value(s), s.len()),
        le_bytes(le_value(s), s.len()) == s,
    decreases s.len(),
{
    if s.len() > 0 {
        let rest = s.drop_first();
        lemma_le_bytes_of_value(rest);
        let u = le_value(s);
        assert(u == s[0] as nat + 256 * le_value(rest));
        assert(u / 256 == le_value(rest));
        assert(u % 256 == s[0] as nat);
        assert(le_bytes(u, s.len()) =~= s);
    }
}

pub proof fn lemma_native_bytes_len(u: nat, n: nat)
    ensures
        native_bytes(u, n).len() == n,
{
    lemma_le_bytes_len(u, n);
}

pub proof fn lemma_native_value_of_bytes(u: nat, n: nat)
    requires
        fits_bytes(u, n),
    ensures
        native_value(native_bytes(u, n)) == u,
{
    lemma_le_value_of_bytes(u, n);
    assert(le_bytes(u, n).reverse().reverse() =~= le_bytes(u, n));
}

pub proof fn lemma_native_bytes_of_value(s: Seq<u8>)
    ensures
        fits_bytes(native_value(s), s.len()),
        native_bytes(native_value(s), s.len()) == s,
{
    lemma_le_bytes_of_value(s);
    lemma_le_bytes_of_value(s.reverse());
    assert(s.reverse().reverse() =~= s);
}

/// A number below 2^32 has four digits, one below 2^64 has eight.
pub proof fn lemma_fits_words(u: nat)
    ensures
        u < 0x1_0000_0000 <==> fits_bytes(u, 4),
        u < 0x1_0000_0000_0000_0000 <==> fits_bytes(u, 8),
{
    reveal_with_fuel(fits_bytes, 9);
}

/// The number held by all-zero bytes is zero, in either byte order.
pub proof fn lemma_native_value_zeros(s: Seq<u8>)
    requires
        forall|i: int| 0 <= i < s.len() ==> s[i] == 0,
    ensures
        native_value(s) == 0,
{
    lemma_le_value_zeros(s);
    lemma_le_value_zeros(s.reverse());
}

proof fn lemma_le_value_zeros(s: Seq<u8>)
    requires
        forall|i: int| 0 <= i < s.len() ==> s[i] == 0,
    ensures
        le_value(s) == 0,
    decreases s.len(),
{
    if s.len() > 0 {
        lemma_le_value_zeros(s.drop_first());
    }
}

/// Decoding what `i32_bytes` wrote gives the integer back.
pub proof fn lemma_i32_round_trip(v: i32)
    ensures
        i32_bytes(v).len() == 4,
        i32_value(i32_bytes(v)) == v,
{
    let u = if v >= 0 {
        v as nat
    } else {
        (v + 0x1_0000_0000) as nat
    };
    lemma_fits_words(u);
    lemma_native_bytes_len(u, 4);
    lemma_native_value_of_bytes(u, 4);
}

/// Decoding what `i64_bytes` wrote gives the integer back.
pub proof fn lemma_i64_round_trip(v: i64)
    ensures
        i64_bytes(v).len() == 8,
        i64_value(i64_bytes(v)) == v,
{
    let u = if v >= 0 {
        v as nat
    } else {
        (v + 0x1_0000_0000_0000_0000) as nat
    };
    lemma_fits_words(u);
    lemma_native_bytes_len(u, 8);
    lemma_native_value_of_bytes(u, 8);
}

/// Decoding what `u64_bytes` wrote gives the integer back.
pub proof fn lemma_u64_round_trip(v: u64)
    ensures
        u64_bytes(v).len() == 8,
        u64_value(u64_bytes(v)) == v,
{
    lemma_fits_words(v as nat);
    lemma_native_bytes_len(v as nat, 8);
    lemma_native_value_of_bytes(v as nat, 8);
}

/// Any four bytes are the encoding of the integer they decode to.
pub proof fn lemma_i32_bytes_of_value(s: Seq<u8>)
    requires
        s.len() == 4,
    ensures
        i32_bytes(i32_value(s)) == s,
{
    lemma_native_bytes_of_value(s);
    lemma_fits_words(native_value(s));
}

/// Any eight bytes are the encoding of the unsigned integer they decode to.
pub proof fn lemma_u64_bytes_of_value(s: Seq<u8>)
    requires
        s.len() == 8,
    ensures
        u64_bytes(u64_value(s)) == s,
{
    lemma_native_bytes_of_value(s);
    lemma_fits_words(native_value(s));
}

/// `i32::to_ne_bytes` gives the four bytes of the integer's two's-complement
/// representation in the byte order of the running machine.
#[verifier::external_body]
pub(crate) fn i32_ne_bytes(v: i32) -> (bytes: [u8; 4])
    ensures
        bytes@ == i32_bytes(v),
{
    v.to_ne_bytes()
}

/// `i32::from_ne_bytes` reads four bytes in the byte order of the running
/// machine as a two's-complement integer.
#[verifier::external_body]
pub(crate) fn i32_from_ne_bytes(bytes: [u8; 4]) -> (v: i32)
    ensures
        v == i32_value(bytes@),
{
    i32::from_ne_bytes(bytes)
}

/// `i64::to_ne_bytes` gives the eight bytes of the integer's two's-complement
/// representation in the byte order of the running machine.
#[verifier::external_body]
pub(crate) fn i64_ne_bytes(v: i64) -> (bytes: [u8; 8])
    ensures
        bytes@ == i64_bytes(v),
{
    v.to_ne_bytes()
}

/// `i64::from_ne_bytes` reads eight bytes in the byte order of the running
/// machine as a two's-complement integer.
#[verifier::external_body]
pub(crate) fn i64_from_ne_bytes(bytes: [u8; 8]) -> (v: i64)
    ensures
        v == i64_value(bytes@),
{
    i64::from_ne_bytes(bytes)
}

/// `u64::to_ne_bytes` gives the eight bytes of the integer in the byte order
/// of the running machine.
#[verifier::external_body]
pub(crate) fn u64_ne_bytes(v: u64) -> (bytes: [u8; 8])
    ensures
        bytes@ == u64_bytes(v),
{
    v.to_ne_bytes()
}

/// `u64::from_ne_bytes` reads eight bytes in the byte order of the running
/// machine as an unsigned integer.
#[verifier::external_body]
pub(crate) fn u64_from_ne_bytes(bytes: [u8; 8]) -> (v: u64)
    ensures
        v == u64_value(bytes@),
{
    u64::from_ne_bytes(bytes)
}

/// The four bytes of `v`, as a vector.
pub fn i32_to_vec(v: i32) -> (out: Vec<u8>)
    ensures
        out@ == i32_bytes(v),
{
    let a = i32_ne_bytes(v);
    let out = vec![a[0], a[1], a[2], a[3]];
    proof {
        lemma_i32_round_trip(v);
        assert(out@ =~= a@);
    }
    out
}

/// The integer held by `raw`; zero unless `raw` has exactly four bytes.
pub fn i32_from_slice(raw: &[u8]) -> (v: i32)
    ensures
        v == (if raw@.len() == 4 {
            i32_value(raw@)
        } else {
            0
        }),
{
    if raw.len() == 4 {
        let a = [raw[0], raw[1], raw[2], raw[3]];
        assert(a@ =~= raw@);
        i32_from_ne_bytes(a)
    } else {
        let a = [0u8, 0u8, 0u8, 0u8];
        proof {
            lemma_native_value_zeros(a@);
        }
        i32_from_ne_bytes(a)
    }
}

/// The eight bytes of `v`, as a vector.
pub fn i64_to_vec(v: i64) -> (out: Vec<u8>)
    ensures
        out@ == i64_bytes(v),
{
    let a = i64_ne_bytes(v);
    let out = vec![a[0], a[1], a[2], a[3], a[4], a[5], a[6], a[7]];
    proof {
        lemma_i64_round_trip(v);
        assert(out@ =~= a@);
    }
    out
}

/// The integer held by `raw`; zero unless `raw` has exactly eight bytes.
pub fn i64_from_slice(raw: &[u8]) -> (v: i64)
    ensures
        v == (if raw@.len() == 8 {
            i64_value(raw@)
        } else {
            0
        }),
{
    if raw.len() == 8 {
        let a = [raw[0], raw[1], raw[2], raw[3], raw[4], raw[5], raw[6], raw[7]];
        assert(a@ =~= raw@);
        i64_from_ne_bytes(a)
    } else {
        let a = [0u8, 0u8, 0u8, 0u8, 0u8, 0u8, 0u8, 0u8];
        proof {
            lemma_native_value_zeros(a@);
        }
        i64_from_ne_bytes(a)
    }
}

/// The eight bytes of `v`, as a vector.
pub fn u64_to_vec(v: u64) -> (out: Vec<u8>)
    ensures
        out@ == u64_bytes(v),
{
    let a = u64_ne_bytes(v);
    let out = vec![a[0], a[1], a[2], a[3], a[4], a[5], a[6], a[7]];
    proof {
        lemma_u64_round_trip(v);
        assert(out@ =~= a@);
    }
    out
}

/// The integer held by `raw`; zero unless `raw` has exactly eight bytes.
pub fn u64_from_slice(raw: &[u8]) -> (v: u64)
    ensures
        v == (if raw@.len() == 8 {
            u64_value(raw@)
        } else {
            0
        }),
{
    if raw.len() == 8 {
        let a = [raw[0], raw[1], raw[2], raw[3], raw[4], raw[5], raw[6], raw[7]];
        assert(a@ =~= raw@);
        u64_from_ne_bytes(a)
    } else {
        let a = [0u8, 0u8, 0u8, 0u8, 0u8, 0u8, 0u8, 0u8];
        proof {
            lemma_native_value_zeros(a@);
        }
        u64_from_ne_bytes(a)
    }
}

} // verus!
