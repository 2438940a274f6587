//! Primitive wire values.
//!
//! - [`Uint8`]: a tag byte.
//! - [`Size`]: a non-negative count, serialized as a variable-length
//!   prefix: one byte holding the number of value bytes, then that many
//!   value bytes, big-endian, with no leading zero.
//! - [`NBytes`]: exactly N bytes, N fixed by the operator using it.
//! - [`Bytes`]: a `Size` prefix followed by that many bytes.
//! - [`Mac`]: an output-only authentication tag of the given width,
//!   squeezed from the sponge.

use vstd::prelude::*;

use crate::errors::CodecError;

verus! {

/// A tag byte.
#[derive(Clone, Copy, Debug, PartialEq, Eq)]
pub struct Uint8(pub u8);

/// A non-negative count with a variable-length encoding.
#[derive(Clone, Copy, Debug, PartialEq, Eq)]
pub struct Size(pub usize);

/// A byte string whose length travels in front of it as a `Size`.
#[derive(Clone, Debug, PartialEq, Eq)]
pub struct Bytes(pub Vec<u8>);

/// A byte string of a length fixed by its place in the message schema.
#[derive(Clone, Debug, PartialEq, Eq)]
pub struct NBytes(pub Vec<u8>);

/// An inline authentication tag of the given byte width.
#[derive(Clone, Copy, Debug, PartialEq, Eq)]
pub struct Mac(pub usize);

impl View for Bytes {
    type V = Seq<u8>;

    open spec fn view(&self) -> Seq<u8> {
        self.0@
    }
}

impl View for NBytes {
    type V = Seq<u8>;

    open spec fn view(&self) -> Seq<u8> {
        self.0@
    }
}

/// 256 to the `k`.
pub open spec fn pow256(k: nat) -> nat
    decreases k,
{
    if k == 0 {
        1
    } else {
        256 * pow256((k - 1) as nat)
    }
}

/// How many value bytes the big-endian encoding of `n` takes.
pub open spec fn size_bytelen(n: nat) -> nat
    decreases n,
{
    if n == 0 {
        0
    } else {
        1 + size_bytelen(n / 256)
    }
}

/// Big-endian value bytes of `n`, with no leading zero; empty for zero.
pub open spec fn size_be_bytes(n: nat) -> Seq<u8>
    decreases n,
{
    if n == 0 {
        Seq::empty()
    } else {
        size_be_bytes(n / 256).push((n % 256) as u8)
    }
}

/// The full wire encoding of a `Size`: count byte, then value bytes.
pub open spec fn size_encoding(n: nat) -> Seq<u8> {
    seq![size_bytelen(n) as u8] + size_be_bytes(n)
}

/// Wire length of the encoding of `n`.
pub open spec fn size_len(n: nat) -> nat {
    1 + size_bytelen(n)
}

/// The value a big-endian byte string denotes.
pub open spec fn be_value(s: Seq<u8>) -> nat
    decreases s.len(),
{
    if s.len() == 0 {
        0
    } else {
        (be_value(s.drop_last()) * 256 + s.last()) as nat
    }
}

pub proof fn lemma_size_be_bytes_len(n: nat)
    ensures
        size_be_bytes(n).len() == size_bytelen(n),
    decreases n,
{
    if n > 0 {
        lemma_size_be_bytes_len(n / 256);
    }
}

/// If `n` fits below `256^k`, its encoding takes at most `k` value bytes.
pub proof fn lemma_size_bytelen_le(n: nat, k: nat)
    requires
        n < pow256(k),
    ensures
        size_bytelen(n) <= k,
    decreases k,
{
    if n > 0 {
        assert(k > 0);
        assert(n / 256 < pow256((k - 1) as nat)) by (nonlinear_arith)
            requires
                n < pow256(k),
                pow256(k) == 256 * pow256((k - 1) as nat),
        ;
        lemma_size_bytelen_le(n / 256, (k - 1) as nat);
    }
}

/// Any machine-word count takes at most eight value bytes.
pub proof fn lemma_size_bytelen_max(n: nat)
    requires
        n <= u64::MAX,
    ensures
        size_bytelen(n) <= 8,
{
    reveal_with_fuel(pow256, 9);
    lemma_size_bytelen_le(n, 8);
}

/// A big-endian string of `k` bytes denotes a value below `256^k`.
pub proof fn lemma_be_value_bound(s: Seq<u8>)
    ensures
        be_value(s) < pow256(s.len()),
    decreases s.len(),
{
    if s.len() > 0 {
        lemma_be_value_bound(s.drop_last());
        assert(be_value(s) < pow256(s.len())) by (nonlinear_arith)
            requires
                be_value(s) == be_value(s.drop_last()) * 256 + s.last(),
                be_value(s.drop_last()) < pow256((s.len() - 1) as nat),
                s.last() < 256,
                pow256(s.len()) == 256 * pow256((s.len() - 1) as nat),
        ;
    }
}

/// Round trip of the size codec: the value bytes of `n` denote `n`.
pub proof fn lemma_be_value_encoding(n: nat)
    ensures
        be_value(size_be_bytes(n)) == n,
    decreases n,
{
    if n > 0 {
        lemma_be_value_encoding(n / 256);
        let s = size_be_bytes(n);
        assert(s.drop_last() =~= size_be_bytes(n / 256));
        assert(s.last() == (n % 256) as u8);
    }
}

/// Encode a `Size` value: count byte, then big-endian value bytes.
pub fn size_encode(n: usize) -> (r: Vec<u8>)
    ensures
        r@ == size_encoding(n as nat),
        r@.len() == size_len(n as nat),
{
    let mut digits: Vec<u8> = Vec::new();
    let mut m: usize = n;
    proof {
        assert(size_be_bytes(n as nat) =~= size_be_bytes(n as nat) + digits@.reverse());
    }
    while m > 0
        invariant
            size_be_bytes(n as nat) == size_be_bytes(m as nat) + digits@.reverse(),
            size_bytelen(n as nat) == size_bytelen(m as nat) + digits@.len(),
        decreases m,
    {
        let ghost ds = digits@;
        let d: u8 = (m % 256) as u8;
        digits.push(d);
        m = m / 256;
        proof {
            assert(digits@.reverse() =~= seq![d] + ds.reverse());
            assert(size_be_bytes(n as nat) =~= size_be_bytes(m as nat) + digits@.reverse());
        }
    }
    proof {
        assert(size_be_bytes(n as nat) =~= digits@.reverse());
        assert(n as nat <= u64::MAX) by {
            assert(usize::MAX <= u64::MAX);
        }
        lemma_size_bytelen_max(n as nat);
    }
    let count: u8 = digits.len() as u8;
    let mut r: Vec<u8> = Vec::new();
    r.push(count);
    let k = digits.len();
    let mut j: usize = 0;
    while j < k
        invariant
            j <= k,
            k == digits@.len(),
            r@ == seq![size_bytelen(n as nat) as u8] + digits@.reverse().take(j as int),
            size_be_bytes(n as nat) == digits@.reverse(),
        decreases k - j,
    {
        r.push(digits[k - 1 - j]);
        j = j + 1;
        proof {
            assert(r@ =~= seq![size_bytelen(n as nat) as u8] + digits@.reverse().take(j as int));
        }
    }
    proof {
        assert(digits@.reverse().take(k as int) =~= digits@.reverse());
        assert(r@ =~= size_encoding(n as nat));
        lemma_size_be_bytes_len(n as nat);
    }
    r
}

/// Turn up to eight big-endian value bytes back into a count, rejecting
/// values that do not fit the machine word.
pub fn size_from_be(digits: &Vec<u8>) -> (r: Result<usize, CodecError>)
    requires
        digits@.len() <= 8,
    ensures
        r is Ok <==> be_value(digits@) <= usize::MAX,
        r is Ok ==> r->Ok_0 as nat == be_value(digits@),
        r is Err ==> r == Err::<usize, CodecError>(CodecError::BadSize),
{
    let mut acc: u64 = 0;
    let mut i: usize = 0;
    proof {
        reveal_with_fuel(pow256, 9);
    }
    while i < digits.len()
        invariant
            i <= digits@.len() <= 8,
            acc as nat == be_value(digits@.take(i as int)),
            (acc as nat) < pow256(i as nat),
            pow256(8) == 0x1_0000_0000_0000_0000,
        decreases digits@.len() - i,
    {
        proof {
            lemma_pow256_monotone((i + 1) as nat, 8);
            assert(pow256((i + 1) as nat) == 256 * pow256(i as nat));
        }
        let b = digits[i];
        let next: u64 = acc * 256 + b as u64;
        proof {
            assert(digits@.take(i + 1).drop_last() =~= digits@.take(i as int));
            assert(digits@.take(i + 1).last() == digits@[i as int]);
        }
        acc = next;
        i = i + 1;
    }
    proof {
        assert(digits@.take(digits@.len() as int) =~= digits@);
    }
    if acc <= usize::MAX as u64 {
        Ok(acc as usize)
    } else {
        Err(CodecError::BadSize)
    }
}

pub proof fn lemma_pow256_pos(k: nat)
    ensures
        pow256(k) >= 1,
    decreases k,
{
    if k > 0 {
        lemma_pow256_pos((k - 1) as nat);
    }
}

pub proof fn lemma_pow256_monotone(i: nat, j: nat)
    requires
        i <= j,
    ensures
        pow256(i) <= pow256(j),
    decreases j,
{
    if i < j {
        lemma_pow256_monotone(i, (j - 1) as nat);
        lemma_pow256_pos((j - 1) as nat);
    }
}

} // verus!
