//! The duplex sponge primitive.
//!
//! A sponge owns a fixed-rate / fixed-capacity permutation state plus a
//! position within the outer (rate) half. Every operation is a pure
//! function of the prior state and the bytes that flow past, and each
//! executable method is specified exactly against the model functions
//! below, so that two sponges fed the same tape are provably equal.
//!
//! The permutation itself is a placeholder: the wider design treats the
//! concrete permutation as a swappable collaborator, and nothing in the
//! codec depends on more than it being a fixed function of the state.

use vstd::prelude::*;

use crate::bytes::copy_bytes;
use crate::CAP;
use crate::RATE;
use crate::STATE_SIZE;

verus! {

/// Mathematical model of a sponge state: the outer (rate) bytes, the inner
/// (capacity) bytes, and the position of the next outer byte to be used.
pub ghost struct SpongeModel {
    pub outer: Seq<u8>,
    pub inner: Seq<u8>,
    pub pos: int,
}

/// A well-formed sponge state: full rate and capacity, position inside the
/// rate.
pub open spec fn sp_wf(m: SpongeModel) -> bool {
    &&& m.outer.len() == RATE
    &&& m.inner.len() == CAP
    &&& 0 <= m.pos < RATE
}

/// The all-zero byte sequence of length `n`.
pub open spec fn zero_seq(n: nat) -> Seq<u8> {
    Seq::new(n, |i: int| 0u8)
}

/// Per-position round constant of the permutation.
pub open spec fn perm_const(i: int) -> u8 {
    (((i % 64) * 113 + 57) % 256) as u8
}

/// One sequential mixing step of the permutation: position `i` absorbs its
/// left neighbour (cyclically) and a round constant.
pub open spec fn chain_step(s: Seq<u8>, i: int) -> Seq<u8> {
    let prev = if i == 0 { s.len() - 1 } else { i - 1 };
    let b = (((s[i] ^ s[prev]) as int + perm_const(i) as int) % 256) as u8;
    s.update(i, b)
}

/// The first `k` mixing steps of one permutation pass, applied in order.
pub open spec fn chain(s: Seq<u8>, k: nat) -> Seq<u8>
    decreases k,
{
    if k == 0 {
        s
    } else {
        chain_step(chain(s, (k - 1) as nat), k - 1)
    }
}

/// The full permutation over the concatenated state: two sequential passes,
/// so that every byte of the result depends on every byte of the input.
pub open spec fn permute_seq(s: Seq<u8>) -> Seq<u8> {
    chain(chain(s, STATE_SIZE as nat), STATE_SIZE as nat)
}

/// Permute a sponge state and align it at position zero.
pub open spec fn sp_permute(m: SpongeModel) -> SpongeModel {
    let p = permute_seq(m.outer + m.inner);
    SpongeModel { outer: p.subrange(0, RATE as int), inner: p.subrange(RATE as int, STATE_SIZE as int), pos: 0 }
}

/// Write `b` at the current position and advance, permuting on a rate-fill
/// boundary.
pub open spec fn sp_put_adv(m: SpongeModel, b: u8) -> SpongeModel {
    let o = m.outer.update(m.pos, b);
    if m.pos + 1 == RATE {
        sp_permute(SpongeModel { outer: o, inner: m.inner, pos: m.pos })
    } else {
        SpongeModel { outer: o, inner: m.inner, pos: m.pos + 1 }
    }
}

/// Advance past the current position without changing the outer state,
/// permuting on a rate-fill boundary.
pub open spec fn sp_adv(m: SpongeModel) -> SpongeModel {
    if m.pos + 1 == RATE {
        sp_permute(m)
    } else {
        SpongeModel { outer: m.outer, inner: m.inner, pos: m.pos + 1 }
    }
}

/// Absorb one byte: XOR it into the outer state and advance.
pub open spec fn sp_absorb1(m: SpongeModel, b: u8) -> SpongeModel {
    sp_put_adv(m, m.outer[m.pos] ^ b)
}

/// Encrypt one byte: the ciphertext is the outer byte XOR the plaintext,
/// and the ciphertext replaces the outer byte.
pub open spec fn sp_enc1(m: SpongeModel, p: u8) -> (SpongeModel, u8) {
    let c = m.outer[m.pos] ^ p;
    (sp_put_adv(m, c), c)
}

/// Decrypt one byte: the inverse of [`sp_enc1`]; the ciphertext replaces
/// the outer byte on this side too, so both ends advance identically.
pub open spec fn sp_dec1(m: SpongeModel, c: u8) -> (SpongeModel, u8) {
    let p = m.outer[m.pos] ^ c;
    (sp_put_adv(m, c), p)
}

/// Squeeze one byte: emit the outer byte at the current position and
/// advance.
pub open spec fn sp_sq1(m: SpongeModel) -> (SpongeModel, u8) {
    (sp_adv(m), m.outer[m.pos])
}

/// Absorb a byte sequence, front to back.
pub open spec fn sp_absorb(m: SpongeModel, x: Seq<u8>) -> SpongeModel
    decreases x.len(),
{
    if x.len() == 0 {
        m
    } else {
        sp_absorb(sp_absorb1(m, x[0]), x.skip(1))
    }
}

/// Encrypt a byte sequence, returning the final state and the ciphertext.
pub open spec fn sp_encrypt(m: SpongeModel, p: Seq<u8>) -> (SpongeModel, Seq<u8>)
    decreases p.len(),
{
    if p.len() == 0 {
        (m, Seq::empty())
    } else {
        let (m1, c0) = sp_enc1(m, p[0]);
        let (m2, cr) = sp_encrypt(m1, p.skip(1));
        (m2, seq![c0] + cr)
    }
}

/// Decrypt a byte sequence, returning the final state and the plaintext.
pub open spec fn sp_decrypt(m: SpongeModel, c: Seq<u8>) -> (SpongeModel, Seq<u8>)
    decreases c.len(),
{
    if c.len() == 0 {
        (m, Seq::empty())
    } else {
        let (m1, p0) = sp_dec1(m, c[0]);
        let (m2, pr) = sp_decrypt(m1, c.skip(1));
        (m2, seq![p0] + pr)
    }
}

/// Squeeze `n` bytes.
pub open spec fn sp_squeeze(m: SpongeModel, n: nat) -> (SpongeModel, Seq<u8>)
    decreases n,
{
    if n == 0 {
        (m, Seq::empty())
    } else {
        let (m1, b) = sp_sq1(m);
        let (m2, r) = sp_squeeze(m1, (n - 1) as nat);
        (m2, seq![b] + r)
    }
}

/// Commit: finalize the current outer block so that subsequent operations
/// start aligned. Committing an aligned state changes nothing, which makes
/// the operation idempotent.
pub open spec fn sp_commit(m: SpongeModel) -> SpongeModel {
    if m.pos == 0 {
        m
    } else {
        sp_permute(m)
    }
}

/// The initial, all-zero sponge state.
pub open spec fn sp_init() -> SpongeModel {
    SpongeModel { outer: zero_seq(RATE as nat), inner: zero_seq(CAP as nat), pos: 0 }
}

/// Rebuild a sponge from a capacity-only snapshot: the outer state is
/// zeroed and the position aligned.
pub open spec fn sp_from_inner(inner: Seq<u8>) -> SpongeModel {
    SpongeModel { outer: zero_seq(RATE as nat), inner: inner, pos: 0 }
}

pub proof fn lemma_chain_len(s: Seq<u8>, k: nat)
    requires
        k <= s.len(),
    ensures
        chain(s, k).len() == s.len(),
    decreases k,
{
    if k > 0 {
        lemma_chain_len(s, (k - 1) as nat);
    }
}

pub proof fn lemma_permute_wf(m: SpongeModel)
    requires
        m.outer.len() == RATE,
        m.inner.len() == CAP,
    ensures
        sp_wf(sp_permute(m)),
{
    lemma_chain_len(m.outer + m.inner, STATE_SIZE as nat);
    lemma_chain_len(chain(m.outer + m.inner, STATE_SIZE as nat), STATE_SIZE as nat);
}

pub proof fn lemma_put_adv_wf(m: SpongeModel, b: u8)
    requires
        sp_wf(m),
    ensures
        sp_wf(sp_put_adv(m, b)),
{
    if m.pos + 1 == RATE {
        lemma_permute_wf(SpongeModel { outer: m.outer.update(m.pos, b), inner: m.inner, pos: m.pos });
    }
}

pub proof fn lemma_adv_wf(m: SpongeModel)
    requires
        sp_wf(m),
    ensures
        sp_wf(sp_adv(m)),
{
    if m.pos + 1 == RATE {
        lemma_permute_wf(m);
    }
}

pub proof fn lemma_commit_wf(m: SpongeModel)
    requires
        sp_wf(m),
    ensures
        sp_wf(sp_commit(m)),
{
    if m.pos != 0 {
        lemma_permute_wf(m);
    }
}

pub proof fn lemma_absorb_wf(m: SpongeModel, x: Seq<u8>)
    requires
        sp_wf(m),
    ensures
        sp_wf(sp_absorb(m, x)),
    decreases x.len(),
{
    if x.len() > 0 {
        lemma_put_adv_wf(m, m.outer[m.pos] ^ x[0]);
        lemma_absorb_wf(sp_absorb1(m, x[0]), x.skip(1));
    }
}

pub proof fn lemma_encrypt_wf(m: SpongeModel, p: Seq<u8>)
    requires
        sp_wf(m),
    ensures
        sp_wf(sp_encrypt(m, p).0),
        sp_encrypt(m, p).1.len() == p.len(),
    decreases p.len(),
{
    if p.len() > 0 {
        lemma_put_adv_wf(m, m.outer[m.pos] ^ p[0]);
        lemma_encrypt_wf(sp_enc1(m, p[0]).0, p.skip(1));
    }
}

pub proof fn lemma_decrypt_wf(m: SpongeModel, c: Seq<u8>)
    requires
        sp_wf(m),
    ensures
        sp_wf(sp_decrypt(m, c).0),
        sp_decrypt(m, c).1.len() == c.len(),
    decreases c.len(),
{
    if c.len() > 0 {
        lemma_put_adv_wf(m, c[0]);
        lemma_decrypt_wf(sp_dec1(m, c[0]).0, c.skip(1));
    }
}

pub proof fn lemma_squeeze_wf(m: SpongeModel, n: nat)
    requires
        sp_wf(m),
    ensures
        sp_wf(sp_squeeze(m, n).0),
        sp_squeeze(m, n).1.len() == n,
    decreases n,
{
    if n > 0 {
        lemma_adv_wf(m);
        lemma_squeeze_wf(sp_adv(m), (n - 1) as nat);
    }
}

proof fn lemma_xor_cancel(a: u8, b: u8)
    ensures
        a ^ (a ^ b) == b,
{
    assert(a ^ (a ^ b) == b) by (bit_vector);
}

/// Appending one byte to an absorb tape is the same as absorbing the tape
/// and then the byte.
pub proof fn lemma_absorb_snoc(m: SpongeModel, x: Seq<u8>, b: u8)
    ensures
        sp_absorb(m, x.push(b)) == sp_absorb1(sp_absorb(m, x), b),
    decreases x.len(),
{
    if x.len() == 0 {
        reveal_with_fuel(sp_absorb, 2);
        assert(x.push(b)[0] == b);
        assert(x.push(b).skip(1) =~= Seq::<u8>::empty());
    } else {
        assert(x.push(b)[0] == x[0]);
        assert(x.push(b).skip(1) =~= x.skip(1).push(b));
        lemma_absorb_snoc(sp_absorb1(m, x[0]), x.skip(1), b);
    }
}

/// Appending one byte to a plaintext extends the ciphertext by the byte's
/// encryption under the state reached after the prefix.
pub proof fn lemma_encrypt_snoc(m: SpongeModel, p: Seq<u8>, b: u8)
    ensures
        sp_encrypt(m, p.push(b)).0 == sp_enc1(sp_encrypt(m, p).0, b).0,
        sp_encrypt(m, p.push(b)).1 == sp_encrypt(m, p).1.push(sp_enc1(sp_encrypt(m, p).0, b).1),
    decreases p.len(),
{
    if p.len() == 0 {
        reveal_with_fuel(sp_encrypt, 2);
        assert(p.push(b)[0] == b);
        assert(p.push(b).skip(1) =~= Seq::<u8>::empty());
        assert(sp_encrypt(m, p.push(b)).1 =~= sp_encrypt(m, p).1.push(sp_enc1(sp_encrypt(m, p).0, b).1));
    } else {
        assert(p.push(b)[0] == p[0]);
        assert(p.push(b).skip(1) =~= p.skip(1).push(b));
        lemma_encrypt_snoc(sp_enc1(m, p[0]).0, p.skip(1), b);
        assert(sp_encrypt(m, p.push(b)).1 =~= sp_encrypt(m, p).1.push(sp_enc1(sp_encrypt(m, p).0, b).1));
    }
}

/// The decrypt analogue of [`lemma_encrypt_snoc`].
pub proof fn lemma_decrypt_snoc(m: SpongeModel, c: Seq<u8>, b: u8)
    ensures
        sp_decrypt(m, c.push(b)).0 == sp_dec1(sp_decrypt(m, c).0, b).0,
        sp_decrypt(m, c.push(b)).1 == sp_decrypt(m, c).1.push(sp_dec1(sp_decrypt(m, c).0, b).1),
    decreases c.len(),
{
    if c.len() == 0 {
        reveal_with_fuel(sp_decrypt, 2);
        assert(c.push(b)[0] == b);
        assert(c.push(b).skip(1) =~= Seq::<u8>::empty());
        assert(sp_decrypt(m, c.push(b)).1 =~= sp_decrypt(m, c).1.push(sp_dec1(sp_decrypt(m, c).0, b).1));
    } else {
        assert(c.push(b)[0] == c[0]);
        assert(c.push(b).skip(1) =~= c.skip(1).push(b));
        lemma_decrypt_snoc(sp_dec1(m, c[0]).0, c.skip(1), b);
        assert(sp_decrypt(m, c.push(b)).1 =~= sp_decrypt(m, c).1.push(sp_dec1(sp_decrypt(m, c).0, b).1));
    }
}

/// Squeezing one more byte extends the output by the byte squeezed from
/// the state reached after the prefix.
pub proof fn lemma_squeeze_snoc(m: SpongeModel, n: nat)
    ensures
        sp_squeeze(m, n + 1).0 == sp_sq1(sp_squeeze(m, n).0).0,
        sp_squeeze(m, n + 1).1 == sp_squeeze(m, n).1.push(sp_sq1(sp_squeeze(m, n).0).1),
    decreases n,
{
    if n == 0 {
        reveal_with_fuel(sp_squeeze, 2);
        assert(sp_squeeze(m, 1).1 =~= sp_squeeze(m, 0).1.push(sp_sq1(sp_squeeze(m, 0).0).1));
    } else {
        lemma_squeeze_snoc(sp_adv(m), (n - 1) as nat);
        assert(sp_squeeze(m, n + 1).1 =~= sp_squeeze(m, n).1.push(sp_sq1(sp_squeeze(m, n).0).1));
    }
}

/// Absorbing a concatenation is absorbing the parts in order.
pub proof fn lemma_absorb_append(m: SpongeModel, a: Seq<u8>, b: Seq<u8>)
    ensures
        sp_absorb(m, a + b) == sp_absorb(sp_absorb(m, a), b),
    decreases b.len(),
{
    if b.len() == 0 {
        assert(a + b =~= a);
    } else {
        let b1 = b.drop_last();
        let x = b.last();
        lemma_absorb_append(m, a, b1);
        lemma_absorb_snoc(m, a + b1, x);
        lemma_absorb_snoc(sp_absorb(m, a), b1, x);
        assert((a + b1).push(x) =~= a + b);
        assert(b1.push(x) =~= b);
    }
}

/// Encrypting a concatenation is encrypting the parts in order, and the
/// ciphertext is the concatenation of the parts' ciphertexts.
pub proof fn lemma_encrypt_append(m: SpongeModel, a: Seq<u8>, b: Seq<u8>)
    ensures
        sp_encrypt(m, a + b).0 == sp_encrypt(sp_encrypt(m, a).0, b).0,
        sp_encrypt(m, a + b).1 == sp_encrypt(m, a).1 + sp_encrypt(sp_encrypt(m, a).0, b).1,
    decreases b.len(),
{
    if b.len() == 0 {
        assert(a + b =~= a);
        assert(sp_encrypt(m, a).1 + sp_encrypt(sp_encrypt(m, a).0, b).1 =~= sp_encrypt(m, a).1);
    } else {
        let b1 = b.drop_last();
        let x = b.last();
        lemma_encrypt_append(m, a, b1);
        lemma_encrypt_snoc(m, a + b1, x);
        lemma_encrypt_snoc(sp_encrypt(m, a).0, b1, x);
        assert((a + b1).push(x) =~= a + b);
        assert(b1.push(x) =~= b);
        assert(sp_encrypt(m, a).1 + sp_encrypt(sp_encrypt(m, a).0, b1).1.push(
            sp_enc1(sp_encrypt(sp_encrypt(m, a).0, b1).0, x).1,
        ) =~= (sp_encrypt(m, a).1 + sp_encrypt(sp_encrypt(m, a).0, b1).1).push(
            sp_enc1(sp_encrypt(sp_encrypt(m, a).0, b1).0, x).1,
        ));
    }
}

/// Decrypting a concatenation is decrypting the parts in order, and the
/// plaintext is the concatenation of the parts' plaintexts.
pub proof fn lemma_decrypt_append(m: SpongeModel, a: Seq<u8>, b: Seq<u8>)
    ensures
        sp_decrypt(m, a + b).0 == sp_decrypt(sp_decrypt(m, a).0, b).0,
        sp_decrypt(m, a + b).1 == sp_decrypt(m, a).1 + sp_decrypt(sp_decrypt(m, a).0, b).1,
    decreases b.len(),
{
    if b.len() == 0 {
        assert(a + b =~= a);
        assert(sp_decrypt(m, a).1 + sp_decrypt(sp_decrypt(m, a).0, b).1 =~= sp_decrypt(m, a).1);
    } else {
        let b1 = b.drop_last();
        let x = b.last();
        lemma_decrypt_append(m, a, b1);
        lemma_decrypt_snoc(m, a + b1, x);
        lemma_decrypt_snoc(sp_decrypt(m, a).0, b1, x);
        assert((a + b1).push(x) =~= a + b);
        assert(b1.push(x) =~= b);
        assert(sp_decrypt(m, a).1 + sp_decrypt(sp_decrypt(m, a).0, b1).1.push(
            sp_dec1(sp_decrypt(sp_decrypt(m, a).0, b1).0, x).1,
        ) =~= (sp_decrypt(m, a).1 + sp_decrypt(sp_decrypt(m, a).0, b1).1).push(
            sp_dec1(sp_decrypt(sp_decrypt(m, a).0, b1).0, x).1,
        ));
    }
}

/// Decrypting one byte of ciphertext produced by [`sp_enc1`] recovers the
/// plaintext and leaves both sides in the same state.
pub proof fn lemma_dec1_enc1(m: SpongeModel, p: u8)
    requires
        sp_wf(m),
    ensures
        sp_dec1(m, sp_enc1(m, p).1).0 == sp_enc1(m, p).0,
        sp_dec1(m, sp_enc1(m, p).1).1 == p,
{
    lemma_xor_cancel(m.outer[m.pos], p);
}

/// Round trip of `mask`: decrypting a ciphertext from the same starting
/// state recovers the plaintext, and the two final states are equal, so
/// all later squeeze outputs agree.
pub proof fn lemma_decrypt_encrypt(m: SpongeModel, p: Seq<u8>)
    requires
        sp_wf(m),
    ensures
        sp_decrypt(m, sp_encrypt(m, p).1).0 == sp_encrypt(m, p).0,
        sp_decrypt(m, sp_encrypt(m, p).1).1 == p,
    decreases p.len(),
{
    if p.len() == 0 {
        assert(sp_decrypt(m, sp_encrypt(m, p).1).1 =~= p);
    } else {
        let (m1, c0) = sp_enc1(m, p[0]);
        lemma_dec1_enc1(m, p[0]);
        lemma_put_adv_wf(m, m.outer[m.pos] ^ p[0]);
        lemma_decrypt_encrypt(m1, p.skip(1));
        let c = sp_encrypt(m, p).1;
        assert(c[0] == c0);
        assert(c.skip(1) =~= sp_encrypt(m1, p.skip(1)).1);
        assert(sp_decrypt(m, c).1 =~= p);
    }
}

/// Ciphertexts pin plaintexts down: equal ciphertexts from the same state
/// mean equal plaintexts.
pub proof fn lemma_encrypt_injective(m: SpongeModel, p1: Seq<u8>, p2: Seq<u8>)
    requires
        sp_wf(m),
        sp_encrypt(m, p1).1 == sp_encrypt(m, p2).1,
    ensures
        p1 == p2,
{
    lemma_decrypt_encrypt(m, p1);
    lemma_decrypt_encrypt(m, p2);
}

/// Committing twice is the same as committing once.
pub proof fn lemma_commit_idempotent(m: SpongeModel)
    ensures
        sp_commit(sp_commit(m)) == sp_commit(m),
{
}

/// The duplex sponge. All operations are specified exactly against the
/// model functions of this module.
pub struct Sponge {
    pub outer: Vec<u8>,
    pub inner: Vec<u8>,
    pub pos: usize,
}

impl View for Sponge {
    type V = SpongeModel;

    open spec fn view(&self) -> SpongeModel {
        SpongeModel { outer: self.outer@, inner: self.inner@, pos: self.pos as int }
    }
}

impl Sponge {
    /// The initial, all-zero sponge.
    pub fn init() -> (s: Sponge)
        ensures
            s@ == sp_init(),
            sp_wf(s@),
    {
        let s = Sponge { outer: vec![0u8; RATE], inner: vec![0u8; CAP], pos: 0 };
        proof {
            assert(s.outer@ =~= zero_seq(RATE as nat));
            assert(s.inner@ =~= zero_seq(CAP as nat));
        }
        s
    }

    /// Rebuild a sponge from a capacity-only snapshot.
    pub fn from_inner(inner: &Vec<u8>) -> (s: Sponge)
        requires
            inner@.len() == CAP,
        ensures
            s@ == sp_from_inner(inner@),
            sp_wf(s@),
    {
        let s = Sponge { outer: vec![0u8; RATE], inner: copy_bytes(inner), pos: 0 };
        proof {
            assert(s.outer@ =~= zero_seq(RATE as nat));
        }
        s
    }

    /// A deep copy that proceeds independently from here on: the forked
    /// child starts from exactly the parent's state, and using the child
    /// leaves the parent untouched.
    pub fn fork(&self) -> (r: Sponge)
        ensures
            r@ == self@,
    {
        Sponge { outer: copy_bytes(&self.outer), inner: copy_bytes(&self.inner), pos: self.pos }
    }

    /// Capacity-only snapshot, as kept by the link store.
    pub fn inner_state(&self) -> (r: Vec<u8>)
        ensures
            r@ == self@.inner,
    {
        copy_bytes(&self.inner)
    }

    /// Apply the permutation to the full state and align the position.
    #[verifier::rlimit(50)]
    fn permute(&mut self)
        requires
            old(self)@.outer.len() == RATE,
            old(self)@.inner.len() == CAP,
        ensures
            final(self)@ == sp_permute(old(self)@),
            sp_wf(final(self)@),
    {
        let ghost full0 = self.outer@ + self.inner@;
        let mut st: Vec<u8> = Vec::new();
        assert(st@ =~= self.outer@.take(0));
        let mut j: usize = 0;
        while j < RATE
            invariant
                j <= RATE,
                self.outer@.len() == RATE,
                st@ == self.outer@.take(j as int),
            decreases RATE - j,
        {
            st.push(self.outer[j]);
            j = j + 1;
            assert(st@ =~= self.outer@.take(j as int));
        }
        assert(st@ =~= self.outer@.take(RATE as int) + self.inner@.take(0));
        let mut j: usize = 0;
        while j < CAP
            invariant
                j <= CAP,
                self.outer@.len() == RATE,
                self.inner@.len() == CAP,
                st@ == self.outer@.take(RATE as int) + self.inner@.take(j as int),
            decreases CAP - j,
        {
            st.push(self.inner[j]);
            j = j + 1;
            assert(st@ =~= self.outer@.take(RATE as int) + self.inner@.take(j as int));
        }
        assert(st@ =~= full0);
        let mut pass: usize = 0;
        while pass < 2
            invariant
                st@.len() == STATE_SIZE,
                pass <= 2,
                pass == 0 ==> st@ == full0,
                pass == 1 ==> st@ == chain(full0, STATE_SIZE as nat),
                pass == 2 ==> st@ == permute_seq(full0),
            decreases 2 - pass,
        {
            let ghost s_in = st@;
            let mut i: usize = 0;
            while i < STATE_SIZE
                invariant
                    st@.len() == STATE_SIZE,
                    i <= STATE_SIZE,
                    st@ == chain(s_in, i as nat),
                decreases STATE_SIZE - i,
            {
                let ghost pre = st@;
                let prev: usize = if i == 0 { STATE_SIZE - 1 } else { i - 1 };
                let x = st[i] ^ st[prev];
                let cst: u8 = ((i * 113 + 57) % 256) as u8;
                let b: u8 = ((x as u32 + cst as u32) % 256) as u8;
                st[i] = b;
                proof {
                    assert(cst as int == perm_const(i as int));
                    assert(b == (((pre[i as int] ^ pre[prev as int]) as int + perm_const(i as int)) % 256) as u8);
                    assert(st@ == chain_step(pre, i as int));
                    assert(st@ == chain(s_in, (i + 1) as nat));
                }
                i = i + 1;
            }
            pass = pass + 1;
        }
        let ghost p = permute_seq(full0);
        let mut no: Vec<u8> = Vec::new();
        assert(no@ =~= p.subrange(0, 0));
        let mut i: usize = 0;
        while i < RATE
            invariant
                st@ == p,
                st@.len() == STATE_SIZE,
                i <= RATE,
                no@ == p.subrange(0, i as int),
            decreases RATE - i,
        {
            no.push(st[i]);
            i = i + 1;
            assert(no@ =~= p.subrange(0, i as int));
        }
        let mut ni: Vec<u8> = Vec::new();
        assert(ni@ =~= p.subrange(RATE as int, RATE as int));
        let mut i: usize = 0;
        while i < CAP
            invariant
                st@ == p,
                st@.len() == STATE_SIZE,
                i <= CAP,
                ni@ == p.subrange(RATE as int, RATE + i),
            decreases CAP - i,
        {
            ni.push(st[RATE + i]);
            i = i + 1;
            assert(ni@ =~= p.subrange(RATE as int, RATE + i));
        }
        self.outer = no;
        self.inner = ni;
        self.pos = 0;
    }

    /// Write `b` at the current position and advance.
    fn put_adv(&mut self, b: u8)
        requires
            sp_wf(old(self)@),
        ensures
            final(self)@ == sp_put_adv(old(self)@, b),
            sp_wf(final(self)@),
    {
        self.outer[self.pos] = b;
        self.pos = self.pos + 1;
        if self.pos == RATE {
            self.permute();
        }
        proof {
            lemma_put_adv_wf(old(self)@, b);
        }
    }

    /// Advance without changing the outer state.
    fn adv(&mut self)
        requires
            sp_wf(old(self)@),
        ensures
            final(self)@ == sp_adv(old(self)@),
            sp_wf(final(self)@),
    {
        self.pos = self.pos + 1;
        if self.pos == RATE {
            self.permute();
        }
        proof {
            lemma_adv_wf(old(self)@);
        }
    }

    /// Absorb the bytes of `x` into the state.
    pub fn absorb(&mut self, x: &Vec<u8>)
        requires
            sp_wf(old(self)@),
        ensures
            final(self)@ == sp_absorb(old(self)@, x@),
            sp_wf(final(self)@),
    {
        let ghost m0 = self@;
        let mut i: usize = 0;
        while i < x.len()
            invariant
                i <= x@.len(),
                sp_wf(self@),
                self@ == sp_absorb(m0, x@.take(i as int)),
            decreases x@.len() - i,
        {
            let ghost prefix = x@.take(i as int);
            let b = self.outer[self.pos] ^ x[i];
            self.put_adv(b);
            proof {
                lemma_absorb_snoc(m0, prefix, x@[i as int]);
                assert(prefix.push(x@[i as int]) =~= x@.take(i + 1));
            }
            i = i + 1;
        }
        proof {
            assert(x@.take(x@.len() as int) =~= x@);
        }
    }

    /// Encrypt the bytes of `p`, returning the ciphertext.
    pub fn encrypt(&mut self, p: &Vec<u8>) -> (c: Vec<u8>)
        requires
            sp_wf(old(self)@),
        ensures
            final(self)@ == sp_encrypt(old(self)@, p@).0,
            c@ == sp_encrypt(old(self)@, p@).1,
            sp_wf(final(self)@),
    {
        let ghost m0 = self@;
        let mut c: Vec<u8> = Vec::new();
        let mut i: usize = 0;
        while i < p.len()
            invariant
                i <= p@.len(),
                sp_wf(self@),
                self@ == sp_encrypt(m0, p@.take(i as int)).0,
                c@ == sp_encrypt(m0, p@.take(i as int)).1,
            decreases p@.len() - i,
        {
            let ghost prefix = p@.take(i as int);
            let cb = self.outer[self.pos] ^ p[i];
            self.put_adv(cb);
            c.push(cb);
            proof {
                lemma_encrypt_snoc(m0, prefix, p@[i as int]);
                assert(prefix.push(p@[i as int]) =~= p@.take(i + 1));
            }
            i = i + 1;
        }
        proof {
            assert(p@.take(p@.len() as int) =~= p@);
        }
        c
    }

    /// Decrypt the bytes of `c`, returning the plaintext.
    pub fn decrypt(&mut self, c: &Vec<u8>) -> (p: Vec<u8>)
        requires
            sp_wf(old(self)@),
        ensures
            final(self)@ == sp_decrypt(old(self)@, c@).0,
            p@ == sp_decrypt(old(self)@, c@).1,
            sp_wf(final(self)@),
    {
        let ghost m0 = self@;
        let mut p: Vec<u8> = Vec::new();
        let mut i: usize = 0;
        while i < c.len()
            invariant
                i <= c@.len(),
                sp_wf(self@),
                self@ == sp_decrypt(m0, c@.take(i as int)).0,
                p@ == sp_decrypt(m0, c@.take(i as int)).1,
            decreases c@.len() - i,
        {
            let ghost prefix = c@.take(i as int);
            let pb = self.outer[self.pos] ^ c[i];
            self.put_adv(c[i]);
            p.push(pb);
            proof {
                lemma_decrypt_snoc(m0, prefix, c@[i as int]);
                assert(prefix.push(c@[i as int]) =~= c@.take(i + 1));
            }
            i = i + 1;
        }
        proof {
            assert(c@.take(c@.len() as int) =~= c@);
        }
        p
    }

    /// Squeeze `n` bytes out of the state.
    pub fn squeeze(&mut self, n: usize) -> (r: Vec<u8>)
        requires
            sp_wf(old(self)@),
        ensures
            final(self)@ == sp_squeeze(old(self)@, n as nat).0,
            r@ == sp_squeeze(old(self)@, n as nat).1,
            sp_wf(final(self)@),
    {
        let ghost m0 = self@;
        let mut r: Vec<u8> = Vec::new();
        let mut i: usize = 0;
        while i < n
            invariant
                i <= n,
                sp_wf(self@),
                self@ == sp_squeeze(m0, i as nat).0,
                r@ == sp_squeeze(m0, i as nat).1,
            decreases n - i,
        {
            let b = self.outer[self.pos];
            self.adv();
            r.push(b);
            proof {
                lemma_squeeze_snoc(m0, i as nat);
            }
            i = i + 1;
        }
        r
    }

    /// Finalize the current outer block.
    pub fn commit(&mut self)
        requires
            sp_wf(old(self)@),
        ensures
            final(self)@ == sp_commit(old(self)@),
            sp_wf(final(self)@),
    {
        if self.pos != 0 {
            self.permute();
        }
    }
}

} // verus!
