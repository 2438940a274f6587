//! Size computation: each operator adds exactly the number of wire bytes
//! its wrap mode emits and its unwrap mode consumes.

use vstd::prelude::*;

use crate::types::Bytes;
use crate::types::Mac;
use crate::types::NBytes;
use crate::types::Size;
use crate::types::size_len;
use crate::EKEY_SIZE;
use crate::LINK_SIZE;
use crate::SIG_SIZE;

verus! {

/// A running byte count.
pub struct Context {
    pub size: usize,
}

impl Context {
    /// Start counting at zero.
    pub fn new() -> (r: Context)
        ensures
            r.size == 0,
    {
        Context { size: 0 }
    }

    /// The bytes counted so far.
    pub fn get_size(&self) -> (r: usize)
        ensures
            r == self.size,
    {
        self.size
    }

    /// `absorb(Uint8)` writes one byte.
    pub fn absorb_uint8(&mut self)
        requires
            old(self).size + 1 <= usize::MAX,
        ensures
            final(self).size == old(self).size + 1,
    {
        self.size = self.size + 1;
    }

    /// `mask(Uint8)` writes one byte of ciphertext.
    pub fn mask_uint8(&mut self)
        requires
            old(self).size + 1 <= usize::MAX,
        ensures
            final(self).size == old(self).size + 1,
    {
        self.size = self.size + 1;
    }

    /// `absorb(Size)` writes the variable-length encoding.
    pub fn absorb_size(&mut self, s: Size)
        requires
            old(self).size + size_len(s.0 as nat) <= usize::MAX,
        ensures
            final(self).size == old(self).size + size_len(s.0 as nat),
    {
        let enc = crate::types::size_encode(s.0);
        self.size = self.size + enc.len();
    }

    /// `mask(Size)` writes the same number of ciphertext bytes.
    pub fn mask_size(&mut self, s: Size)
        requires
            old(self).size + size_len(s.0 as nat) <= usize::MAX,
        ensures
            final(self).size == old(self).size + size_len(s.0 as nat),
    {
        let enc = crate::types::size_encode(s.0);
        self.size = self.size + enc.len();
    }

    /// `skip(Size)` writes the encoding without any sponge effect.
    pub fn skip_size(&mut self, s: Size)
        requires
            old(self).size + size_len(s.0 as nat) <= usize::MAX,
        ensures
            final(self).size == old(self).size + size_len(s.0 as nat),
    {
        let enc = crate::types::size_encode(s.0);
        self.size = self.size + enc.len();
    }

    /// `absorb(NBytes)` writes the value bytes.
    pub fn absorb_nbytes(&mut self, v: &NBytes)
        requires
            old(self).size + v@.len() <= usize::MAX,
        ensures
            final(self).size == old(self).size + v@.len(),
    {
        self.size = self.size + v.0.len();
    }

    /// `mask(NBytes)` writes the same number of ciphertext bytes.
    pub fn mask_nbytes(&mut self, v: &NBytes)
        requires
            old(self).size + v@.len() <= usize::MAX,
        ensures
            final(self).size == old(self).size + v@.len(),
    {
        self.size = self.size + v.0.len();
    }

    /// `skip(NBytes)` writes the value bytes without any sponge effect.
    pub fn skip_nbytes(&mut self, v: &NBytes)
        requires
            old(self).size + v@.len() <= usize::MAX,
        ensures
            final(self).size == old(self).size + v@.len(),
    {
        self.size = self.size + v.0.len();
    }

    /// `absorb(Bytes)` writes a size prefix and the value bytes.
    pub fn absorb_bytes(&mut self, v: &Bytes)
        requires
            old(self).size + size_len(v@.len()) + v@.len() <= usize::MAX,
        ensures
            final(self).size == old(self).size + size_len(v@.len()) + v@.len(),
    {
        let enc = crate::types::size_encode(v.0.len());
        self.size = self.size + enc.len();
        self.size = self.size + v.0.len();
    }

    /// `mask(Bytes)` writes the same number of ciphertext bytes.
    pub fn mask_bytes(&mut self, v: &Bytes)
        requires
            old(self).size + size_len(v@.len()) + v@.len() <= usize::MAX,
        ensures
            final(self).size == old(self).size + size_len(v@.len()) + v@.len(),
    {
        let enc = crate::types::size_encode(v.0.len());
        self.size = self.size + enc.len();
        self.size = self.size + v.0.len();
    }

    /// `absorb(External(NBytes))` occupies no wire bytes.
    pub fn absorb_external_nbytes(&mut self, v: &NBytes)
        ensures
            final(self).size == old(self).size,
    {
        let _ = v;
    }

    /// `squeeze(External(NBytes))` occupies no wire bytes.
    pub fn squeeze_external_nbytes(&mut self, n: usize)
        ensures
            final(self).size == old(self).size,
    {
        let _ = n;
    }

    /// `squeeze(Mac(n))` writes the tag.
    pub fn squeeze_mac(&mut self, mac: Mac)
        requires
            old(self).size + mac.0 <= usize::MAX,
        ensures
            final(self).size == old(self).size + mac.0,
    {
        self.size = self.size + mac.0;
    }

    /// `commit` occupies no wire bytes.
    pub fn commit(&mut self)
        ensures
            final(self).size == old(self).size,
    {
    }

    /// `join(link)` writes the link bytes via skip.
    pub fn join(&mut self)
        requires
            old(self).size + LINK_SIZE <= usize::MAX,
        ensures
            final(self).size == old(self).size + LINK_SIZE,
    {
        self.size = self.size + LINK_SIZE;
    }

    /// `ntrukem` writes one fixed-size ciphertext.
    pub fn ntrukem(&mut self)
        requires
            old(self).size + EKEY_SIZE <= usize::MAX,
        ensures
            final(self).size == old(self).size + EKEY_SIZE,
    {
        self.size = self.size + EKEY_SIZE;
    }

    /// `mssig` writes one signature.
    pub fn mssig(&mut self)
        requires
            old(self).size + SIG_SIZE <= usize::MAX,
        ensures
            final(self).size == old(self).size + SIG_SIZE,
    {
        self.size = self.size + SIG_SIZE;
    }
}

} // verus!
