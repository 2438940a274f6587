//! The link store: a bounded map from a relative message link to the
//! inner sponge state the prior message had at its commit point, plus an
//! opaque info value.
//!
//! `join` consults the store read-only; updates happen outside the codec
//! after a message commits. The store holds at most `capacity` entries
//! and refuses further inserts with [`CodecError::Full`].

use vstd::prelude::*;

use crate::bytes::copy_bytes;
use crate::bytes::eq_bytes;
use crate::errors::CodecError;
use crate::CAP;

verus! {

/// One stored link: the relative link bytes, the inner sponge snapshot,
/// and caller-defined info.
pub struct LinkEntry {
    pub rel: Vec<u8>,
    pub inner: Vec<u8>,
    pub info: Vec<u8>,
}

/// First entry with the given link, if any: its inner snapshot and info.
pub open spec fn ls_find(entries: Seq<LinkEntry>, rel: Seq<u8>) -> Option<(Seq<u8>, Seq<u8>)>
    decreases entries.len(),
{
    if entries.len() == 0 {
        None
    } else if entries[0].rel@ == rel {
        Some((entries[0].inner@, entries[0].info@))
    } else {
        ls_find(entries.skip(1), rel)
    }
}

/// A bounded link store.
pub struct LinkStore {
    pub entries: Vec<LinkEntry>,
    pub capacity: usize,
}

impl LinkStore {
    /// Every stored snapshot has capacity width, and the store respects
    /// its bound.
    pub open spec fn wf(&self) -> bool {
        &&& forall|i: int| 0 <= i < self.entries@.len() ==> (#[trigger] self.entries@[i]).inner@.len() == CAP
        &&& self.entries@.len() <= self.capacity
    }

    /// An empty store that accepts up to `capacity` entries.
    pub fn new(capacity: usize) -> (r: LinkStore)
        ensures
            r.wf(),
            r.entries@.len() == 0,
            r.capacity == capacity,
    {
        LinkStore { entries: Vec::new(), capacity }
    }

    /// Look a link up: the stored snapshot and info of the first entry
    /// with this link, or `LinkNotFound` exactly when no entry has it.
    #[verifier::loop_isolation(false)]
    pub fn lookup(&self, rel: &Vec<u8>) -> (r: Result<(Vec<u8>, Vec<u8>), CodecError>)
        requires
            self.wf(),
        ensures
            r is Ok <==> ls_find(self.entries@, rel@) is Some,
            r is Ok ==> ls_find(self.entries@, rel@) == Some((r->Ok_0.0@, r->Ok_0.1@)),
            r is Ok ==> r->Ok_0.0@.len() == CAP,
            r is Err ==> r == Err::<(Vec<u8>, Vec<u8>), CodecError>(CodecError::LinkNotFound),
    {
        let mut i: usize = 0;
        assert(self.entries@.skip(0) =~= self.entries@);
        while i < self.entries.len()
            invariant
                i <= self.entries@.len(),
                ls_find(self.entries@, rel@) == ls_find(self.entries@.skip(i as int), rel@),
            decreases self.entries@.len() - i,
        {
            let ghost pre = self.entries@.skip(i as int);
            proof {
                assert(pre[0] == self.entries@[i as int]);
                assert(pre.skip(1) =~= self.entries@.skip(i + 1));
            }
            if eq_bytes(&self.entries[i].rel, rel) {
                let inner = copy_bytes(&self.entries[i].inner);
                let info = copy_bytes(&self.entries[i].info);
                return Ok((inner, info));
            }
            i = i + 1;
        }
        proof {
            assert(self.entries@.skip(self.entries@.len() as int) =~= Seq::<LinkEntry>::empty());
        }
        Err(CodecError::LinkNotFound)
    }

    /// Store a snapshot under a link. An existing entry with this link is
    /// replaced; otherwise the entry is appended, or `Full` is returned
    /// exactly when the store already holds `capacity` entries.
    #[verifier::loop_isolation(false)]
    pub fn update(&mut self, rel: &Vec<u8>, inner: &Vec<u8>, info: &Vec<u8>) -> (r: Result<(), CodecError>)
        requires
            old(self).wf(),
            inner@.len() == CAP,
        ensures
            final(self).wf(),
            final(self).capacity == old(self).capacity,
            r is Ok ==> ls_find(final(self).entries@, rel@) == Some((inner@, info@)),
            r is Ok <==> (ls_find(old(self).entries@, rel@) is Some
                || old(self).entries@.len() < old(self).capacity),
            r is Err ==> r == Err::<(), CodecError>(CodecError::Full) && *final(self) == *old(self),
    {
        let mut i: usize = 0;
        assert(self.entries@.skip(0) =~= self.entries@);
        while i < self.entries.len()
            invariant
                i <= self.entries@.len(),
                *self == *old(self),
                ls_find(self.entries@, rel@) == ls_find(self.entries@.skip(i as int), rel@),
                forall|j: int| 0 <= j < i ==> (#[trigger] self.entries@[j]).rel@ != rel@,
            decreases self.entries@.len() - i,
        {
            let ghost pre = self.entries@.skip(i as int);
            proof {
                assert(pre[0] == self.entries@[i as int]);
                assert(pre.skip(1) =~= self.entries@.skip(i + 1));
            }
            if eq_bytes(&self.entries[i].rel, rel) {
                let entry = LinkEntry { rel: copy_bytes(rel), inner: copy_bytes(inner), info: copy_bytes(info) };
                self.entries[i] = entry;
                proof {
                    lemma_ls_find_head(self.entries@, rel@, i as int);
                }
                return Ok(());
            }
            i = i + 1;
        }
        proof {
            assert(self.entries@.skip(self.entries@.len() as int) =~= Seq::<LinkEntry>::empty());
        }
        if self.entries.len() < self.capacity {
            let entry = LinkEntry { rel: copy_bytes(rel), inner: copy_bytes(inner), info: copy_bytes(info) };
            let ghost n = self.entries@.len() as int;
            self.entries.push(entry);
            proof {
                lemma_ls_find_head(self.entries@, rel@, n);
            }
            Ok(())
        } else {
            Err(CodecError::Full)
        }
    }

    /// Remove the first entry with this link; a store without the link is
    /// left as it is.
    #[verifier::loop_isolation(false)]
    pub fn erase(&mut self, rel: &Vec<u8>)
        requires
            old(self).wf(),
        ensures
            final(self).wf(),
            final(self).capacity == old(self).capacity,
            ls_first_idx(old(self).entries@, rel@) < 0 ==> *final(self) == *old(self),
            ls_first_idx(old(self).entries@, rel@) >= 0 ==> final(self).entries@
                == old(self).entries@.remove(ls_first_idx(old(self).entries@, rel@)),
    {
        let mut i: usize = 0;
        while i < self.entries.len()
            invariant
                i <= self.entries@.len(),
                *self == *old(self),
                forall|j: int| 0 <= j < i ==> (#[trigger] self.entries@[j]).rel@ != rel@,
            decreases self.entries@.len() - i,
        {
            if eq_bytes(&self.entries[i].rel, rel) {
                proof {
                    lemma_ls_first_idx_head(self.entries@, rel@, i as int);
                }
                let _ = self.entries.remove(i);
                return;
            }
            i = i + 1;
        }
        proof {
            lemma_ls_first_idx_none(self.entries@, rel@);
        }
    }
}

/// Index of the first entry with the given link, or a negative value
/// when no entry has it.
pub open spec fn ls_first_idx(entries: Seq<LinkEntry>, rel: Seq<u8>) -> int
    decreases entries.len(),
{
    if entries.len() == 0 {
        -1
    } else if entries[0].rel@ == rel {
        0
    } else {
        let r = ls_first_idx(entries.skip(1), rel);
        if r < 0 {
            -1
        } else {
            r + 1
        }
    }
}

/// If every entry before `k` misses `rel` and entry `k` hits it, the
/// first index is `k`.
proof fn lemma_ls_first_idx_head(entries: Seq<LinkEntry>, rel: Seq<u8>, k: int)
    requires
        0 <= k < entries.len(),
        forall|j: int| 0 <= j < k ==> (#[trigger] entries[j]).rel@ != rel,
        entries[k].rel@ == rel,
    ensures
        ls_first_idx(entries, rel) == k,
    decreases k,
{
    if k > 0 {
        assert(entries.skip(1)[k - 1] == entries[k]);
        assert forall|j: int| 0 <= j < k - 1 implies (#[trigger] entries.skip(1)[j]).rel@ != rel by {
            assert(entries.skip(1)[j] == entries[j + 1]);
        }
        lemma_ls_first_idx_head(entries.skip(1), rel, k - 1);
    }
}

/// A store in which no entry hits `rel` has no first index for it.
proof fn lemma_ls_first_idx_none(entries: Seq<LinkEntry>, rel: Seq<u8>)
    requires
        forall|j: int| 0 <= j < entries.len() ==> (#[trigger] entries[j]).rel@ != rel,
    ensures
        ls_first_idx(entries, rel) < 0,
    decreases entries.len(),
{
    if entries.len() > 0 {
        assert forall|j: int| 0 <= j < entries.skip(1).len() implies (#[trigger] entries.skip(1)[j]).rel@ != rel by {
            assert(entries.skip(1)[j] == entries[j + 1]);
        }
        lemma_ls_first_idx_none(entries.skip(1), rel);
    }
}

/// If every entry before `k` misses `rel` and entry `k` hits it, the
/// first match is entry `k`.
proof fn lemma_ls_find_head(entries: Seq<LinkEntry>, rel: Seq<u8>, k: int)
    requires
        0 <= k < entries.len(),
        forall|j: int| 0 <= j < k ==> (#[trigger] entries[j]).rel@ != rel,
        entries[k].rel@ == rel,
    ensures
        ls_find(entries, rel) == Some((entries[k].inner@, entries[k].info@)),
    decreases k,
{
    if k > 0 {
        assert(entries.skip(1)[k - 1] == entries[k]);
        assert forall|j: int| 0 <= j < k - 1 implies (#[trigger] entries.skip(1)[j]).rel@ != rel by {
            assert(entries.skip(1)[j] == entries[j + 1]);
        }
        lemma_ls_find_head(entries.skip(1), rel, k - 1);
    }
}

} // verus!
