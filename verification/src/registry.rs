//! The reference-counted handle registry. The host is the sole authority
//! on object liveness; this is its counting discipline, stated over a
//! table of per-handle counts. A handle with count zero no longer denotes
//! a live object; the zero handle never denotes one.

use crate::table::{
    find_key, lemma_find_key_at, lemma_find_key_props, lemma_find_key_push,
    lemma_find_key_same_keys, spec_find_key,
};
use vstd::prelude::*;

verus! {

/// Per-handle reference counts. A handle absent from the table, or
/// present with count zero, is dead.
pub struct RefRegistry {
    pub entries: Vec<(u32, u32)>,
}

/// One entry per handle, and never one for the zero handle.
pub open spec fn spec_counts_wf(entries: Seq<(u32, u32)>) -> bool {
    &&& forall|i: int, j: int| 0 <= i < j < entries.len() ==> entries[i].0 != entries[j].0
    &&& forall|i: int| 0 <= i < entries.len() ==> entries[i].0 != 0
}

/// The count a table holds for a handle; zero when absent.
pub open spec fn spec_count_of(entries: Seq<(u32, u32)>, handle: u32) -> u32 {
    let r = spec_find_key(entries, handle);
    if r >= 0 {
        entries[r].1
    } else {
        0
    }
}

/// A handle denotes a live object exactly when its count is positive.
pub open spec fn spec_is_live(entries: Seq<(u32, u32)>, handle: u32) -> bool {
    spec_count_of(entries, handle) > 0
}

impl View for RefRegistry {
    type V = Seq<(u32, u32)>;

    open spec fn view(&self) -> Seq<(u32, u32)> {
        self.entries@
    }
}

impl RefRegistry {
    /// Well-formed: one entry per handle, and never one for the zero
    /// handle.
    pub open spec fn wf(&self) -> bool {
        spec_counts_wf(self.entries@)
    }

    /// The count the registry holds for a handle; zero when absent.
    pub open spec fn count_of(&self, handle: u32) -> u32 {
        spec_count_of(self.entries@, handle)
    }

    /// A handle denotes a live object exactly when its count is positive.
    pub open spec fn is_live(&self, handle: u32) -> bool {
        self.count_of(handle) > 0
    }

    /// An empty registry: no handle is live.
    pub fn new() -> (r: RefRegistry)
        ensures
            r.wf(),
            r@ =~= Seq::<(u32, u32)>::empty(),
            forall|h: u32| !r.is_live(h),
    {
        let r = RefRegistry { entries: Vec::new() };
        proof {
            assert forall|h: u32| !r.is_live(h) by {
                lemma_find_key_props(r.entries@, h);
            }
        }
        r
    }

    /// Births a handle with count one. Only the host creates objects; a
    /// zero or already-known handle is left alone.
    pub fn create(&mut self, handle: u32) -> (ok: bool)
        requires
            old(self).wf(),
        ensures
            final(self).wf(),
            ok == (handle != 0 && !old(self).is_live(handle)),
            ok ==> final(self).count_of(handle) == 1,
            !ok ==> final(self).count_of(handle) == old(self).count_of(handle),
            forall|h: u32| h != handle ==> final(self).count_of(h) == old(self).count_of(h),
            old(self)@.len() <= final(self)@.len() <= old(self)@.len() + 1,
            forall|i: int|
                0 <= i < final(self)@.len() ==> final(self)@[i].0 == (if i < old(self)@.len() {
                    old(self)@[i].0
                } else {
                    handle
                }),
    {
        if handle == 0 {
            return false;
        }
        match find_key(&self.entries, handle) {
            Some(i) => {
                proof {
                    lemma_find_key_props(self.entries@, handle);
                }
                if self.entries[i].1 > 0 {
                    false
                } else {
                    let ghost before = self.entries@;
                    self.entries[i].1 = 1;
                    proof {
                        self.lemma_update_count(before, i as int, handle);
                    }
                    true
                }
            },
            None => {
                let ghost before = self.entries@;
                self.entries.push((handle, 1));
                proof {
                    lemma_find_key_props(before, handle);
                    lemma_find_key_push(before, handle, 1u32);
                    assert forall|a: int, b: int|
                        0 <= a < b < self.entries@.len() implies self.entries@[a].0
                        != self.entries@[b].0 by {
                        if b < before.len() {
                            assert(self.entries@[a] == before[a]);
                            assert(self.entries@[b] == before[b]);
                        } else {
                            assert(self.entries@[a] == before[a]);
                            assert(before[a].0 != handle);
                        }
                    }
                    assert forall|h: u32| h != handle implies spec_find_key(
                        self.entries@,
                        h,
                    ) == spec_find_key(before, h) && (spec_find_key(before, h) >= 0
                        ==> self.entries@[spec_find_key(before, h)]
                        == before[spec_find_key(before, h)]) by {
                        self.lemma_push_other(before, handle, 1u32, h);
                    }
                }
                true
            },
        }
    }

    /// Requests one more reference to the handle's object. A dead handle
    /// is a caller error the host ignores; a count at the maximum stays
    /// there.
    pub fn inc_ref(&mut self, handle: u32)
        requires
            old(self).wf(),
        ensures
            final(self).wf(),
            final(self).count_of(handle) == (if old(self).count_of(handle) == 0 {
                0u32
            } else if old(self).count_of(handle) == u32::MAX {
                u32::MAX
            } else {
                (old(self).count_of(handle) + 1) as u32
            }),
            forall|h: u32| h != handle ==> final(self).count_of(h) == old(self).count_of(h),
            final(self)@.len() == old(self)@.len(),
            forall|i: int| 0 <= i < old(self)@.len() ==> final(self)@[i].0 == old(self)@[i].0,
    {
        match find_key(&self.entries, handle) {
            Some(i) => {
                proof {
                    lemma_find_key_props(self.entries@, handle);
                }
                let c = self.entries[i].1;
                if c > 0 && c < u32::MAX {
                    let ghost before = self.entries@;
                    self.entries[i].1 = c + 1;
                    proof {
                        self.lemma_update_count(before, i as int, handle);
                    }
                }
            },
            None => {},
        }
    }

    /// Releases one reference. The count falls by one and the object dies
    /// at zero; releasing a dead handle is ignored.
    pub fn dec_ref(&mut self, handle: u32)
        requires
            old(self).wf(),
        ensures
            final(self).wf(),
            final(self).count_of(handle) == (if old(self).count_of(handle) == 0 {
                0u32
            } else {
                (old(self).count_of(handle) - 1) as u32
            }),
            forall|h: u32| h != handle ==> final(self).count_of(h) == old(self).count_of(h),
            final(self)@.len() == old(self)@.len(),
            forall|i: int| 0 <= i < old(self)@.len() ==> final(self)@[i].0 == old(self)@[i].0,
    {
        match find_key(&self.entries, handle) {
            Some(i) => {
                proof {
                    lemma_find_key_props(self.entries@, handle);
                }
                let c = self.entries[i].1;
                if c > 0 {
                    let ghost before = self.entries@;
                    self.entries[i].1 = c - 1;
                    proof {
                        self.lemma_update_count(before, i as int, handle);
                    }
                }
            },
            None => {},
        }
    }

    /// Whether the handle currently denotes a live object. A `false`
    /// answer means "do not dereference", never an error to retry.
    pub fn test_ref(&self, handle: u32) -> (r: bool)
        requires
            self.wf(),
        ensures
            r == self.is_live(handle),
    {
        match find_key(&self.entries, handle) {
            Some(i) => {
                proof {
                    lemma_find_key_props(self.entries@, handle);
                }
                self.entries[i].1 > 0
            },
            None => false,
        }
    }

    /// The current count of a handle; zero for a dead one.
    pub fn refcount(&self, handle: u32) -> (r: u32)
        requires
            self.wf(),
        ensures
            r == self.count_of(handle),
    {
        match find_key(&self.entries, handle) {
            Some(i) => {
                proof {
                    lemma_find_key_props(self.entries@, handle);
                }
                self.entries[i].1
            },
            None => 0,
        }
    }

    /// Helper: rewriting one count in place moves no handle and no other
    /// count.
    proof fn lemma_update_count(&self, before: Seq<(u32, u32)>, i: int, handle: u32)
        requires
            0 <= i < before.len(),
            before[i].0 == handle,
            self.entries@.len() == before.len(),
            forall|k: int| 0 <= k < before.len() && k != i ==> self.entries@[k] == before[k],
            self.entries@[i].0 == handle,
            forall|a: int, b: int| 0 <= a < b < before.len() ==> before[a].0 != before[b].0,
            spec_find_key(before, handle) == i,
        ensures
            spec_find_key(self.entries@, handle) == i,
            forall|h: u32|
                h != handle ==> spec_find_key(self.entries@, h) == spec_find_key(before, h) && (
                spec_find_key(before, h) >= 0 ==> self.entries@[spec_find_key(before, h)]
                    == before[spec_find_key(before, h)]),
    {
        lemma_find_key_same_keys(self.entries@, before, handle);
        assert forall|h: u32| h != handle implies spec_find_key(self.entries@, h)
            == spec_find_key(before, h) && (spec_find_key(before, h) >= 0
            ==> self.entries@[spec_find_key(before, h)] == before[spec_find_key(before, h)]) by {
            lemma_find_key_same_keys(self.entries@, before, h);
            lemma_find_key_props(before, h);
        }
    }

    /// Helper: appending a fresh handle leaves every other handle's
    /// search result and entry alone.
    proof fn lemma_push_other(
        &self,
        before: Seq<(u32, u32)>,
        handle: u32,
        count: u32,
        h: u32,
    )
        requires
            h != handle,
            self.entries@ == before.push((handle, count)),
        ensures
            spec_find_key(self.entries@, h) == spec_find_key(before, h),
            spec_find_key(before, h) >= 0 ==> self.entries@[spec_find_key(before, h)]
                == before[spec_find_key(before, h)],
        decreases before.len(),
    {
        lemma_find_key_props(before, h);
        if spec_find_key(before, h) >= 0 {
            let i = spec_find_key(before, h);
            lemma_find_key_at(self.entries@, h, i);
        } else {
            assert(forall|k: int|
                0 <= k < self.entries@.len() ==> self.entries@[k].0 != h);
            crate::table::lemma_find_key_absent(self.entries@, h);
        }
    }
}

} // verus!
