//! Scoped acquisition of counted handles.
//!
//! A `HandleGuard` witnesses one acquired reference to one host object.
//! The guard is not copyable and not clonable: releasing consumes it, so
//! one acquisition can never be released twice, and a guard that is
//! handed along early-return paths still stands for exactly one count
//! until `release` takes it back.

use crate::registry::{spec_count_of, RefRegistry};
use crate::value::{is_ref_tag, TaggedValue};
use vstd::prelude::*;

verus! {

/// One acquired reference to the object behind a handle.
pub struct HandleGuard {
    handle: u32,
}

impl HandleGuard {
    /// The handle the guard holds a reference to.
    pub closed spec fn spec_handle(&self) -> u32 {
        self.handle
    }

    /// The handle the guard holds a reference to.
    pub fn handle(&self) -> (r: u32)
        ensures
            r == self.spec_handle(),
    {
        self.handle
    }

    /// Acquires one reference to the object a value names: the count
    /// rises by one and the guard witnesses it. Only a live,
    /// reference-typed value with a count below the maximum can be
    /// acquired; anything else yields no guard and moves no count.
    pub fn acquire(reg: &mut RefRegistry, v: &TaggedValue) -> (r: Option<HandleGuard>)
        requires
            old(reg).wf(),
        ensures
            final(reg).wf(),
            forall|h: u32|
                h != v.payload ==> final(reg).count_of(h) == old(reg).count_of(h),
            match r {
                Some(g) => {
                    &&& g.spec_handle() == v.payload
                    &&& is_ref_tag(v.tag)
                    &&& 0 < old(reg).count_of(v.payload) < u32::MAX
                    &&& final(reg).count_of(v.payload) == old(reg).count_of(v.payload) + 1
                },
                None => {
                    &&& final(reg).count_of(v.payload) == old(reg).count_of(v.payload)
                    &&& !(is_ref_tag(v.tag) && 0 < old(reg).count_of(v.payload) < u32::MAX)
                },
            },
    {
        if !v.get_handle_is_counted() {
            return None;
        }
        let h = v.payload;
        let c = reg.refcount(h);
        if c == 0 || c == u32::MAX {
            return None;
        }
        reg.inc_ref(h);
        Some(HandleGuard { handle: h })
    }

    /// Releases the guard's reference: the count falls by one and the
    /// guard is consumed, so the same acquisition can never be released
    /// again.
    pub fn release(self, reg: &mut RefRegistry)
        requires
            old(reg).wf(),
        ensures
            final(reg).wf(),
            final(reg).count_of(self.spec_handle()) == (if old(reg).count_of(self.spec_handle())
                == 0 {
                0u32
            } else {
                (old(reg).count_of(self.spec_handle()) - 1) as u32
            }),
            forall|h: u32|
                h != self.spec_handle() ==> final(reg).count_of(h) == old(reg).count_of(h),
    {
        reg.dec_ref(self.handle);
    }
}

impl TaggedValue {
    /// Whether the value is of the counted, reference-typed subset.
    fn get_handle_is_counted(&self) -> (r: bool)
        ensures
            r == is_ref_tag(self.tag),
    {
        !matches!(self.tag, crate::value::TypeTag::Null | crate::value::TypeTag::Number)
    }
}

} // verus!
