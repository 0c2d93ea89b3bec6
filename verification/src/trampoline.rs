//! The bind-once forwarding table.
//!
//! Every exported entry point forwards into the implementation the host
//! supplies at startup. The table has two states, unbound and bound; the
//! single transition `bind` is valid only once, and a second bind is
//! refused rather than silently overwriting. While unbound, every entry
//! point fails fast with its failure answer instead of reaching into an
//! empty table. Once bound, each entry point is a pure forward with no
//! additional logic.

use crate::dispatch::{
    spec_call_by_id, spec_call_by_name, spec_call_global_by_id, spec_call_global_by_name,
    spec_new_result,
};
use crate::host::{
    spec_list_of_value, spec_read_list_index, spec_read_var, spec_read_var_by_id, spec_var_of,
    spec_write_list_slots, HostModel, HostView, Xyz,
};
use crate::intern::{spec_intern, spec_lookup, NONE_ID};
use crate::lists::{spec_elements, spec_flatten_assoc, ListSlot};
use crate::registry::{spec_count_of, spec_is_live};
use crate::spatial::{spec_block_pos, spec_block_volume, spec_cell_at, spec_locate_in};
use crate::table::spec_find_key;
use crate::text::{spec_is_true, spec_length_source, spec_to_string};
use crate::value::{is_ref_tag, spec_null, TaggedValue};
use vstd::prelude::*;

verus! {

/// The forwarding table: unbound until the host installs its
/// implementation, bound and immutable after.
pub struct Trampoline {
    pub host: Option<HostModel>,
}

impl Trampoline {
    /// Whether the one-time bind has happened.
    pub open spec fn is_bound(&self) -> bool {
        self.host is Some
    }

    /// The bound implementation.
    pub open spec fn spec_host(&self) -> HostModel {
        self.host->Some_0
    }

    /// Well-formed: a bound implementation is a well-formed host.
    pub open spec fn wf(&self) -> bool {
        self.is_bound() ==> self.spec_host().wf()
    }

    /// The table as the process starts: unbound, every entry point
    /// refusing.
    pub fn new() -> (r: Trampoline)
        ensures
            !r.is_bound(),
            r.wf(),
    {
        Trampoline { host: None }
    }

    /// The one-time transition: installs the host's implementation.
    /// Valid only from the unbound state; a second bind is refused and
    /// the bound table stands untouched — the caller must treat the
    /// refusal as a fatal configuration error.
    pub fn bind(&mut self, host: HostModel) -> (ok: bool)
        requires
            old(self).wf(),
            host.wf(),
        ensures
            final(self).wf(),
            ok == !old(self).is_bound(),
            ok ==> final(self).is_bound() && final(self).spec_host() == host,
            !ok ==> *final(self) == *old(self),
    {
        if self.host.is_some() {
            return false;
        }
        self.host = Some(host);
        true
    }

    /// The host's version pair; zeroes while unbound.
    pub fn get_version(&self) -> (r: (u32, u32, bool))
        ensures
            !self.is_bound() ==> r == (0u32, 0u32, false),
            self.is_bound() ==> r == (
                self.spec_host()@.version,
                self.spec_host()@.build,
                true,
            ),
    {
        match &self.host {
            Some(h) => {
                let (v, b) = h.get_version();
                (v, b, true)
            },
            None => (0, 0, false),
        }
    }

    /// The compiled world's version; zero while unbound.
    pub fn get_dmb_version(&self) -> (r: (u32, bool))
        ensures
            !self.is_bound() ==> r == (0u32, false),
            self.is_bound() ==> r == (self.spec_host()@.dmb_version, true),
    {
        match &self.host {
            Some(h) => (h.get_dmb_version(), true),
            None => (0, false),
        }
    }

    /// The retrievable diagnostic string; empty while unbound.
    pub fn last_error_text(&self) -> (r: String)
        ensures
            !self.is_bound() ==> r@ == Seq::<char>::empty(),
            self.is_bound() ==> r@ == self.spec_host()@.last_error,
    {
        match &self.host {
            Some(h) => h.last_error_text(),
            None => String::new(),
        }
    }

    /// Non-mutating name resolution; the sentinel while unbound.
    pub fn get_str_id(&self, name: &String) -> (r: u32)
        requires
            self.wf(),
        ensures
            !self.is_bound() ==> r == NONE_ID,
            self.is_bound() ==> r == spec_lookup(self.spec_host()@.strings, name@),
    {
        match &self.host {
            Some(h) => h.get_str_id(name),
            None => NONE_ID,
        }
    }

    /// Mutating name resolution; the sentinel while unbound.
    pub fn add_get_str_id(&mut self, name: &String) -> (r: u32)
        requires
            old(self).wf(),
        ensures
            final(self).wf(),
            !old(self).is_bound() ==> r == NONE_ID && *final(self) == *old(self),
            old(self).is_bound() ==> final(self).is_bound() && (
            final(self).spec_host()@.strings,
            r,
            ) == spec_intern(old(self).spec_host()@.strings, name@) && final(self).spec_host()@
                == (HostView {
                strings: final(self).spec_host()@.strings,
                ..old(self).spec_host()@
            }),
    {
        match &mut self.host {
            Some(h) => h.add_get_str_id(name),
            None => NONE_ID,
        }
    }

    /// Variable read by name; fails fast while unbound.
    pub fn read_var(&self, loc: &TaggedValue, name: &String) -> (r: (TaggedValue, bool))
        requires
            self.wf(),
        ensures
            !self.is_bound() ==> r == (spec_null(), false),
            self.is_bound() ==> r == spec_read_var(self.spec_host()@, *loc, name@),
    {
        match &self.host {
            Some(h) => h.read_var(loc, name),
            None => (TaggedValue::null(), false),
        }
    }

    /// Variable read by interned id; fails fast while unbound.
    pub fn read_var_by_id(&self, loc: &TaggedValue, id: u32) -> (r: (TaggedValue, bool))
        requires
            self.wf(),
        ensures
            !self.is_bound() ==> r == (spec_null(), false),
            self.is_bound() ==> r == spec_read_var_by_id(self.spec_host()@, *loc, id),
    {
        match &self.host {
            Some(h) => h.read_var_by_id(loc, id),
            None => (TaggedValue::null(), false),
        }
    }

    /// Variable write by name; fails fast while unbound.
    pub fn write_var(&mut self, loc: &TaggedValue, name: &String, val: &TaggedValue) -> (ok: bool)
        requires
            old(self).wf(),
        ensures
            final(self).wf(),
            !old(self).is_bound() ==> !ok && *final(self) == *old(self),
            old(self).is_bound() ==> final(self).is_bound() && ({
                let h0 = old(self).spec_host()@;
                let h1 = final(self).spec_host()@;
                let id = spec_lookup(h0.strings, name@);
                &&& h1 == (HostView { objects: h1.objects, ..h0 })
                &&& (id == NONE_ID as u32 ==> !ok && h1 == h0)
                &&& (id != NONE_ID as u32 ==> ok == (is_ref_tag(loc.tag) && spec_var_of(
                    h0.objects,
                    loc.payload,
                    id,
                ) is Some) && (ok ==> spec_var_of(h1.objects, loc.payload, id) == Some(*val)) && (
                !ok ==> h1 == h0))
            }),
    {
        match &mut self.host {
            Some(h) => h.write_var(loc, name, val),
            None => false,
        }
    }

    /// Variable write by interned id; fails fast while unbound.
    pub fn write_var_by_id(&mut self, loc: &TaggedValue, id: u32, val: &TaggedValue) -> (ok: bool)
        requires
            old(self).wf(),
        ensures
            final(self).wf(),
            !old(self).is_bound() ==> !ok && *final(self) == *old(self),
            old(self).is_bound() ==> final(self).is_bound() && ({
                let h0 = old(self).spec_host()@;
                let h1 = final(self).spec_host()@;
                &&& ok == (is_ref_tag(loc.tag) && spec_var_of(h0.objects, loc.payload, id)
                    is Some)
                &&& h1 == (HostView { objects: h1.objects, ..h0 })
                &&& (ok ==> spec_var_of(h1.objects, loc.payload, id) == Some(*val) && (forall|
                    h2: u32,
                    id2: u32,
                |
                    h2 != loc.payload || id2 != id ==> spec_var_of(h1.objects, h2, id2)
                        == spec_var_of(h0.objects, h2, id2)))
                &&& (!ok ==> h1 == h0)
            }),
    {
        match &mut self.host {
            Some(h) => h.write_var_by_id(loc, id, val),
            None => false,
        }
    }

    /// One more reference to the object a value names; ignored while
    /// unbound.
    pub fn inc_ref(&mut self, v: &TaggedValue)
        requires
            old(self).wf(),
        ensures
            final(self).wf(),
            !old(self).is_bound() ==> *final(self) == *old(self),
            old(self).is_bound() ==> final(self).is_bound() && ({
                let h0 = old(self).spec_host()@;
                let h1 = final(self).spec_host()@;
                &&& h1 == (HostView { refs: h1.refs, ..h0 })
                &&& (is_ref_tag(v.tag) ==> {
                    let c = spec_count_of(h0.refs, v.payload);
                    spec_count_of(h1.refs, v.payload) == (if c == 0 {
                        0u32
                    } else if c == u32::MAX {
                        u32::MAX
                    } else {
                        (c + 1) as u32
                    })
                })
                &&& (!is_ref_tag(v.tag) ==> h1 == h0)
            }),
    {
        match &mut self.host {
            Some(h) => h.inc_ref(v),
            None => {},
        }
    }

    /// One reference released; ignored while unbound.
    pub fn dec_ref(&mut self, v: &TaggedValue)
        requires
            old(self).wf(),
        ensures
            final(self).wf(),
            !old(self).is_bound() ==> *final(self) == *old(self),
            old(self).is_bound() ==> final(self).is_bound() && ({
                let h0 = old(self).spec_host()@;
                let h1 = final(self).spec_host()@;
                &&& h1 == (HostView { refs: h1.refs, ..h0 })
                &&& (is_ref_tag(v.tag) ==> {
                    let c = spec_count_of(h0.refs, v.payload);
                    spec_count_of(h1.refs, v.payload) == (if c == 0 {
                        0u32
                    } else {
                        (c - 1) as u32
                    })
                })
                &&& (!is_ref_tag(v.tag) ==> h1 == h0)
            }),
    {
        match &mut self.host {
            Some(h) => h.dec_ref(v),
            None => {},
        }
    }

    /// Liveness test; while unbound the value is left alone and the
    /// answer is false.
    pub fn test_ref(&self, v: &mut TaggedValue) -> (r: bool)
        requires
            self.wf(),
        ensures
            !self.is_bound() ==> !r && *final(v) == *old(v),
            self.is_bound() ==> {
                &&& r == (is_ref_tag(old(v).tag) && spec_is_live(
                    self.spec_host()@.refs,
                    old(v).payload,
                ))
                &&& (r ==> *final(v) == *old(v))
                &&& (!r ==> *final(v) == spec_null())
            },
    {
        match &self.host {
            Some(h) => h.test_ref(v),
            None => false,
        }
    }

    /// The registry count for the object a value names; fails fast while
    /// unbound.
    pub fn refcount(&self, v: &TaggedValue) -> (r: (u32, bool))
        requires
            self.wf(),
        ensures
            !self.is_bound() ==> r == (0u32, false),
            self.is_bound() ==> r.1 == is_ref_tag(v.tag) && r.0 == (if is_ref_tag(v.tag) {
                spec_count_of(self.spec_host()@.refs, v.payload)
            } else {
                0u32
            }),
    {
        match &self.host {
            Some(h) => h.refcount(v),
            None => (0, false),
        }
    }
}

impl Trampoline {
    /// A fresh empty host list; fails fast while unbound.
    pub fn create_list(&mut self) -> (r: (TaggedValue, bool))
        requires
            old(self).wf(),
        ensures
            final(self).wf(),
            !old(self).is_bound() ==> r == (spec_null(), false) && *final(self) == *old(self),
            old(self).is_bound() ==> final(self).is_bound() && ({
                let h0 = old(self).spec_host()@;
                let h1 = final(self).spec_host()@;
                &&& r.1 == (h0.next_handle < u32::MAX)
                &&& (!r.1 ==> h1 == h0 && r.0 == spec_null())
                &&& (r.1 ==> r.0 == (TaggedValue {
                    tag: crate::value::TypeTag::List,
                    payload: h0.next_handle,
                }) && h1.lists == h0.lists.push((h0.next_handle, Seq::<ListSlot>::empty()))
                    && spec_count_of(h1.refs, h0.next_handle) == 1 && h1 == (HostView {
                    lists: h1.lists,
                    refs: h1.refs,
                    next_handle: (h0.next_handle + 1) as u32,
                    ..h0
                }))
            }),
    {
        match &mut self.host {
            Some(h) => h.create_list(),
            None => (TaggedValue::null(), false),
        }
    }

    /// Ordinary list read; fails fast while unbound.
    pub fn read_list(&self, loc: &TaggedValue, buf: &mut Vec<TaggedValue>, capacity: usize) -> (r:
        (usize, bool))
        requires
            self.wf(),
        ensures
            !self.is_bound() ==> r == (0usize, false) && final(buf)@ == old(buf)@,
            self.is_bound() ==> match spec_list_of_value(self.spec_host()@, *loc) {
                None => r == (0usize, false) && final(buf)@ == old(buf)@,
                Some(s) => {
                    &&& r.0 == s.len()
                    &&& r.1 == (s.len() <= capacity)
                    &&& (r.1 ==> final(buf)@ == spec_elements(s))
                    &&& (!r.1 ==> final(buf)@ == old(buf)@)
                },
            },
    {
        match &self.host {
            Some(h) => h.read_list(loc, buf, capacity),
            None => (0, false),
        }
    }

    /// Associative list read, flattened alternating; fails fast while
    /// unbound.
    pub fn read_list_assoc(&self, loc: &TaggedValue, buf: &mut Vec<TaggedValue>, capacity: usize)
        -> (r: (usize, bool))
        requires
            self.wf(),
        ensures
            !self.is_bound() ==> r == (0usize, false) && final(buf)@ == old(buf)@,
            self.is_bound() ==> match spec_list_of_value(self.spec_host()@, *loc) {
                None => r == (0usize, false) && final(buf)@ == old(buf)@,
                Some(s) => {
                    &&& r.0 == 2 * s.len()
                    &&& r.1 == (2 * s.len() <= capacity)
                    &&& (r.1 ==> final(buf)@ == spec_flatten_assoc(s))
                    &&& (!r.1 ==> final(buf)@ == old(buf)@)
                },
            },
    {
        match &self.host {
            Some(h) => h.read_list_assoc(loc, buf, capacity),
            None => (0, false),
        }
    }

    /// Replaces a list's contents; fails fast while unbound.
    pub fn write_list(&mut self, loc: &TaggedValue, vals: &Vec<TaggedValue>) -> (ok: bool)
        requires
            old(self).wf(),
            vals@.len() <= crate::host::MAX_LIST_LEN,
        ensures
            final(self).wf(),
            !old(self).is_bound() ==> !ok && *final(self) == *old(self),
            old(self).is_bound() ==> final(self).is_bound() && ({
                let h0 = old(self).spec_host()@;
                let h1 = final(self).spec_host()@;
                &&& ok == spec_list_of_value(h0, *loc) is Some
                &&& (!ok ==> h1 == h0)
                &&& (ok ==> ({
                    let s2 = crate::host::spec_list_at(h1.lists, loc.payload)->Some_0;
                    &&& crate::host::spec_list_at(h1.lists, loc.payload) is Some
                    &&& spec_elements(s2) == vals@
                    &&& (forall|i: int| 0 <= i < s2.len() ==> s2[i].assoc == spec_null())
                    &&& h1 == (HostView { lists: h1.lists, ..h0 })
                }))
            }),
    {
        match &mut self.host {
            Some(h) => h.write_list(loc, vals),
            None => false,
        }
    }

    /// List position read; fails fast while unbound.
    pub fn read_list_index(&self, loc: &TaggedValue, idx: &TaggedValue) -> (r: (TaggedValue, bool))
        requires
            self.wf(),
        ensures
            !self.is_bound() ==> r == (spec_null(), false),
            self.is_bound() ==> r == spec_read_list_index(self.spec_host()@, *loc, *idx),
    {
        match &self.host {
            Some(h) => h.read_list_index(loc, idx),
            None => (TaggedValue::null(), false),
        }
    }

    /// List position write; fails fast while unbound.
    pub fn write_list_index(&mut self, loc: &TaggedValue, idx: &TaggedValue, val: &TaggedValue)
        -> (ok: bool)
        requires
            old(self).wf(),
        ensures
            final(self).wf(),
            !old(self).is_bound() ==> !ok && *final(self) == *old(self),
            old(self).is_bound() ==> final(self).is_bound() && ({
                let h0 = old(self).spec_host()@;
                let h1 = final(self).spec_host()@;
                match spec_list_of_value(h0, *loc) {
                    None => !ok && h1 == h0,
                    Some(s) => match spec_write_list_slots(s, *idx, *val) {
                        None => !ok && h1 == h0,
                        Some(s2) => ok && crate::host::spec_list_at(h1.lists, loc.payload)
                            == Some(s2) && h1 == (HostView { lists: h1.lists, ..h0 }),
                    },
                }
            }),
    {
        match &mut self.host {
            Some(h) => h.write_list_index(loc, idx, val),
            None => false,
        }
    }

    /// Pointer read; fails fast while unbound.
    pub fn read_pointer(&self, ptr: &TaggedValue) -> (r: (TaggedValue, bool))
        requires
            self.wf(),
        ensures
            !self.is_bound() ==> r == (spec_null(), false),
            self.is_bound() ==> ({
                let h0 = self.spec_host()@;
                let pi = spec_find_key(h0.pointers, ptr.payload);
                if ptr.tag == crate::value::TypeTag::Pointer && pi >= 0 {
                    r == (h0.pointers[pi].1, true)
                } else {
                    r == (spec_null(), false)
                }
            }),
    {
        match &self.host {
            Some(h) => h.read_pointer(ptr),
            None => (TaggedValue::null(), false),
        }
    }

    /// Pointer write; fails fast while unbound.
    pub fn write_pointer(&mut self, ptr: &TaggedValue, val: &TaggedValue) -> (ok: bool)
        requires
            old(self).wf(),
        ensures
            final(self).wf(),
            !old(self).is_bound() ==> !ok && *final(self) == *old(self),
            old(self).is_bound() ==> final(self).is_bound() && ({
                let h0 = old(self).spec_host()@;
                let h1 = final(self).spec_host()@;
                &&& ok == (ptr.tag == crate::value::TypeTag::Pointer && spec_find_key(
                    h0.pointers,
                    ptr.payload,
                ) >= 0)
                &&& (!ok ==> h1 == h0)
                &&& (ok ==> h1.pointers == h0.pointers.update(
                    spec_find_key(h0.pointers, ptr.payload),
                    (ptr.payload, *val),
                ) && h1 == (HostView { pointers: h1.pointers, ..h0 }))
            }),
    {
        match &mut self.host {
            Some(h) => h.write_pointer(ptr, val),
            None => false,
        }
    }

    /// Instance procedure call by name; fails fast while unbound.
    pub fn call_proc(&self, src: &TaggedValue, name: &String, args: &Vec<TaggedValue>) -> (r: (
        TaggedValue,
        bool,
    ))
        requires
            self.wf(),
        ensures
            !self.is_bound() ==> r == (spec_null(), false),
            self.is_bound() ==> r == spec_call_by_name(self.spec_host()@, *src, name@),
    {
        match &self.host {
            Some(h) => h.call_proc(src, name, args),
            None => (TaggedValue::null(), false),
        }
    }

    /// Instance procedure call by interned id; fails fast while unbound.
    pub fn call_proc_by_id(&self, src: &TaggedValue, id: u32, args: &Vec<TaggedValue>) -> (r: (
        TaggedValue,
        bool,
    ))
        requires
            self.wf(),
        ensures
            !self.is_bound() ==> r == (spec_null(), false),
            self.is_bound() ==> r == spec_call_by_id(self.spec_host()@, *src, id),
    {
        match &self.host {
            Some(h) => h.call_proc_by_id(src, id, args),
            None => (TaggedValue::null(), false),
        }
    }

    /// Global procedure call by name; fails fast while unbound.
    pub fn call_global_proc(&self, name: &String, args: &Vec<TaggedValue>) -> (r: (
        TaggedValue,
        bool,
    ))
        requires
            self.wf(),
        ensures
            !self.is_bound() ==> r == (spec_null(), false),
            self.is_bound() ==> r == spec_call_global_by_name(self.spec_host()@, name@),
    {
        match &self.host {
            Some(h) => h.call_global_proc(name, args),
            None => (TaggedValue::null(), false),
        }
    }

    /// Global procedure call by interned id; fails fast while unbound.
    pub fn call_global_proc_by_id(&self, id: u32, args: &Vec<TaggedValue>) -> (r: (
        TaggedValue,
        bool,
    ))
        requires
            self.wf(),
        ensures
            !self.is_bound() ==> r == (spec_null(), false),
            self.is_bound() ==> r == spec_call_global_by_id(self.spec_host()@, id),
    {
        match &self.host {
            Some(h) => h.call_global_proc_by_id(id, args),
            None => (TaggedValue::null(), false),
        }
    }

    /// Construction with flat arguments; fails fast while unbound.
    pub fn new_instance(&mut self, type_v: &TaggedValue, args: &Vec<TaggedValue>) -> (r: (
        TaggedValue,
        bool,
    ))
        requires
            old(self).wf(),
        ensures
            final(self).wf(),
            !old(self).is_bound() ==> r == (spec_null(), false) && *final(self) == *old(self),
            old(self).is_bound() ==> final(self).is_bound() && ({
                let h0 = old(self).spec_host()@;
                let h1 = final(self).spec_host()@;
                &&& r == spec_new_result(h0, *type_v)
                &&& (!r.1 ==> h1 == h0)
                &&& (r.1 ==> spec_count_of(h1.refs, h0.next_handle) == 1 && h1 == (HostView {
                    objects: h1.objects,
                    refs: h1.refs,
                    next_handle: (h0.next_handle + 1) as u32,
                    ..h0
                }))
            }),
    {
        match &mut self.host {
            Some(h) => h.new_instance(type_v, args),
            None => (TaggedValue::null(), false),
        }
    }

    /// Construction with an arglist-shaped value; returns exactly what
    /// `new_instance` returns from the same state when the value names a
    /// list. Fails fast while unbound.
    pub fn new_arglist(&mut self, type_v: &TaggedValue, arglist: &TaggedValue) -> (r: (
        TaggedValue,
        bool,
    ))
        requires
            old(self).wf(),
        ensures
            final(self).wf(),
            !old(self).is_bound() ==> r == (spec_null(), false) && *final(self) == *old(self),
            old(self).is_bound() ==> final(self).is_bound() && ({
                let h0 = old(self).spec_host()@;
                let h1 = final(self).spec_host()@;
                &&& (spec_list_of_value(h0, *arglist) is None ==> r == (spec_null(), false) && h1
                    == h0)
                &&& (spec_list_of_value(h0, *arglist) is Some ==> r == spec_new_result(
                    h0,
                    *type_v,
                ) && (!r.1 ==> h1 == h0) && (r.1 ==> spec_count_of(h1.refs, h0.next_handle) == 1
                    && h1 == (HostView {
                    objects: h1.objects,
                    refs: h1.refs,
                    next_handle: (h0.next_handle + 1) as u32,
                    ..h0
                })))
            }),
    {
        match &mut self.host {
            Some(h) => h.new_arglist(type_v, arglist),
            None => (TaggedValue::null(), false),
        }
    }

    /// Text rendering; fails fast while unbound.
    pub fn to_string(&self, v: &TaggedValue) -> (r: (String, bool))
        requires
            self.wf(),
        ensures
            !self.is_bound() ==> r.1 == false && r.0@ == Seq::<char>::empty(),
            self.is_bound() ==> (r.0@, r.1) == spec_to_string(self.spec_host()@, *v),
    {
        match &self.host {
            Some(h) => h.to_string(v),
            None => (String::new(), false),
        }
    }

    /// Generic length as a number; fails fast while unbound.
    pub fn length_of(&self, v: &TaggedValue) -> (r: (TaggedValue, bool))
        requires
            self.wf(),
        ensures
            !self.is_bound() ==> r == (spec_null(), false),
            self.is_bound() ==> match spec_length_source(self.spec_host()@, *v) {
                Some(n) => {
                    &&& r.1 == (n <= crate::numbits::MAX_EXACT_ORDINAL)
                    &&& (r.1 ==> r.0.tag == crate::value::TypeTag::Number
                        && crate::numbits::spec_bits_value(r.0.payload) == Some(n))
                    &&& (!r.1 ==> r == (spec_null(), false))
                },
                None => r == (spec_null(), false),
            },
    {
        match &self.host {
            Some(h) => h.length_of(v),
            None => (TaggedValue::null(), false),
        }
    }

    /// Host truthiness; false while unbound.
    pub fn is_true(&self, v: &TaggedValue) -> (r: bool)
        requires
            self.wf(),
        ensures
            !self.is_bound() ==> !r,
            self.is_bound() ==> r == spec_is_true(self.spec_host()@, *v),
    {
        match &self.host {
            Some(h) => h.is_true(v),
            None => false,
        }
    }

    /// Grid cell occupant; fails fast while unbound.
    pub fn locate_xyz(&self, p: Xyz) -> (r: (TaggedValue, bool))
        requires
            self.wf(),
        ensures
            !self.is_bound() ==> r == (spec_null(), false),
            self.is_bound() ==> r == (spec_cell_at(self.spec_host()@.cells, p), true),
    {
        match &self.host {
            Some(h) => (h.locate_xyz(p), true),
            None => (TaggedValue::null(), false),
        }
    }

    /// First typed member of a list; fails fast while unbound.
    pub fn locate_in(&self, t: &TaggedValue, list_v: &TaggedValue) -> (r: (TaggedValue, bool))
        requires
            self.wf(),
        ensures
            !self.is_bound() ==> r == (spec_null(), false),
            self.is_bound() ==> r == spec_locate_in(self.spec_host()@, *t, *list_v),
    {
        match &self.host {
            Some(h) => h.locate_in(t, list_v),
            None => (TaggedValue::null(), false),
        }
    }

    /// Cuboid enumeration; fails fast while unbound.
    pub fn block(&self, c1: Xyz, c2: Xyz) -> (r: (Vec<TaggedValue>, bool))
        requires
            self.wf(),
        ensures
            !self.is_bound() ==> r.0@.len() == 0 && !r.1,
            self.is_bound() ==> {
                &&& r.1 == (spec_block_volume(c1, c2) <= u32::MAX)
                &&& (!r.1 ==> r.0@.len() == 0)
                &&& (r.1 ==> r.0@.len() == spec_block_volume(c1, c2) && (forall|i: int|
                    0 <= i < spec_block_volume(c1, c2) ==> r.0@[i] == spec_cell_at(
                        self.spec_host()@.cells,
                        spec_block_pos(c1, c2, i),
                    )))
            },
    {
        match &self.host {
            Some(h) => h.block(c1, c2),
            None => (Vec::new(), false),
        }
    }

    /// The grid position of an occupant; fails fast while unbound.
    pub fn xyz_of(&self, src: &TaggedValue) -> (r: (Xyz, bool))
        requires
            self.wf(),
        ensures
            !self.is_bound() ==> r == (Xyz { x: 0i16, y: 0i16, z: 0i16 }, false),
            self.is_bound() ==> ({
                let fi = crate::spatial::spec_find_cell_by_val(self.spec_host()@.cells, *src);
                if fi >= 0 {
                    r == (self.spec_host()@.cells[fi].0, true)
                } else {
                    r == (Xyz { x: 0i16, y: 0i16, z: 0i16 }, false)
                }
            }),
    {
        match &self.host {
            Some(h) => h.xyz_of(src),
            None => (Xyz { x: 0, y: 0, z: 0 }, false),
        }
    }
}

} // verus!
