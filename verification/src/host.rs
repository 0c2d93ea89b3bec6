//! The model of the host engine's observable state behind the boundary:
//! the interned-string table, the handle registry, list and object
//! storage, pointer slots, the spatial grid, and the registered
//! procedures. Every boundary operation is stated exactly against this
//! model.
//!
//! The model fixes what the boundary contract determines and leaves
//! host-defined what it does not: a registered procedure returns its
//! registered result whatever its arguments, since procedure bodies are
//! the host's affair.

use crate::intern::{spec_intern, spec_lookup, InternTable, NONE_ID};
use crate::lists::{
    spec_elements, spec_find_slot, spec_flatten_assoc, ListObj, ListSlot,
};
use crate::numbits::{spec_bits_value, u32_of_number_bits};
use crate::registry::{spec_count_of, spec_counts_wf, spec_is_live, RefRegistry};
use crate::table::{
    find_key, lemma_find_key_props, lemma_find_key_push, lemma_find_key_push_other,
    lemma_find_key_same_keys, lemma_find_key_update_entry, spec_find_key,
};
use crate::value::{is_ref_tag, spec_null, TaggedValue, TypeTag};
use vstd::prelude::*;

verus! {

/// A grid position: three signed coordinates.
#[derive(Clone, Copy, PartialEq, Eq, Structural, Debug)]
pub struct Xyz {
    pub x: i16,
    pub y: i16,
    pub z: i16,
}

/// The longest list the boundary will marshal: lengths cross the
/// boundary as 32-bit counts, and a flattened associative read needs
/// twice the length.
pub const MAX_LIST_LEN: usize = 0x7FFF_FFFF;

/// One host-owned object: its type path and its variables, keyed by
/// interned name id.
pub struct ObjModel {
    pub type_path: TaggedValue,
    pub vars: Vec<(u32, TaggedValue)>,
}

/// The mathematical shadow of an object.
#[verifier::ext_equal]
pub ghost struct ObjView {
    pub type_path: TaggedValue,
    pub vars: Seq<(u32, TaggedValue)>,
}

impl View for ObjModel {
    type V = ObjView;

    open spec fn view(&self) -> ObjView {
        ObjView { type_path: self.type_path, vars: self.vars@ }
    }
}

/// The mathematical shadow of the whole host state.
#[verifier::ext_equal]
pub ghost struct HostView {
    pub version: u32,
    pub build: u32,
    pub dmb_version: u32,
    pub strings: Seq<Seq<char>>,
    pub refs: Seq<(u32, u32)>,
    pub lists: Seq<(u32, Seq<ListSlot>)>,
    pub objects: Seq<(u32, ObjView)>,
    pub pointers: Seq<(u32, TaggedValue)>,
    pub cells: Seq<(Xyz, TaggedValue)>,
    pub procs: Seq<(u32, TaggedValue)>,
    pub next_handle: u32,
    pub last_error: Seq<char>,
}

/// The host state the boundary talks to.
pub struct HostModel {
    pub version: u32,
    pub build: u32,
    pub dmb_version: u32,
    pub strings: InternTable,
    pub refs: RefRegistry,
    pub lists: Vec<(u32, ListObj)>,
    pub objects: Vec<(u32, ObjModel)>,
    pub pointers: Vec<(u32, TaggedValue)>,
    pub cells: Vec<(Xyz, TaggedValue)>,
    pub procs: Vec<(u32, TaggedValue)>,
    pub next_handle: u32,
    pub last_error: String,
}

impl View for HostModel {
    type V = HostView;

    open spec fn view(&self) -> HostView {
        HostView {
            version: self.version,
            build: self.build,
            dmb_version: self.dmb_version,
            strings: self.strings@,
            refs: self.refs@,
            lists: self.lists@.map_values(|p: (u32, ListObj)| (p.0, p.1@)),
            objects: self.objects@.map_values(|p: (u32, ObjModel)| (p.0, p.1@)),
            pointers: self.pointers@,
            cells: self.cells@,
            procs: self.procs@,
            next_handle: self.next_handle,
            last_error: self.last_error@,
        }
    }
}

/// Unique keys, none zero, all below the allocation mark.
pub open spec fn spec_handles_wf<T>(s: Seq<(u32, T)>, next: u32) -> bool {
    &&& forall|i: int, j: int| 0 <= i < j < s.len() ==> s[i].0 != s[j].0
    &&& forall|i: int| 0 <= i < s.len() ==> s[i].0 != 0 && s[i].0 < next
}

/// One slot per variable id within an object.
pub open spec fn spec_vars_wf(vars: Seq<(u32, TaggedValue)>) -> bool {
    forall|i: int, j: int| 0 <= i < j < vars.len() ==> vars[i].0 != vars[j].0
}

impl HostModel {
    /// Well-formed host state: every table keyed uniquely, every handle
    /// born below the allocation mark, the string table within capacity.
    pub open spec fn wf(&self) -> bool {
        &&& self.strings.wf()
        &&& spec_counts_wf(self@.refs)
        &&& forall|i: int| 0 <= i < self@.refs.len() ==> self@.refs[i].0 < self.next_handle
        &&& spec_handles_wf(self@.lists, self.next_handle)
        &&& forall|i: int|
            0 <= i < self@.lists.len() ==> #[trigger] self@.lists[i].1.len()
                <= MAX_LIST_LEN as nat
        &&& spec_handles_wf(self@.objects, self.next_handle)
        &&& forall|k: int|
            0 <= k < self@.objects.len() ==> #[trigger] spec_vars_wf(self@.objects[k].1.vars)
        &&& spec_handles_wf(self@.pointers, self.next_handle)
        &&& forall|i: int, j: int|
            0 <= i < j < self@.cells.len() ==> self@.cells[i].0 != self@.cells[j].0
        &&& forall|i: int, j: int|
            0 <= i < j < self@.procs.len() ==> self@.procs[i].0 != self@.procs[j].0
        &&& self.next_handle >= 1
    }

    /// A fresh host with the given version pair and nothing registered.
    pub fn new(version: u32, build: u32) -> (r: HostModel)
        ensures
            r.wf(),
            r@.version == version,
            r@.build == build,
            r@.dmb_version == 0,
            r@.strings =~= Seq::<Seq<char>>::empty(),
            r@.lists =~= Seq::<(u32, Seq<ListSlot>)>::empty(),
            r@.objects =~= Seq::<(u32, ObjView)>::empty(),
            r@.pointers =~= Seq::<(u32, TaggedValue)>::empty(),
            r@.cells =~= Seq::<(Xyz, TaggedValue)>::empty(),
            r@.procs =~= Seq::<(u32, TaggedValue)>::empty(),
            r@.refs =~= Seq::<(u32, u32)>::empty(),
            r@.last_error =~= Seq::<char>::empty(),
    {
        HostModel {
            version,
            build,
            dmb_version: 0,
            strings: InternTable::new(),
            refs: RefRegistry::new(),
            lists: Vec::new(),
            objects: Vec::new(),
            pointers: Vec::new(),
            cells: Vec::new(),
            procs: Vec::new(),
            next_handle: 1,
            last_error: String::new(),
        }
    }

    /// The host's version pair.
    pub fn get_version(&self) -> (r: (u32, u32))
        ensures
            r == (self@.version, self@.build),
    {
        (self.version, self.build)
    }

    /// The version of the compiled world the host is running.
    pub fn get_dmb_version(&self) -> (r: u32)
        ensures
            r == self@.dmb_version,
    {
        self.dmb_version
    }

    /// Host-side setup: records the compiled world's version.
    pub fn set_dmb_version(&mut self, dmb: u32)
        requires
            old(self).wf(),
        ensures
            final(self).wf(),
            final(self)@ == (HostView { dmb_version: dmb, ..old(self)@ }),
    {
        self.dmb_version = dmb;
        proof {
            assert(self@ =~= (HostView { dmb_version: dmb, ..old(self)@ }));
        }
    }

    /// The retrievable diagnostic string: purely informational, never
    /// part of the control-flow contract.
    pub fn last_error_text(&self) -> (r: String)
        ensures
            r@ == self@.last_error,
    {
        self.last_error.clone()
    }

    /// Host-side setup: records a diagnostic string.
    pub fn set_last_error(&mut self, msg: &String)
        requires
            old(self).wf(),
        ensures
            final(self).wf(),
            final(self)@ == (HostView { last_error: msg@, ..old(self)@ }),
    {
        self.last_error = msg.clone();
        proof {
            assert(self@ =~= (HostView { last_error: msg@, ..old(self)@ }));
        }
    }

    /// Non-mutating name resolution: the interned id, or the sentinel.
    pub fn get_str_id(&self, name: &String) -> (r: u32)
        requires
            self.wf(),
        ensures
            r == spec_lookup(self@.strings, name@),
    {
        self.strings.lookup(name)
    }

    /// Mutating name resolution: registers the name on first use.
    pub fn add_get_str_id(&mut self, name: &String) -> (r: u32)
        requires
            old(self).wf(),
        ensures
            final(self).wf(),
            (final(self)@.strings, r) == spec_intern(old(self)@.strings, name@),
            final(self)@ == (HostView { strings: final(self)@.strings, ..old(self)@ }),
    {
        self.strings.intern(name)
    }

    /// Requests one more reference to the object a value names. Only a
    /// reference-typed value names one; the count discipline is the
    /// registry's.
    pub fn inc_ref(&mut self, v: &TaggedValue)
        requires
            old(self).wf(),
        ensures
            final(self).wf(),
            final(self)@ == (HostView { refs: final(self)@.refs, ..old(self)@ }),
            is_ref_tag(v.tag) ==> {
                let c = spec_count_of(old(self)@.refs, v.payload);
                spec_count_of(final(self)@.refs, v.payload) == (if c == 0 {
                    0u32
                } else if c == u32::MAX {
                    u32::MAX
                } else {
                    (c + 1) as u32
                }) && (forall|h: u32|
                    h != v.payload ==> spec_count_of(final(self)@.refs, h) == spec_count_of(
                        old(self)@.refs,
                        h,
                    ))
            },
            !is_ref_tag(v.tag) ==> final(self)@ == old(self)@,
    {
        if !matches!(v.tag, TypeTag::Null | TypeTag::Number) {
            self.refs.inc_ref(v.payload);
            proof {
                assert forall|h: u32|
                    h != v.payload implies spec_count_of(self@.refs, h) == spec_count_of(
                    old(self)@.refs,
                    h,
                ) by {
                    assert(self.refs.count_of(h) == old(self).refs.count_of(h));
                }
                assert(spec_count_of(self@.refs, v.payload) == self.refs.count_of(v.payload));
            }
        }
    }

    /// Releases one reference to the object a value names.
    pub fn dec_ref(&mut self, v: &TaggedValue)
        requires
            old(self).wf(),
        ensures
            final(self).wf(),
            final(self)@ == (HostView { refs: final(self)@.refs, ..old(self)@ }),
            is_ref_tag(v.tag) ==> {
                let c = spec_count_of(old(self)@.refs, v.payload);
                spec_count_of(final(self)@.refs, v.payload) == (if c == 0 {
                    0u32
                } else {
                    (c - 1) as u32
                }) && (forall|h: u32|
                    h != v.payload ==> spec_count_of(final(self)@.refs, h) == spec_count_of(
                        old(self)@.refs,
                        h,
                    ))
            },
            !is_ref_tag(v.tag) ==> final(self)@ == old(self)@,
    {
        if !matches!(v.tag, TypeTag::Null | TypeTag::Number) {
            self.refs.dec_ref(v.payload);
            proof {
                assert forall|h: u32|
                    h != v.payload implies spec_count_of(self@.refs, h) == spec_count_of(
                    old(self)@.refs,
                    h,
                ) by {
                    assert(self.refs.count_of(h) == old(self).refs.count_of(h));
                }
                assert(spec_count_of(self@.refs, v.payload) == self.refs.count_of(v.payload));
            }
        }
    }

    /// Whether a value still denotes a live object. A dead value is
    /// cleared to null in place, so the caller cannot dereference it; the
    /// answer `false` is a query result, never an error.
    pub fn test_ref(&self, v: &mut TaggedValue) -> (r: bool)
        requires
            self.wf(),
        ensures
            r == (is_ref_tag(old(v).tag) && spec_is_live(self@.refs, old(v).payload)),
            r ==> *final(v) == *old(v),
            !r ==> *final(v) == spec_null(),
    {
        if matches!(v.tag, TypeTag::Null | TypeTag::Number) {
            v.clear();
            return false;
        }
        if self.refs.test_ref(v.payload) {
            true
        } else {
            v.clear();
            false
        }
    }

    /// The registry's current count for the object a value names; zero
    /// for a non-reference.
    pub fn refcount(&self, v: &TaggedValue) -> (r: (u32, bool))
        requires
            self.wf(),
        ensures
            r.1 == is_ref_tag(v.tag),
            r.0 == (if is_ref_tag(v.tag) {
                spec_count_of(self@.refs, v.payload)
            } else {
                0u32
            }),
    {
        if matches!(v.tag, TypeTag::Null | TypeTag::Number) {
            (0, false)
        } else {
            (self.refs.refcount(v.payload), true)
        }
    }
}

/// Where an object's variable table holds a variable, if anywhere.
pub open spec fn spec_var_of(objects: Seq<(u32, ObjView)>, handle: u32, id: u32) -> Option<
    TaggedValue,
> {
    let oi = spec_find_key(objects, handle);
    if oi < 0 {
        None
    } else {
        let vars = objects[oi].1.vars;
        let vi = spec_find_key(vars, id);
        if vi < 0 {
            None
        } else {
            Some(vars[vi].1)
        }
    }
}

/// What reading a variable by interned id answers: the value and true
/// when the instance exists and has the variable, the null value and
/// false otherwise.
pub open spec fn spec_read_var_by_id(h: HostView, loc: TaggedValue, id: u32) -> (
    TaggedValue,
    bool,
) {
    if !is_ref_tag(loc.tag) {
        (spec_null(), false)
    } else {
        match spec_var_of(h.objects, loc.payload, id) {
            Some(v) => (v, true),
            None => (spec_null(), false),
        }
    }
}

/// What reading a variable by name answers: an unregistered name misses
/// silently, a registered one reads by its id.
pub open spec fn spec_read_var(h: HostView, loc: TaggedValue, name: Seq<char>) -> (
    TaggedValue,
    bool,
) {
    let id = spec_lookup(h.strings, name);
    if id == NONE_ID as u32 {
        (spec_null(), false)
    } else {
        spec_read_var_by_id(h, loc, id)
    }
}

impl HostModel {
    /// Reads a variable by interned id. A missing instance or variable
    /// fails with the null value; at this layer the failure is the
    /// boolean, whatever noise the host also raises on its side.
    pub fn read_var_by_id(&self, loc: &TaggedValue, id: u32) -> (r: (TaggedValue, bool))
        requires
            self.wf(),
        ensures
            r == spec_read_var_by_id(self@, *loc, id),
    {
        if matches!(loc.tag, TypeTag::Null | TypeTag::Number) {
            return (TaggedValue::null(), false);
        }
        match find_key(&self.objects, loc.payload) {
            Some(oi) => {
                proof {
                    self.lemma_view_find_objects(loc.payload);
                }
                match find_key(&self.objects[oi].1.vars, id) {
                    Some(vi) => (self.objects[oi].1.vars[vi].1, true),
                    None => (TaggedValue::null(), false),
                }
            },
            None => {
                proof {
                    self.lemma_view_find_objects(loc.payload);
                }
                (TaggedValue::null(), false)
            },
        }
    }

    /// Reads a variable by name: a name nobody registered fails silently,
    /// as does a missing variable.
    pub fn read_var(&self, loc: &TaggedValue, name: &String) -> (r: (TaggedValue, bool))
        requires
            self.wf(),
        ensures
            r == spec_read_var(self@, *loc, name@),
    {
        let id = self.strings.lookup(name);
        if id == NONE_ID {
            return (TaggedValue::null(), false);
        }
        self.read_var_by_id(loc, id)
    }

    /// Writes a variable by interned id. Only an existing variable of an
    /// existing instance is written; anything else fails silently and
    /// changes nothing.
    pub fn write_var_by_id(&mut self, loc: &TaggedValue, id: u32, val: &TaggedValue) -> (ok:
        bool)
        requires
            old(self).wf(),
        ensures
            final(self).wf(),
            ok == (is_ref_tag(loc.tag) && spec_var_of(old(self)@.objects, loc.payload, id)
                is Some),
            final(self)@ == (HostView { objects: final(self)@.objects, ..old(self)@ }),
            ok ==> spec_var_of(final(self)@.objects, loc.payload, id) == Some(*val),
            ok ==> forall|h2: u32, id2: u32|
                h2 != loc.payload || id2 != id ==> spec_var_of(final(self)@.objects, h2, id2)
                    == spec_var_of(old(self)@.objects, h2, id2),
            ok ==> forall|h2: u32|
                #[trigger] spec_find_key(final(self)@.objects, h2) == spec_find_key(
                    old(self)@.objects,
                    h2,
                ),
            !ok ==> final(self)@ == old(self)@,
    {
        if matches!(loc.tag, TypeTag::Null | TypeTag::Number) {
            proof {
                assert(self@ =~= (HostView { objects: self@.objects, ..self@ }));
            }
            return false;
        }
        let handle = loc.payload;
        match find_key(&self.objects, handle) {
            Some(oi) => {
                proof {
                    self.lemma_view_find_objects(handle);
                }
                match find_key(&self.objects[oi].1.vars, id) {
                    Some(vi) => {
                        let ghost before = self@;
                        proof {
                            lemma_find_key_props(before.objects, handle);
                            lemma_find_key_props(before.objects[oi as int].1.vars, id);
                            assert(spec_vars_wf(before.objects[oi as int].1.vars));
                            assert(before.objects[oi as int]
                                == (self.objects@[oi as int].0, self.objects@[oi as int].1@));
                        }
                        self.objects[oi].1.vars[vi] = (id, *val);
                        proof {
                            assert(self@.objects[oi as int]
                                == (self.objects@[oi as int].0, self.objects@[oi as int].1@));
                            assert(forall|k: int|
                                0 <= k < before.objects.len() && k != oi ==> self@.objects[k]
                                    == before.objects[k]);
                            assert(self@.objects[oi as int].1.vars
                                =~= before.objects[oi as int].1.vars.update(vi as int, (id, *val)));
                            assert(self@ == (HostView { objects: self@.objects, ..before }));
                            self.lemma_var_update(before, handle, oi as int, id, vi as int, *val);
                        }
                        true
                    },
                    None => {
                        proof {
                            assert(self@ =~= (HostView { objects: self@.objects, ..self@ }));
                        }
                        false
                    },
                }
            },
            None => {
                proof {
                    self.lemma_view_find_objects(handle);
                    assert(self@ =~= (HostView { objects: self@.objects, ..self@ }));
                }
                false
            },
        }
    }

    /// Writes a variable by name: a name nobody registered fails
    /// silently.
    pub fn write_var(&mut self, loc: &TaggedValue, name: &String, val: &TaggedValue) -> (ok:
        bool)
        requires
            old(self).wf(),
        ensures
            final(self).wf(),
            final(self)@ == (HostView { objects: final(self)@.objects, ..old(self)@ }),
            ({
                let id = spec_lookup(old(self)@.strings, name@);
                if id == NONE_ID as u32 {
                    !ok && final(self)@ == old(self)@
                } else {
                    &&& ok == (is_ref_tag(loc.tag) && spec_var_of(
                        old(self)@.objects,
                        loc.payload,
                        id,
                    ) is Some)
                    &&& (ok ==> spec_var_of(final(self)@.objects, loc.payload, id) == Some(
                        *val,
                    ))
                    &&& (!ok ==> final(self)@ == old(self)@)
                }
            }),
    {
        let id = self.strings.lookup(name);
        if id == NONE_ID {
            proof {
                assert(self@ =~= (HostView { objects: self@.objects, ..self@ }));
            }
            return false;
        }
        self.write_var_by_id(loc, id, val)
    }

    /// Helper: the object table's view has the same keys at the same
    /// places as the table itself, so searches agree.
    proof fn lemma_view_find_objects(&self, handle: u32)
        ensures
            spec_find_key(self@.objects, handle) == spec_find_key(self.objects@, handle),
            spec_find_key(self.objects@, handle) >= 0 ==> {
                let i = spec_find_key(self.objects@, handle);
                self@.objects[i] == (self.objects@[i].0, self.objects@[i].1@)
            },
    {
        let a = self@.objects;
        let b = self.objects@;
        assert(forall|k: int| 0 <= k < b.len() ==> a[k] == (b[k].0, b[k].1@));
        lemma_find_key_same_keys(a, b, handle);
        lemma_find_key_props(b, handle);
    }

    /// Helper: rewriting one variable slot in place changes that slot's
    /// value and nothing else in the view.
    proof fn lemma_var_update(
        &self,
        before: HostView,
        handle: u32,
        oi: int,
        id: u32,
        vi: int,
        val: TaggedValue,
    )
        requires
            0 <= oi < before.objects.len(),
            spec_find_key(before.objects, handle) == oi,
            before.objects[oi].0 == handle,
            0 <= vi < before.objects[oi].1.vars.len(),
            spec_find_key(before.objects[oi].1.vars, id) == vi,
            before.objects[oi].1.vars[vi].0 == id,
            forall|i: int, j: int|
                0 <= i < j < before.objects.len() ==> before.objects[i].0 != before.objects[j].0,
            forall|i: int, j: int|
                0 <= i < j < before.objects[oi].1.vars.len() ==> before.objects[oi].1.vars[i].0
                    != before.objects[oi].1.vars[j].0,
            self@.objects.len() == before.objects.len(),
            forall|k: int| 0 <= k < before.objects.len() && k != oi ==> self@.objects[k]
                == before.objects[k],
            self@.objects[oi].0 == handle,
            self@.objects[oi].1.type_path == before.objects[oi].1.type_path,
            self@.objects[oi].1.vars == before.objects[oi].1.vars.update(vi, (id, val)),
            self@ == (HostView { objects: self@.objects, ..before }),
        ensures
            spec_var_of(self@.objects, handle, id) == Some(val),
            forall|h2: u32, id2: u32|
                h2 != handle || id2 != id ==> spec_var_of(self@.objects, h2, id2) == spec_var_of(
                    before.objects,
                    h2,
                    id2,
                ),
            forall|h2: u32| #[trigger] spec_find_key(self@.objects, h2) == spec_find_key(
                before.objects,
                h2,
            ),
            spec_handles_wf(self@.objects, self.next_handle) == spec_handles_wf(
                before.objects,
                self.next_handle,
            ),
            forall|k: int|
                0 <= k < before.objects.len() ==> (#[trigger] spec_vars_wf(
                    self@.objects[k].1.vars,
                ) <==> spec_vars_wf(before.objects[k].1.vars)),
    {
        let a = self@.objects;
        let b = before.objects;
        assert forall|h2: u32| #[trigger] spec_find_key(a, h2) == spec_find_key(b, h2) by {
            lemma_find_key_same_keys(a, b, h2);
        }
        let newvars = a[oi].1.vars;
        let oldvars = b[oi].1.vars;
        assert forall|id2: u32| #[trigger] spec_find_key(newvars, id2) == spec_find_key(
            oldvars,
            id2,
        ) by {
            lemma_find_key_same_keys(newvars, oldvars, id2);
        }
        assert(spec_var_of(a, handle, id) == Some(val));
        assert forall|h2: u32, id2: u32|
            h2 != handle || id2 != id implies spec_var_of(a, h2, id2) == spec_var_of(
            b,
            h2,
            id2,
        ) by {
            lemma_find_key_props(b, h2);
            if h2 != handle {
                if spec_find_key(b, h2) >= 0 {
                    assert(a[spec_find_key(b, h2)] == b[spec_find_key(b, h2)]);
                }
            } else {
                lemma_find_key_props(oldvars, id2);
                if spec_find_key(oldvars, id2) >= 0 {
                    assert(newvars[spec_find_key(oldvars, id2)] == oldvars[spec_find_key(
                        oldvars,
                        id2,
                    )]);
                }
            }
        }
        assert(spec_handles_wf(a, self.next_handle) == spec_handles_wf(b, self.next_handle))
            by {
            assert(forall|k: int| 0 <= k < a.len() ==> a[k].0 == b[k].0);
        }
        assert forall|k: int|
            0 <= k < b.len() implies (#[trigger] spec_vars_wf(a[k].1.vars) <==> spec_vars_wf(
            b[k].1.vars,
        )) by {
            if k == oi {
                assert(forall|i: int|
                    0 <= i < newvars.len() ==> newvars[i].0 == oldvars[i].0);
            } else {
                assert(a[k] == b[k]);
            }
        }
    }
}

/// The contents of the list a handle names, if it names one.
pub open spec fn spec_list_at(lists: Seq<(u32, Seq<ListSlot>)>, handle: u32) -> Option<
    Seq<ListSlot>,
> {
    let r = spec_find_key(lists, handle);
    if r >= 0 {
        Some(lists[r].1)
    } else {
        None
    }
}

/// The contents of the list a value names: the value must carry the list
/// tag and a known handle.
pub open spec fn spec_list_of_value(h: HostView, v: TaggedValue) -> Option<Seq<ListSlot>> {
    if v.tag == TypeTag::List {
        spec_list_at(h.lists, v.payload)
    } else {
        None
    }
}

/// What reading a list position answers: a number selects by 1-based
/// ordinal, any other value selects by associative key; a non-list value,
/// an out-of-range ordinal, and an unknown key all fail with null.
pub open spec fn spec_read_list_index(h: HostView, loc: TaggedValue, idx: TaggedValue) -> (
    TaggedValue,
    bool,
) {
    match spec_list_of_value(h, loc) {
        None => (spec_null(), false),
        Some(s) => {
            if idx.tag == TypeTag::Number {
                match spec_bits_value(idx.payload) {
                    Some(n) => if 1 <= n <= s.len() {
                        (s[n - 1].element, true)
                    } else {
                        (spec_null(), false)
                    },
                    None => (spec_null(), false),
                }
            } else {
                let r = spec_find_slot(s, idx);
                if r >= 0 {
                    (s[r].assoc, true)
                } else {
                    (spec_null(), false)
                }
            }
        },
    }
}

/// What writing a list position leaves in the list, when the write is
/// accepted: an ordinal write replaces the slot with a plain element, a
/// keyed write rewrites the first slot carrying the key or appends a new
/// pair while the list has room.
pub open spec fn spec_write_list_slots(
    s: Seq<ListSlot>,
    idx: TaggedValue,
    val: TaggedValue,
) -> Option<Seq<ListSlot>> {
    if idx.tag == TypeTag::Number {
        match spec_bits_value(idx.payload) {
            Some(n) => if 1 <= n <= s.len() {
                Some(s.update(n - 1, ListSlot { element: val, assoc: spec_null() }))
            } else {
                None
            },
            None => None,
        }
    } else {
        let r = spec_find_slot(s, idx);
        if r >= 0 {
            Some(s.update(r, ListSlot { element: idx, assoc: val }))
        } else if s.len() < MAX_LIST_LEN as nat {
            Some(s.push(ListSlot { element: idx, assoc: val }))
        } else {
            None
        }
    }
}

impl HostModel {
    /// Creates a fresh empty host list and hands back the value naming
    /// it, born with one reference. Fails only when the handle space is
    /// exhausted.
    pub fn create_list(&mut self) -> (r: (TaggedValue, bool))
        requires
            old(self).wf(),
        ensures
            final(self).wf(),
            r.1 == (old(self)@.next_handle < u32::MAX),
            !r.1 ==> final(self)@ == old(self)@ && r.0 == spec_null(),
            r.1 ==> ({
                let h = old(self)@.next_handle;
                &&& r.0 == (TaggedValue { tag: TypeTag::List, payload: h })
                &&& spec_list_at(final(self)@.lists, h) == Some(Seq::<ListSlot>::empty())
                &&& final(self)@.lists == old(self)@.lists.push((h, Seq::<ListSlot>::empty()))
                &&& spec_count_of(final(self)@.refs, h) == 1
                &&& forall|h2: u32|
                    h2 != h ==> spec_count_of(final(self)@.refs, h2) == spec_count_of(
                        old(self)@.refs,
                        h2,
                    )
                &&& final(self)@ == (HostView {
                    lists: final(self)@.lists,
                    refs: final(self)@.refs,
                    next_handle: (h + 1) as u32,
                    ..old(self)@
                })
            }),
    {
        if self.next_handle == u32::MAX {
            return (TaggedValue::null(), false);
        }
        let ghost before = self@;
        let h = self.next_handle;
        self.lists.push((h, ListObj::new()));
        proof {
            assert(self@.lists =~= before.lists.push((h, Seq::<ListSlot>::empty())));
        }
        self.refs.create(h);
        self.next_handle = h + 1;
        proof {
            lemma_find_key_props(before.refs, h);
            assert(spec_count_of(self@.refs, h) == self.refs.count_of(h));
            assert forall|h2: u32|
                h2 != h implies spec_count_of(self@.refs, h2) == spec_count_of(
                before.refs,
                h2,
            ) by {
                assert(self.refs.count_of(h2) == old(self).refs.count_of(h2));
            }
            assert(forall|k: int| 0 <= k < before.lists.len() ==> before.lists[k].0 != h);
            crate::table::lemma_find_key_absent(before.lists, h);
            lemma_find_key_push(before.lists, h, Seq::<ListSlot>::empty());
            assert forall|h2: u32|
                h2 != h implies spec_list_at(self@.lists, h2) == spec_list_at(
                before.lists,
                h2,
            ) by {
                lemma_find_key_push_other(
                    before.lists,
                    h,
                    Seq::<ListSlot>::empty(),
                    h2,
                );
            }
            assert forall|a: int, b: int|
                0 <= a < b < self@.lists.len() implies self@.lists[a].0 != self@.lists[b].0 by {
                if b < before.lists.len() {
                    assert(self@.lists[a] == before.lists[a]);
                    assert(self@.lists[b] == before.lists[b]);
                } else {
                    assert(self@.lists[a] == before.lists[a]);
                }
            }
            assert(self@ =~= (HostView {
                lists: self@.lists,
                refs: self@.refs,
                next_handle: (h + 1) as u32,
                ..before
            }));
        }
        (TaggedValue { tag: TypeTag::List, payload: h }, true)
    }

    /// Ordinary list read through the boundary: a non-list value fails
    /// with a zero count; a known list obeys probe-then-fetch.
    pub fn read_list(&self, loc: &TaggedValue, buf: &mut Vec<TaggedValue>, capacity: usize) -> (r:
        (usize, bool))
        requires
            self.wf(),
        ensures
            match spec_list_of_value(self@, *loc) {
                None => r == (0usize, false) && final(buf)@ == old(buf)@,
                Some(s) => {
                    &&& r.0 == s.len()
                    &&& r.1 == (s.len() <= capacity)
                    &&& (r.1 ==> final(buf)@ == spec_elements(s))
                    &&& (!r.1 ==> final(buf)@ == old(buf)@)
                },
            },
    {
        if !matches!(loc.tag, TypeTag::List) {
            return (0, false);
        }
        match find_key(&self.lists, loc.payload) {
            Some(li) => {
                proof {
                    self.lemma_view_find_lists(loc.payload);
                }
                self.lists[li].1.read_into(buf, capacity)
            },
            None => {
                proof {
                    self.lemma_view_find_lists(loc.payload);
                }
                (0, false)
            },
        }
    }

    /// Associative list read through the boundary: the flattened
    /// alternating element/value entries under probe-then-fetch; a
    /// non-list value fails with a zero count.
    pub fn read_list_assoc(&self, loc: &TaggedValue, buf: &mut Vec<TaggedValue>, capacity: usize)
        -> (r: (usize, bool))
        requires
            self.wf(),
        ensures
            match spec_list_of_value(self@, *loc) {
                None => r == (0usize, false) && final(buf)@ == old(buf)@,
                Some(s) => {
                    &&& r.0 == 2 * s.len()
                    &&& r.1 == (2 * s.len() <= capacity)
                    &&& (r.1 ==> final(buf)@ == spec_flatten_assoc(s))
                    &&& (!r.1 ==> final(buf)@ == old(buf)@)
                },
            },
    {
        if !matches!(loc.tag, TypeTag::List) {
            return (0, false);
        }
        match find_key(&self.lists, loc.payload) {
            Some(li) => {
                proof {
                    self.lemma_view_find_lists(loc.payload);
                    assert(self@.lists[li as int].1.len() <= MAX_LIST_LEN as nat);
                }
                self.lists[li].1.read_assoc_into(buf, capacity)
            },
            None => {
                proof {
                    self.lemma_view_find_lists(loc.payload);
                }
                (0, false)
            },
        }
    }

    /// Replaces a known list's contents with the given plain elements;
    /// fails on a non-list value and changes nothing.
    pub fn write_list(&mut self, loc: &TaggedValue, vals: &Vec<TaggedValue>) -> (ok: bool)
        requires
            old(self).wf(),
            vals@.len() <= MAX_LIST_LEN,
        ensures
            final(self).wf(),
            ok == spec_list_of_value(old(self)@, *loc) is Some,
            !ok ==> final(self)@ == old(self)@,
            ok ==> ({
                let s2 = spec_list_at(final(self)@.lists, loc.payload)->Some_0;
                &&& spec_list_at(final(self)@.lists, loc.payload) is Some
                &&& spec_elements(s2) == vals@
                &&& s2.len() == vals@.len()
                &&& (forall|i: int| 0 <= i < s2.len() ==> s2[i].assoc == spec_null())
                &&& (forall|h2: u32|
                    h2 != loc.payload ==> spec_list_at(final(self)@.lists, h2) == spec_list_at(
                        old(self)@.lists,
                        h2,
                    ))
                &&& final(self)@ == (HostView { lists: final(self)@.lists, ..old(self)@ })
            }),
    {
        if !matches!(loc.tag, TypeTag::List) {
            proof {
                assert(self@ =~= (HostView { lists: self@.lists, ..self@ }));
            }
            return false;
        }
        let handle = loc.payload;
        match find_key(&self.lists, handle) {
            Some(li) => {
                proof {
                    self.lemma_view_find_lists(handle);
                    lemma_find_key_props(self@.lists, handle);
                }
                let ghost before = self@;
                let mut obj = ListObj::new();
                obj.set_elements(vals);
                self.lists[li].1 = obj;
                proof {
                    self.lemma_list_update(before, handle, li as int);
                }
                true
            },
            None => {
                proof {
                    self.lemma_view_find_lists(handle);
                    assert(self@ =~= (HostView { lists: self@.lists, ..self@ }));
                }
                false
            },
        }
    }

    /// Reads one list position: a number value selects the 1-based
    /// ordinal, any other value selects by key.
    pub fn read_list_index(&self, loc: &TaggedValue, idx: &TaggedValue) -> (r: (TaggedValue, bool))
        requires
            self.wf(),
        ensures
            r == spec_read_list_index(self@, *loc, *idx),
    {
        if !matches!(loc.tag, TypeTag::List) {
            return (TaggedValue::null(), false);
        }
        let li = match find_key(&self.lists, loc.payload) {
            Some(li) => {
                proof {
                    self.lemma_view_find_lists(loc.payload);
                }
                li
            },
            None => {
                proof {
                    self.lemma_view_find_lists(loc.payload);
                }
                return (TaggedValue::null(), false);
            },
        };
        let list = &self.lists[li].1;
        if matches!(idx.tag, TypeTag::Number) {
            match u32_of_number_bits(idx.payload) {
                Some(n) => {
                    if n >= 1 && (n as usize) <= list.len() {
                        match list.get_ordinal(n as usize) {
                            Some(v) => (v, true),
                            None => (TaggedValue::null(), false),
                        }
                    } else {
                        (TaggedValue::null(), false)
                    }
                },
                None => (TaggedValue::null(), false),
            }
        } else {
            match list.get_keyed(idx) {
                Some(v) => (v, true),
                None => (TaggedValue::null(), false),
            }
        }
    }

    /// Writes one list position: a number value replaces the 1-based
    /// ordinal slot with a plain element, any other value associates by
    /// key, appending while the list has room. Everything else in the
    /// host stays put.
    pub fn write_list_index(&mut self, loc: &TaggedValue, idx: &TaggedValue, val: &TaggedValue)
        -> (ok: bool)
        requires
            old(self).wf(),
        ensures
            final(self).wf(),
            match spec_list_of_value(old(self)@, *loc) {
                None => !ok && final(self)@ == old(self)@,
                Some(s) => match spec_write_list_slots(s, *idx, *val) {
                    None => !ok && final(self)@ == old(self)@,
                    Some(s2) => {
                        &&& ok
                        &&& spec_list_at(final(self)@.lists, loc.payload) == Some(s2)
                        &&& (forall|h2: u32|
                            h2 != loc.payload ==> spec_list_at(final(self)@.lists, h2)
                                == spec_list_at(old(self)@.lists, h2))
                        &&& final(self)@ == (HostView {
                            lists: final(self)@.lists,
                            ..old(self)@
                        })
                    },
                },
            },
    {
        if !matches!(loc.tag, TypeTag::List) {
            proof {
                assert(self@ =~= (HostView { lists: self@.lists, ..self@ }));
            }
            return false;
        }
        let handle = loc.payload;
        let li = match find_key(&self.lists, handle) {
            Some(li) => {
                proof {
                    self.lemma_view_find_lists(handle);
                    lemma_find_key_props(self@.lists, handle);
                }
                li
            },
            None => {
                proof {
                    self.lemma_view_find_lists(handle);
                    assert(self@ =~= (HostView { lists: self@.lists, ..self@ }));
                }
                return false;
            },
        };
        let ghost before = self@;
        if matches!(idx.tag, TypeTag::Number) {
            match u32_of_number_bits(idx.payload) {
                Some(n) => {
                    if n >= 1 && (n as usize) <= self.lists[li].1.slots.len() {
                        self.lists[li].1.slots[(n - 1) as usize] = ListSlot {
                            element: *val,
                            assoc: TaggedValue::null(),
                        };
                        proof {
                            assert(self@.lists[li as int].1 =~= before.lists[li as int].1.update(
                                n as int - 1,
                                ListSlot { element: *val, assoc: spec_null() },
                            ));
                            self.lemma_list_update(before, handle, li as int);
                        }
                        true
                    } else {
                        proof {
                            assert(self@ =~= (HostView { lists: self@.lists, ..self@ }));
                        }
                        false
                    }
                },
                None => {
                    proof {
                        assert(self@ =~= (HostView { lists: self@.lists, ..self@ }));
                    }
                    false
                },
            }
        } else {
            // Keyed write: rewrite the first slot carrying the key, or
            // append while there is room.
            let ghost slots0 = self@.lists[li as int].1;
            let n = self.lists[li].1.slots.len();
            let mut k: usize = 0;
            while k < n
                invariant
                    *self == *old(self),
                    self.wf(),
                    li < self.lists@.len(),
                    before == self@,
                    handle == loc.payload,
                    loc.tag == TypeTag::List,
                    idx.tag != TypeTag::Number,
                    spec_find_key(before.lists, handle) == li as int,
                    before.lists[li as int].0 == handle,
                    slots0 == self@.lists[li as int].1,
                    slots0 == self.lists@[li as int].1.slots@,
                    n == self.lists@[li as int].1.slots@.len(),
                    k <= n,
                    forall|j: int|
                        0 <= j < k ==> self.lists@[li as int].1.slots@[j].element != *idx,
                decreases n - k,
            {
                if self.lists[li].1.slots[k].element == *idx {
                    proof {
                        crate::lists::lemma_find_slot_at(slots0, *idx, k as int);
                    }
                    self.lists[li].1.slots[k] = ListSlot { element: *idx, assoc: *val };
                    proof {
                        assert(self@.lists[li as int].1 =~= before.lists[li as int].1.update(
                            k as int,
                            ListSlot { element: *idx, assoc: *val },
                        ));
                        self.lemma_list_update(before, handle, li as int);
                    }
                    return true;
                }
                k = k + 1;
            }
            proof {
                crate::lists::lemma_find_slot_absent(slots0, *idx);
            }
            if n >= MAX_LIST_LEN {
                proof {
                    assert(self@ =~= (HostView { lists: self@.lists, ..self@ }));
                }
                return false;
            }
            self.lists[li].1.slots.push(ListSlot { element: *idx, assoc: *val });
            proof {
                assert(self@.lists[li as int].1 =~= before.lists[li as int].1.push(
                    ListSlot { element: *idx, assoc: *val },
                ));
                self.lemma_list_update(before, handle, li as int);
            }
            true
        }
    }

    /// Reads the value a pointer-tagged value points at.
    pub fn read_pointer(&self, ptr: &TaggedValue) -> (r: (TaggedValue, bool))
        requires
            self.wf(),
        ensures
            ({
                let pi = spec_find_key(self@.pointers, ptr.payload);
                if ptr.tag == TypeTag::Pointer && pi >= 0 {
                    r == (self@.pointers[pi].1, true)
                } else {
                    r == (spec_null(), false)
                }
            }),
    {
        if !matches!(ptr.tag, TypeTag::Pointer) {
            return (TaggedValue::null(), false);
        }
        match find_key(&self.pointers, ptr.payload) {
            Some(pi) => (self.pointers[pi].1, true),
            None => (TaggedValue::null(), false),
        }
    }

    /// Writes through a pointer-tagged value into the slot it points at.
    pub fn write_pointer(&mut self, ptr: &TaggedValue, val: &TaggedValue) -> (ok: bool)
        requires
            old(self).wf(),
        ensures
            final(self).wf(),
            ok == (ptr.tag == TypeTag::Pointer && spec_find_key(old(self)@.pointers, ptr.payload)
                >= 0),
            !ok ==> final(self)@ == old(self)@,
            ok ==> ({
                let pi = spec_find_key(old(self)@.pointers, ptr.payload);
                &&& final(self)@.pointers == old(self)@.pointers.update(pi, (ptr.payload, *val))
                &&& final(self)@ == (HostView { pointers: final(self)@.pointers, ..old(self)@ })
            }),
    {
        if !matches!(ptr.tag, TypeTag::Pointer) {
            proof {
                assert(self@ =~= (HostView { pointers: self@.pointers, ..self@ }));
            }
            return false;
        }
        match find_key(&self.pointers, ptr.payload) {
            Some(pi) => {
                proof {
                    lemma_find_key_props(self@.pointers, ptr.payload);
                }
                self.pointers[pi] = (ptr.payload, *val);
                proof {
                    assert(self@.pointers =~= old(self)@.pointers.update(
                        pi as int,
                        (ptr.payload, *val),
                    ));
                }
                true
            },
            None => {
                proof {
                    assert(self@ =~= (HostView { pointers: self@.pointers, ..self@ }));
                }
                false
            },
        }
    }

    /// Host-side setup: allots a pointer slot holding `initial` and hands
    /// back the pointer value naming it.
    pub fn create_pointer(&mut self, initial: &TaggedValue) -> (r: (TaggedValue, bool))
        requires
            old(self).wf(),
        ensures
            final(self).wf(),
            r.1 == (old(self)@.next_handle < u32::MAX),
            !r.1 ==> final(self)@ == old(self)@ && r.0 == spec_null(),
            r.1 ==> ({
                let h = old(self)@.next_handle;
                &&& r.0 == (TaggedValue { tag: TypeTag::Pointer, payload: h })
                &&& final(self)@.pointers == old(self)@.pointers.push((h, *initial))
                &&& final(self)@ == (HostView {
                    pointers: final(self)@.pointers,
                    next_handle: (h + 1) as u32,
                    ..old(self)@
                })
            }),
    {
        if self.next_handle == u32::MAX {
            return (TaggedValue::null(), false);
        }
        let h = self.next_handle;
        self.pointers.push((h, *initial));
        self.next_handle = h + 1;
        proof {
            assert forall|a: int, b: int|
                0 <= a < b < self@.pointers.len() implies self@.pointers[a].0
                != self@.pointers[b].0 by {
                if b < old(self)@.pointers.len() {
                    assert(self@.pointers[a] == old(self)@.pointers[a]);
                    assert(self@.pointers[b] == old(self)@.pointers[b]);
                } else {
                    assert(self@.pointers[a] == old(self)@.pointers[a]);
                }
            }
        }
        (TaggedValue { tag: TypeTag::Pointer, payload: h }, true)
    }

    /// Helper: the list table's view has the same keys at the same places
    /// as the table itself, so searches agree.
    proof fn lemma_view_find_lists(&self, handle: u32)
        ensures
            spec_find_key(self@.lists, handle) == spec_find_key(self.lists@, handle),
            spec_find_key(self.lists@, handle) >= 0 ==> {
                let i = spec_find_key(self.lists@, handle);
                self@.lists[i] == (self.lists@[i].0, self.lists@[i].1@)
            },
    {
        let a = self@.lists;
        let b = self.lists@;
        assert(forall|k: int| 0 <= k < b.len() ==> a[k] == (b[k].0, b[k].1@));
        lemma_find_key_same_keys(a, b, handle);
        lemma_find_key_props(b, handle);
    }

    /// Helper: rewriting one list's contents in place, within the length
    /// bound, changes that list and nothing else in the view.
    proof fn lemma_list_update(&self, before: HostView, handle: u32, li: int)
        requires
            0 <= li < before.lists.len(),
            spec_find_key(before.lists, handle) == li,
            before.lists[li].0 == handle,
            self@.lists.len() == before.lists.len(),
            forall|k: int| 0 <= k < before.lists.len() && k != li ==> self@.lists[k]
                == before.lists[k],
            self@.lists[li].0 == handle,
            self@.lists[li].1.len() <= MAX_LIST_LEN as nat,
            forall|i: int, j: int|
                0 <= i < j < before.lists.len() ==> before.lists[i].0 != before.lists[j].0,
            forall|i: int|
                0 <= i < before.lists.len() ==> #[trigger] before.lists[i].1.len()
                    <= MAX_LIST_LEN as nat,
            self@ == (HostView { lists: self@.lists, ..before }),
        ensures
            spec_list_at(self@.lists, handle) == Some(self@.lists[li].1),
            forall|h2: u32|
                h2 != handle ==> spec_list_at(self@.lists, h2) == spec_list_at(
                    before.lists,
                    h2,
                ),
            forall|h2: u32| #[trigger] spec_find_key(self@.lists, h2) == spec_find_key(
                before.lists,
                h2,
            ),
            spec_handles_wf(self@.lists, self.next_handle) == spec_handles_wf(
                before.lists,
                self.next_handle,
            ),
            forall|i: int|
                0 <= i < self@.lists.len() ==> #[trigger] self@.lists[i].1.len()
                    <= MAX_LIST_LEN as nat,
    {
        let a = self@.lists;
        let b = before.lists;
        lemma_find_key_update_entry(a, b, li, handle);
        assert forall|h2: u32|
            h2 != handle implies spec_list_at(a, h2) == spec_list_at(b, h2) by {
            lemma_find_key_props(b, h2);
        }
        assert(spec_handles_wf(a, self.next_handle) == spec_handles_wf(b, self.next_handle))
            by {
            assert(forall|k: int| 0 <= k < a.len() ==> a[k].0 == b[k].0);
        }
        assert forall|i: int|
            0 <= i < a.len() implies #[trigger] a[i].1.len() <= MAX_LIST_LEN as nat by {
            if i != li {
                assert(a[i] == b[i]);
                assert(b[i].1.len() <= MAX_LIST_LEN as nat);
            }
        }
    }
}

impl HostModel {
    /// Host-side setup: gives an existing object the variable `id`,
    /// creating the slot or overwriting it. The boundary's own variable
    /// write touches existing slots only; slots are born here, under the
    /// host's control.
    pub fn define_var(&mut self, loc: &TaggedValue, id: u32, val: &TaggedValue) -> (ok: bool)
        requires
            old(self).wf(),
        ensures
            final(self).wf(),
            ok == (is_ref_tag(loc.tag) && spec_find_key(old(self)@.objects, loc.payload) >= 0),
            !ok ==> final(self)@ == old(self)@,
            ok ==> ({
                &&& spec_var_of(final(self)@.objects, loc.payload, id) == Some(*val)
                &&& (forall|h2: u32, id2: u32|
                    h2 != loc.payload || id2 != id ==> spec_var_of(final(self)@.objects, h2, id2)
                        == spec_var_of(old(self)@.objects, h2, id2))
                &&& (forall|h2: u32|
                    #[trigger] spec_find_key(final(self)@.objects, h2) == spec_find_key(
                        old(self)@.objects,
                        h2,
                    ))
                &&& final(self)@ == (HostView { objects: final(self)@.objects, ..old(self)@ })
            }),
    {
        if matches!(loc.tag, TypeTag::Null | TypeTag::Number) {
            proof {
                assert(self@ =~= (HostView { objects: self@.objects, ..self@ }));
                self.lemma_view_find_objects(loc.payload);
            }
            return false;
        }
        let handle = loc.payload;
        match find_key(&self.objects, handle) {
            Some(oi) => {
                proof {
                    self.lemma_view_find_objects(handle);
                    lemma_find_key_props(self@.objects, handle);
                }
                match find_key(&self.objects[oi].1.vars, id) {
                    Some(vi) => {
                        let ghost before = self@;
                        proof {
                            lemma_find_key_props(before.objects[oi as int].1.vars, id);
                            assert(spec_vars_wf(before.objects[oi as int].1.vars));
                            assert(before.objects[oi as int]
                                == (self.objects@[oi as int].0, self.objects@[oi as int].1@));
                        }
                        self.objects[oi].1.vars[vi] = (id, *val);
                        proof {
                            assert(self@.objects[oi as int]
                                == (self.objects@[oi as int].0, self.objects@[oi as int].1@));
                            assert(forall|k: int|
                                0 <= k < before.objects.len() && k != oi ==> self@.objects[k]
                                    == before.objects[k]);
                            assert(self@.objects[oi as int].1.vars
                                =~= before.objects[oi as int].1.vars.update(vi as int, (id, *val)));
                            assert(self@ == (HostView { objects: self@.objects, ..before }));
                            self.lemma_var_update(before, handle, oi as int, id, vi as int, *val);
                        }
                        true
                    },
                    None => {
                        let ghost before = self@;
                        proof {
                            lemma_find_key_props(before.objects[oi as int].1.vars, id);
                            assert(spec_vars_wf(before.objects[oi as int].1.vars));
                            assert(before.objects[oi as int]
                                == (self.objects@[oi as int].0, self.objects@[oi as int].1@));
                        }
                        self.objects[oi].1.vars.push((id, *val));
                        proof {
                            assert(self@.objects[oi as int]
                                == (self.objects@[oi as int].0, self.objects@[oi as int].1@));
                            assert(forall|k: int|
                                0 <= k < before.objects.len() && k != oi ==> self@.objects[k]
                                    == before.objects[k]);
                            assert(self@.objects[oi as int].1.vars
                                =~= before.objects[oi as int].1.vars.push((id, *val)));
                            assert(self@ == (HostView { objects: self@.objects, ..before }));
                            self.lemma_var_push(before, handle, oi as int, id, *val);
                        }
                        true
                    },
                }
            },
            None => {
                proof {
                    self.lemma_view_find_objects(handle);
                    assert(self@ =~= (HostView { objects: self@.objects, ..self@ }));
                }
                false
            },
        }
    }

    /// Helper: appending a fresh variable slot to one object adds that
    /// binding and changes nothing else in the view.
    proof fn lemma_var_push(
        &self,
        before: HostView,
        handle: u32,
        oi: int,
        id: u32,
        val: TaggedValue,
    )
        requires
            0 <= oi < before.objects.len(),
            spec_find_key(before.objects, handle) == oi,
            before.objects[oi].0 == handle,
            spec_find_key(before.objects[oi].1.vars, id) == -1,
            forall|i: int, j: int|
                0 <= i < j < before.objects.len() ==> before.objects[i].0 != before.objects[j].0,
            forall|i: int, j: int|
                0 <= i < j < before.objects[oi].1.vars.len() ==> before.objects[oi].1.vars[i].0
                    != before.objects[oi].1.vars[j].0,
            self@.objects.len() == before.objects.len(),
            forall|k: int| 0 <= k < before.objects.len() && k != oi ==> self@.objects[k]
                == before.objects[k],
            self@.objects[oi].0 == handle,
            self@.objects[oi].1.type_path == before.objects[oi].1.type_path,
            self@.objects[oi].1.vars == before.objects[oi].1.vars.push((id, val)),
            self@ == (HostView { objects: self@.objects, ..before }),
        ensures
            spec_var_of(self@.objects, handle, id) == Some(val),
            forall|h2: u32, id2: u32|
                h2 != handle || id2 != id ==> spec_var_of(self@.objects, h2, id2) == spec_var_of(
                    before.objects,
                    h2,
                    id2,
                ),
            forall|h2: u32| #[trigger] spec_find_key(self@.objects, h2) == spec_find_key(
                before.objects,
                h2,
            ),
            spec_handles_wf(self@.objects, self.next_handle) == spec_handles_wf(
                before.objects,
                self.next_handle,
            ),
            forall|k: int|
                0 <= k < before.objects.len() ==> (#[trigger] spec_vars_wf(
                    self@.objects[k].1.vars,
                ) <==> spec_vars_wf(before.objects[k].1.vars)),
    {
        let a = self@.objects;
        let b = before.objects;
        assert forall|h2: u32| #[trigger] spec_find_key(a, h2) == spec_find_key(b, h2) by {
            lemma_find_key_same_keys(a, b, h2);
        }
        let newvars = a[oi].1.vars;
        let oldvars = b[oi].1.vars;
        lemma_find_key_props(oldvars, id);
        lemma_find_key_push(oldvars, id, val);
        assert(spec_var_of(a, handle, id) == Some(val));
        assert forall|h2: u32, id2: u32|
            h2 != handle || id2 != id implies spec_var_of(a, h2, id2) == spec_var_of(
            b,
            h2,
            id2,
        ) by {
            lemma_find_key_props(b, h2);
            if h2 != handle {
                if spec_find_key(b, h2) >= 0 {
                    assert(a[spec_find_key(b, h2)] == b[spec_find_key(b, h2)]);
                }
            } else {
                lemma_find_key_push_other(oldvars, id, val, id2);
            }
        }
        assert(spec_handles_wf(a, self.next_handle) == spec_handles_wf(b, self.next_handle))
            by {
            assert(forall|k: int| 0 <= k < a.len() ==> a[k].0 == b[k].0);
        }
        assert forall|k: int|
            0 <= k < b.len() implies (#[trigger] spec_vars_wf(a[k].1.vars) <==> spec_vars_wf(
            b[k].1.vars,
        )) by {
            if k == oi {
                assert(spec_vars_wf(oldvars));
                assert forall|i: int, j: int|
                    0 <= i < j < newvars.len() implies newvars[i].0 != newvars[j].0 by {
                    if j < oldvars.len() {
                    } else {
                        assert(newvars[j].0 == id);
                        assert(oldvars[i].0 != id);
                    }
                }
            } else {
                assert(a[k] == b[k]);
            }
        }
    }
}

/// List position round trip: after an accepted write at a position — a
/// 1-based ordinal or an associative key — reading the same position
/// yields exactly the written value.
pub proof fn lemma_write_read_list_index(
    h0: HostView,
    h1: HostView,
    loc: TaggedValue,
    idx: TaggedValue,
    val: TaggedValue,
)
    requires
        spec_list_of_value(h0, loc) is Some,
        spec_write_list_slots(spec_list_of_value(h0, loc)->Some_0, idx, val) is Some,
        spec_list_of_value(h1, loc) == Some(
            spec_write_list_slots(spec_list_of_value(h0, loc)->Some_0, idx, val)->Some_0,
        ),
    ensures
        spec_read_list_index(h1, loc, idx) == (val, true),
{
    let s = spec_list_of_value(h0, loc)->Some_0;
    let s2 = spec_write_list_slots(s, idx, val)->Some_0;
    if idx.tag == TypeTag::Number {
    } else {
        crate::lists::lemma_keyed_write_read(s, idx, val);
    }
}

/// Ordinal writes are independent: an accepted write at one ordinal
/// leaves every other ordinal reading what it read before.
pub proof fn lemma_list_write_preserves_other_ordinals(
    h0: HostView,
    h1: HostView,
    loc: TaggedValue,
    idx: TaggedValue,
    idx2: TaggedValue,
    val: TaggedValue,
)
    requires
        spec_list_of_value(h0, loc) is Some,
        idx.tag == TypeTag::Number,
        idx2.tag == TypeTag::Number,
        spec_bits_value(idx.payload) != spec_bits_value(idx2.payload),
        spec_write_list_slots(spec_list_of_value(h0, loc)->Some_0, idx, val) is Some,
        spec_list_of_value(h1, loc) == Some(
            spec_write_list_slots(spec_list_of_value(h0, loc)->Some_0, idx, val)->Some_0,
        ),
    ensures
        spec_read_list_index(h1, loc, idx2) == spec_read_list_index(h0, loc, idx2),
{
}

impl HostModel {
    /// The whole protocol in one step: probe, then fetch with the
    /// reported size. Proves what callers of probe-then-fetch rely on —
    /// retrying with the returned count always succeeds.
    pub fn read_list_full(&self, loc: &TaggedValue) -> (r: (Vec<TaggedValue>, bool))
        requires
            self.wf(),
        ensures
            match spec_list_of_value(self@, *loc) {
                None => !r.1 && r.0@.len() == 0,
                Some(s) => r.1 && r.0@ == spec_elements(s),
            },
    {
        let mut buf: Vec<TaggedValue> = Vec::new();
        let (needed, ok) = self.read_list(loc, &mut buf, 0);
        if ok {
            return (buf, true);
        }
        if needed == 0 {
            // A zero requirement on failure means the value names no
            // list: an empty list would have succeeded at capacity zero.
            return (buf, false);
        }
        let (_, ok2) = self.read_list(loc, &mut buf, needed);
        (buf, ok2)
    }

    /// The associative protocol in one step: probe, then fetch the
    /// flattened entries with the reported size.
    pub fn read_list_assoc_full(&self, loc: &TaggedValue) -> (r: (Vec<TaggedValue>, bool))
        requires
            self.wf(),
        ensures
            match spec_list_of_value(self@, *loc) {
                None => !r.1 && r.0@.len() == 0,
                Some(s) => r.1 && r.0@ == spec_flatten_assoc(s),
            },
    {
        let mut buf: Vec<TaggedValue> = Vec::new();
        let (needed, ok) = self.read_list_assoc(loc, &mut buf, 0);
        if ok {
            proof {
                if spec_list_of_value(self@, *loc) is Some {
                    crate::lists::lemma_flatten_assoc_index(
                        spec_list_of_value(self@, *loc)->Some_0,
                    );
                }
            }
            return (buf, true);
        }
        if needed == 0 {
            return (buf, false);
        }
        let (_, ok2) = self.read_list_assoc(loc, &mut buf, needed);
        (buf, ok2)
    }
}

} // verus!
