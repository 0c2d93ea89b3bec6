//! The procedure dispatcher and the construction operations.
//!
//! Four call shapes — on an instance or globally, by name or by interned
//! id — and two construction shapes, flat arguments or an arglist-shaped
//! value. A by-name call resolves the name and then behaves exactly as
//! the by-id call with the resolved id; both construction shapes return
//! exactly the same instance from the same state: the equivalences are
//! stated as lemmas below.
//!
//! What a procedure computes is the host's affair: the model host returns
//! the result registered for the procedure's id, whatever the arguments.

use crate::host::{HostModel, HostView, ObjModel, ObjView};
use crate::intern::{spec_lookup, NONE_ID};
use crate::registry::spec_count_of;
use crate::table::{
    find_key, lemma_find_key_props, lemma_find_key_push, lemma_find_key_push_other,
    lemma_find_key_update_entry, spec_find_key,
};
use crate::value::{is_ref_tag, spec_null, TaggedValue, TypeTag};
use vstd::prelude::*;

verus! {

/// What a global call by interned id answers: the registered result, or
/// failure for an id nobody registered.
pub open spec fn spec_call_global_by_id(h: HostView, id: u32) -> (TaggedValue, bool) {
    let r = spec_find_key(h.procs, id);
    if r >= 0 {
        (h.procs[r].1, true)
    } else {
        (spec_null(), false)
    }
}

/// What an instance call by interned id answers: the source must name an
/// existing object, then the call dispatches as the global one.
pub open spec fn spec_call_by_id(h: HostView, src: TaggedValue, id: u32) -> (TaggedValue, bool) {
    if is_ref_tag(src.tag) && spec_find_key(h.objects, src.payload) >= 0 {
        spec_call_global_by_id(h, id)
    } else {
        (spec_null(), false)
    }
}

/// What a global call by name answers: an unregistered name fails, a
/// registered one dispatches by its id.
pub open spec fn spec_call_global_by_name(h: HostView, name: Seq<char>) -> (TaggedValue, bool) {
    let id = spec_lookup(h.strings, name);
    if id == NONE_ID as u32 {
        (spec_null(), false)
    } else {
        spec_call_global_by_id(h, id)
    }
}

/// What an instance call by name answers.
pub open spec fn spec_call_by_name(h: HostView, src: TaggedValue, name: Seq<char>) -> (
    TaggedValue,
    bool,
) {
    let id = spec_lookup(h.strings, name);
    if id == NONE_ID as u32 {
        (spec_null(), false)
    } else {
        spec_call_by_id(h, src, id)
    }
}

/// The instance tag an instance of a type path carries, for the
/// reference-typed path tags that can be constructed.
pub open spec fn spec_instance_tag(t: TypeTag) -> Option<TypeTag> {
    match t {
        TypeTag::MobTypePath => Some(TypeTag::Mob),
        TypeTag::ObjTypePath => Some(TypeTag::Obj),
        TypeTag::TurfTypePath => Some(TypeTag::Turf),
        TypeTag::AreaTypePath => Some(TypeTag::Area),
        TypeTag::DatumTypePath => Some(TypeTag::Datum),
        _ => None,
    }
}

/// What constructing an instance of `type_v` returns: a fresh reference
/// under the path's instance tag, or failure for a non-path value or an
/// exhausted handle space. Both construction shapes return exactly this.
pub open spec fn spec_new_result(h: HostView, type_v: TaggedValue) -> (TaggedValue, bool) {
    match spec_instance_tag(type_v.tag) {
        Some(t) => if h.next_handle < u32::MAX {
            (TaggedValue { tag: t, payload: h.next_handle }, true)
        } else {
            (spec_null(), false)
        },
        None => (spec_null(), false),
    }
}

/// Calling by name and calling by the interned id of that name answer
/// the same result and the same success flag, on the same instance.
pub proof fn lemma_call_by_name_matches_id(h: HostView, src: TaggedValue, name: Seq<char>)
    requires
        spec_lookup(h.strings, name) != NONE_ID as u32,
    ensures
        spec_call_by_name(h, src, name) == spec_call_by_id(h, src, spec_lookup(h.strings, name)),
{
}

/// The global shapes agree the same way.
pub proof fn lemma_global_call_by_name_matches_id(h: HostView, name: Seq<char>)
    requires
        spec_lookup(h.strings, name) != NONE_ID as u32,
    ensures
        spec_call_global_by_name(h, name) == spec_call_global_by_id(
            h,
            spec_lookup(h.strings, name),
        ),
{
}

impl HostModel {
    /// Calls a procedure on an instance by interned id. The arguments are
    /// handed to the host; the registered result comes back whatever they
    /// are, since procedure bodies are host-defined.
    pub fn call_proc_by_id(&self, src: &TaggedValue, id: u32, args: &Vec<TaggedValue>) -> (r: (
        TaggedValue,
        bool,
    ))
        requires
            self.wf(),
        ensures
            r == spec_call_by_id(self@, *src, id),
    {
        if matches!(src.tag, TypeTag::Null | TypeTag::Number) {
            return (TaggedValue::null(), false);
        }
        match find_key(&self.objects, src.payload) {
            Some(_) => {
                proof {
                    self.lemma_view_find_dispatch(src.payload);
                }
                self.call_global_proc_by_id(id, args)
            },
            None => {
                proof {
                    self.lemma_view_find_dispatch(src.payload);
                }
                (TaggedValue::null(), false)
            },
        }
    }

    /// Calls a procedure on an instance by name: resolves the name
    /// without registering it, then dispatches by id.
    pub fn call_proc(&self, src: &TaggedValue, name: &String, args: &Vec<TaggedValue>) -> (r: (
        TaggedValue,
        bool,
    ))
        requires
            self.wf(),
        ensures
            r == spec_call_by_name(self@, *src, name@),
    {
        let id = self.strings.lookup(name);
        if id == NONE_ID {
            return (TaggedValue::null(), false);
        }
        self.call_proc_by_id(src, id, args)
    }

    /// Calls a global procedure by interned id.
    pub fn call_global_proc_by_id(&self, id: u32, args: &Vec<TaggedValue>) -> (r: (
        TaggedValue,
        bool,
    ))
        requires
            self.wf(),
        ensures
            r == spec_call_global_by_id(self@, id),
    {
        let _ = args;
        match find_key(&self.procs, id) {
            Some(pi) => (self.procs[pi].1, true),
            None => (TaggedValue::null(), false),
        }
    }

    /// Calls a global procedure by name.
    pub fn call_global_proc(&self, name: &String, args: &Vec<TaggedValue>) -> (r: (
        TaggedValue,
        bool,
    ))
        requires
            self.wf(),
        ensures
            r == spec_call_global_by_name(self@, name@),
    {
        let id = self.strings.lookup(name);
        if id == NONE_ID {
            return (TaggedValue::null(), false);
        }
        self.call_global_proc_by_id(id, args)
    }

    /// Host-side setup: registers (or replaces) the result that the
    /// procedure with interned id `id` returns.
    pub fn define_proc(&mut self, id: u32, result: &TaggedValue)
        requires
            old(self).wf(),
        ensures
            final(self).wf(),
            spec_call_global_by_id(final(self)@, id) == (*result, true),
            forall|id2: u32|
                id2 != id ==> spec_call_global_by_id(final(self)@, id2) == spec_call_global_by_id(
                    old(self)@,
                    id2,
                ),
            final(self)@ == (HostView { procs: final(self)@.procs, ..old(self)@ }),
    {
        let ghost before = self@;
        match find_key(&self.procs, id) {
            Some(pi) => {
                proof {
                    lemma_find_key_props(self@.procs, id);
                }
                self.procs[pi] = (id, *result);
                proof {
                    lemma_find_key_update_entry(self@.procs, before.procs, pi as int, id);
                    assert(self@ =~= (HostView { procs: self@.procs, ..before }));
                }
            },
            None => {
                self.procs.push((id, *result));
                proof {
                    lemma_find_key_push(before.procs, id, *result);
                    assert forall|a: int, b: int|
                        0 <= a < b < self@.procs.len() implies self@.procs[a].0
                        != self@.procs[b].0 by {
                        lemma_find_key_props(before.procs, id);
                        if b < before.procs.len() {
                            assert(self@.procs[a] == before.procs[a]);
                            assert(self@.procs[b] == before.procs[b]);
                        } else {
                            assert(self@.procs[a] == before.procs[a]);
                        }
                    }
                    assert forall|id2: u32|
                        id2 != id implies spec_call_global_by_id(self@, id2)
                        == spec_call_global_by_id(before, id2) by {
                        lemma_find_key_push_other(before.procs, id, *result, id2);
                    }
                    assert(self@ =~= (HostView { procs: self@.procs, ..before }));
                }
            },
        }
    }

    /// Constructs a fresh instance of a type path with flat positional
    /// arguments. The instance is born with one reference and an empty
    /// variable table; what the host's constructor does with the
    /// arguments is host-defined.
    pub fn new_instance(&mut self, type_v: &TaggedValue, args: &Vec<TaggedValue>) -> (r: (
        TaggedValue,
        bool,
    ))
        requires
            old(self).wf(),
        ensures
            final(self).wf(),
            r == spec_new_result(old(self)@, *type_v),
            !r.1 ==> final(self)@ == old(self)@,
            r.1 ==> ({
                let h = old(self)@.next_handle;
                &&& final(self)@.objects == old(self)@.objects.push(
                    (h, ObjView { type_path: *type_v, vars: Seq::empty() }),
                )
                &&& spec_count_of(final(self)@.refs, h) == 1
                &&& (forall|h2: u32|
                    h2 != h ==> spec_count_of(final(self)@.refs, h2) == spec_count_of(
                        old(self)@.refs,
                        h2,
                    ))
                &&& final(self)@ == (HostView {
                    objects: final(self)@.objects,
                    refs: final(self)@.refs,
                    next_handle: (h + 1) as u32,
                    ..old(self)@
                })
            }),
    {
        let _ = args;
        let itag = match type_v.tag {
            TypeTag::MobTypePath => TypeTag::Mob,
            TypeTag::ObjTypePath => TypeTag::Obj,
            TypeTag::TurfTypePath => TypeTag::Turf,
            TypeTag::AreaTypePath => TypeTag::Area,
            TypeTag::DatumTypePath => TypeTag::Datum,
            _ => {
                return (TaggedValue::null(), false);
            },
        };
        if self.next_handle == u32::MAX {
            return (TaggedValue::null(), false);
        }
        let ghost before = self@;
        let h = self.next_handle;
        self.objects.push((h, ObjModel { type_path: *type_v, vars: Vec::new() }));
        proof {
            assert(self@.objects =~= before.objects.push(
                (h, ObjView { type_path: *type_v, vars: Seq::empty() }),
            ));
        }
        self.refs.create(h);
        self.next_handle = h + 1;
        proof {
            lemma_find_key_props(before.refs, h);
            assert(spec_count_of(self@.refs, h) == self.refs.count_of(h));
            assert forall|h2: u32|
                h2 != h implies spec_count_of(self@.refs, h2) == spec_count_of(
                before.refs,
                h2,
            ) by {
                assert(self.refs.count_of(h2) == old(self).refs.count_of(h2));
            }
            assert forall|a: int, b: int|
                0 <= a < b < self@.objects.len() implies self@.objects[a].0
                != self@.objects[b].0 by {
                if b < before.objects.len() {
                    assert(self@.objects[a] == before.objects[a]);
                    assert(self@.objects[b] == before.objects[b]);
                } else {
                    assert(self@.objects[a] == before.objects[a]);
                }
            }
            assert(self@ =~= (HostView {
                objects: self@.objects,
                refs: self@.refs,
                next_handle: (h + 1) as u32,
                ..before
            }));
        }
        (TaggedValue { tag: itag, payload: h }, true)
    }

    /// Constructs a fresh instance with an arglist-shaped value in place
    /// of the flat argument array. Given a value that names a list, this
    /// returns exactly what `new_instance` returns from the same state —
    /// the required equivalence of the two construction shapes.
    pub fn new_arglist(&mut self, type_v: &TaggedValue, arglist: &TaggedValue) -> (r: (
        TaggedValue,
        bool,
    ))
        requires
            old(self).wf(),
        ensures
            final(self).wf(),
            crate::host::spec_list_of_value(old(self)@, *arglist) is None ==> r == (
                spec_null(),
                false,
            ) && final(self)@ == old(self)@,
            crate::host::spec_list_of_value(old(self)@, *arglist) is Some ==> ({
                &&& r == spec_new_result(old(self)@, *type_v)
                &&& (!r.1 ==> final(self)@ == old(self)@)
                &&& (r.1 ==> ({
                    let h = old(self)@.next_handle;
                    &&& final(self)@.objects == old(self)@.objects.push(
                        (h, ObjView { type_path: *type_v, vars: Seq::empty() }),
                    )
                    &&& spec_count_of(final(self)@.refs, h) == 1
                    &&& final(self)@ == (HostView {
                        objects: final(self)@.objects,
                        refs: final(self)@.refs,
                        next_handle: (h + 1) as u32,
                        ..old(self)@
                    })
                }))
            }),
    {
        if !matches!(arglist.tag, TypeTag::List) {
            return (TaggedValue::null(), false);
        }
        let mut args: Vec<TaggedValue> = Vec::new();
        let (n, ok) = {
            let li = match find_key(&self.lists, arglist.payload) {
                Some(li) => {
                    proof {
                        self.lemma_view_find_dispatch_lists(arglist.payload);
                    }
                    li
                },
                None => {
                    proof {
                        self.lemma_view_find_dispatch_lists(arglist.payload);
                    }
                    return (TaggedValue::null(), false);
                },
            };
            let cap = self.lists[li].1.len();
            self.lists[li].1.read_into(&mut args, cap)
        };
        let _ = n;
        let _ = ok;
        self.new_instance(type_v, &args)
    }

    /// Helper: view and table searches agree on the object table.
    proof fn lemma_view_find_dispatch(&self, handle: u32)
        ensures
            spec_find_key(self@.objects, handle) == spec_find_key(self.objects@, handle),
    {
        let a = self@.objects;
        let b = self.objects@;
        assert(forall|k: int| 0 <= k < b.len() ==> a[k].0 == b[k].0);
        crate::table::lemma_find_key_same_keys(a, b, handle);
    }

    /// Helper: view and table searches agree on the list table.
    proof fn lemma_view_find_dispatch_lists(&self, handle: u32)
        ensures
            spec_find_key(self@.lists, handle) == spec_find_key(self.lists@, handle),
    {
        let a = self@.lists;
        let b = self.lists@;
        assert(forall|k: int| 0 <= k < b.len() ==> a[k].0 == b[k].0);
        crate::table::lemma_find_key_same_keys(a, b, handle);
    }
}

} // verus!
