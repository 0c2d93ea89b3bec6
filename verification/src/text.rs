//! Text rendering, truthiness, and the generic length query.
//!
//! The model host renders string values exactly — a value made from a
//! name renders back to that name, the required round trip — and leaves
//! the formatting of everything else to the host, answering failure.
//! Truthiness follows the host's rule: null, a zero number of either
//! sign, an empty or unknown string, and a zero handle are false.

use crate::host::{spec_list_at, HostModel, HostView};
use crate::intern::{find_name, spec_intern, MAX_INTERNED, NONE_ID};
use crate::numbits::{number_bits_of_u32, spec_bits_value, MAX_EXACT_ORDINAL};
use crate::table::find_key;
use crate::value::{spec_null, TaggedValue, TypeTag};
use vstd::prelude::*;

verus! {

/// The name bound to a string id, if the id is one the table handed out.
pub open spec fn spec_string_of_id(strings: Seq<Seq<char>>, id: u32) -> Option<Seq<char>> {
    if 1 <= id && id <= strings.len() {
        Some(strings[id - 1])
    } else {
        None
    }
}

/// What rendering a value answers: the exact name for a string value the
/// table knows; failure for everything else, whose formatting is
/// host-defined and not modeled.
pub open spec fn spec_to_string(h: HostView, v: TaggedValue) -> (Seq<char>, bool) {
    if v.tag == TypeTag::Str {
        match spec_string_of_id(h.strings, v.payload) {
            Some(s) => (s, true),
            None => (Seq::empty(), false),
        }
    } else {
        (Seq::empty(), false)
    }
}

/// The abstract length of a value: the slot count of a list, the
/// character count of a string, nothing for other tags.
pub open spec fn spec_length_source(h: HostView, v: TaggedValue) -> Option<nat> {
    if v.tag == TypeTag::List {
        match spec_list_at(h.lists, v.payload) {
            Some(s) => Some(s.len()),
            None => None,
        }
    } else if v.tag == TypeTag::Str {
        match spec_string_of_id(h.strings, v.payload) {
            Some(s) => Some(s.len()),
            None => None,
        }
    } else {
        None
    }
}

/// The host's truthiness rule as the model renders it: null is false, a
/// number is false exactly on the two zero bit patterns, a string is
/// false when empty or unknown, and any other reference is false only on
/// the zero handle.
pub open spec fn spec_is_true(h: HostView, v: TaggedValue) -> bool {
    if v.tag == TypeTag::Null {
        false
    } else if v.tag == TypeTag::Number {
        !(v.payload == 0 || v.payload == 0x8000_0000)
    } else if v.tag == TypeTag::Str {
        match spec_string_of_id(h.strings, v.payload) {
            Some(s) => s.len() > 0,
            None => false,
        }
    } else {
        v.payload != 0
    }
}

/// An id the registration handed out resolves to the registered name:
/// the table binds names and ids one to one.
pub proof fn lemma_interned_name_resolves(strings: Seq<Seq<char>>, name: Seq<char>)
    requires
        strings.len() <= MAX_INTERNED as nat,
    ensures
        ({
            let (t2, id) = spec_intern(strings, name);
            id != NONE_ID as u32 ==> spec_string_of_id(t2, id) == Some(name)
        }),
{
    crate::intern::lemma_find_name_props(strings, name);
    if find_name(strings, name) < 0 && strings.len() < MAX_INTERNED as nat {
        crate::intern::lemma_find_name_push(strings, name);
    }
}

/// Rendering round trip: a string value made from a name renders back to
/// exactly that name.
pub proof fn lemma_to_string_roundtrip(h: HostView, name: Seq<char>)
    requires
        h.strings.len() <= MAX_INTERNED as nat,
    ensures
        ({
            let (t2, id) = spec_intern(h.strings, name);
            id != NONE_ID as u32 ==> spec_to_string(
                HostView { strings: t2, ..h },
                TaggedValue { tag: TypeTag::Str, payload: id },
            ) == (name, true)
        }),
{
    lemma_interned_name_resolves(h.strings, name);
}

impl HostModel {
    /// Renders a value as text: the exact name for a string value the
    /// table knows, failure for anything else. Rendering of non-string
    /// values is host-defined and the model host declines it.
    pub fn to_string(&self, v: &TaggedValue) -> (r: (String, bool))
        requires
            self.wf(),
        ensures
            (r.0@, r.1) == spec_to_string(self@, *v),
    {
        if !matches!(v.tag, TypeTag::Str) {
            return (String::new(), false);
        }
        let id = v.payload;
        if id >= 1 && (id as usize) <= self.strings.names.len() {
            proof {
                assert(self@.strings[id - 1] == self.strings.names@[id - 1]@);
            }
            (self.strings.names[(id - 1) as usize].clone(), true)
        } else {
            (String::new(), false)
        }
    }

    /// Host-side setup: makes a string value from a name, registering the
    /// name. The value renders back to exactly the name; see
    /// `lemma_to_string_roundtrip`.
    pub fn make_string_value(&mut self, name: &String) -> (r: (TaggedValue, bool))
        requires
            old(self).wf(),
        ensures
            final(self).wf(),
            final(self)@ == (HostView { strings: final(self)@.strings, ..old(self)@ }),
            ({
                let (t2, id) = spec_intern(old(self)@.strings, name@);
                &&& final(self)@.strings == t2
                &&& r.1 == (id != NONE_ID as u32)
                &&& (r.1 ==> r.0 == (TaggedValue { tag: TypeTag::Str, payload: id })
                    && spec_string_of_id(final(self)@.strings, id) == Some(name@))
                &&& (!r.1 ==> r.0 == spec_null())
            }),
    {
        let id = self.strings.intern(name);
        proof {
            lemma_interned_name_resolves(old(self)@.strings, name@);
        }
        if id == NONE_ID {
            (TaggedValue::null(), false)
        } else {
            (TaggedValue { tag: TypeTag::Str, payload: id }, true)
        }
    }

    /// The generic length of a value as a number: a list's slot count or
    /// a string's character count. Fails on other tags, on unknown
    /// handles, and on a length too large for the exact number range.
    pub fn length_of(&self, v: &TaggedValue) -> (r: (TaggedValue, bool))
        requires
            self.wf(),
        ensures
            match spec_length_source(self@, *v) {
                Some(n) => {
                    &&& r.1 == (n <= MAX_EXACT_ORDINAL)
                    &&& (r.1 ==> r.0.tag == TypeTag::Number && spec_bits_value(r.0.payload)
                        == Some(n))
                    &&& (!r.1 ==> r == (spec_null(), false))
                },
                None => r == (spec_null(), false),
            },
    {
        if matches!(v.tag, TypeTag::List) {
            match find_key(&self.lists, v.payload) {
                Some(li) => {
                    proof {
                        self.lemma_view_find_text_lists(v.payload);
                    }
                    let n = self.lists[li].1.len();
                    if n <= MAX_EXACT_ORDINAL as usize {
                        (TaggedValue::number_from_bits(number_bits_of_u32(n as u32)), true)
                    } else {
                        (TaggedValue::null(), false)
                    }
                },
                None => {
                    proof {
                        self.lemma_view_find_text_lists(v.payload);
                    }
                    (TaggedValue::null(), false)
                },
            }
        } else if matches!(v.tag, TypeTag::Str) {
            let id = v.payload;
            if id >= 1 && (id as usize) <= self.strings.names.len() {
                proof {
                    assert(self@.strings[id - 1] == self.strings.names@[id - 1]@);
                }
                let n = self.strings.names[(id - 1) as usize].as_str().unicode_len();
                if n <= MAX_EXACT_ORDINAL as usize {
                    (TaggedValue::number_from_bits(number_bits_of_u32(n as u32)), true)
                } else {
                    (TaggedValue::null(), false)
                }
            } else {
                (TaggedValue::null(), false)
            }
        } else {
            (TaggedValue::null(), false)
        }
    }

    /// The host's truthiness of a value, as the model renders the host's
    /// rule.
    pub fn is_true(&self, v: &TaggedValue) -> (r: bool)
        requires
            self.wf(),
        ensures
            r == spec_is_true(self@, *v),
    {
        match v.tag {
            TypeTag::Null => false,
            TypeTag::Number => !(v.payload == 0 || v.payload == 0x8000_0000),
            TypeTag::Str => {
                let id = v.payload;
                if id >= 1 && (id as usize) <= self.strings.names.len() {
                    proof {
                        assert(self@.strings[id - 1] == self.strings.names@[id - 1]@);
                    }
                    !self.strings.names[(id - 1) as usize].as_str().is_empty()
                } else {
                    false
                }
            },
            _ => v.payload != 0,
        }
    }

    /// Helper: view and table searches agree on the list table.
    proof fn lemma_view_find_text_lists(&self, handle: u32)
        ensures
            crate::table::spec_find_key(self@.lists, handle) == crate::table::spec_find_key(
                self.lists@,
                handle,
            ),
            crate::table::spec_find_key(self.lists@, handle) >= 0 ==> {
                let i = crate::table::spec_find_key(self.lists@, handle);
                self@.lists[i] == (self.lists@[i].0, self.lists@[i].1@)
            },
    {
        let a = self@.lists;
        let b = self.lists@;
        assert(forall|k: int| 0 <= k < b.len() ==> a[k] == (b[k].0, b[k].1@));
        crate::table::lemma_find_key_same_keys(a, b, handle);
        crate::table::lemma_find_key_props(b, handle);
    }
}

} // verus!
