//! Host-list contents and the buffer marshalling protocol.
//!
//! A list is an ordered sequence of slots; each slot holds an element and
//! an optional associated value (the null value for a plain slot). An
//! ordinary read hands out the elements in order; an associative read
//! hands out the slots flattened as alternating element/value entries.
//!
//! Probe-then-fetch: when the caller's buffer capacity is below the true
//! flattened length, the read fails, reports the true required length,
//! and writes nothing, so the caller can retry with a right-sized buffer.

use crate::value::{spec_null, TaggedValue};
use vstd::prelude::*;

verus! {

/// One list slot: the element, and its associated value (null when the
/// slot is plain).
#[derive(Clone, Copy, PartialEq, Eq, Structural, Debug)]
pub struct ListSlot {
    pub element: TaggedValue,
    pub assoc: TaggedValue,
}

/// The elements of the slots, in order: what an ordinary read hands out.
pub open spec fn spec_elements(s: Seq<ListSlot>) -> Seq<TaggedValue> {
    s.map_values(|e: ListSlot| e.element)
}

/// The slots flattened as alternating element/value entries: what an
/// associative read hands out.
pub open spec fn spec_flatten_assoc(s: Seq<ListSlot>) -> Seq<TaggedValue>
    decreases s.len(),
{
    if s.len() == 0 {
        Seq::empty()
    } else {
        seq![s[0].element, s[0].assoc] + spec_flatten_assoc(s.drop_first())
    }
}

/// The flattened form is twice as long as the list and interleaves
/// element and value of each slot.
pub proof fn lemma_flatten_assoc_index(s: Seq<ListSlot>)
    ensures
        spec_flatten_assoc(s).len() == 2 * s.len(),
        forall|i: int|
            0 <= i < s.len() ==> spec_flatten_assoc(s)[2 * i] == s[i].element
                && spec_flatten_assoc(s)[2 * i + 1] == s[i].assoc,
    decreases s.len(),
{
    if s.len() > 0 {
        lemma_flatten_assoc_index(s.drop_first());
        assert forall|i: int|
            0 <= i < s.len() implies spec_flatten_assoc(s)[2 * i] == s[i].element
            && spec_flatten_assoc(s)[2 * i + 1] == s[i].assoc by {
            if i > 0 {
                assert(s.drop_first()[i - 1] == s[i]);
                assert(spec_flatten_assoc(s)[2 * i] == spec_flatten_assoc(s.drop_first())[2 * (i
                    - 1)]);
                assert(spec_flatten_assoc(s)[2 * i + 1] == spec_flatten_assoc(s.drop_first())[2
                    * (i - 1) + 1]);
            }
        }
    }
}

/// First slot whose element is `key` (bit-for-bit), or -1 when no slot
/// carries it.
pub open spec fn spec_find_slot(s: Seq<ListSlot>, key: TaggedValue) -> int
    decreases s.len(),
{
    if s.len() == 0 {
        -1
    } else if s[0].element == key {
        0
    } else {
        let r = spec_find_slot(s.drop_first(), key);
        if r < 0 {
            -1
        } else {
            r + 1
        }
    }
}

/// A found slot is in range, carries the key element, and nothing before
/// it does; an absent key occurs nowhere.
pub proof fn lemma_find_slot_props(s: Seq<ListSlot>, key: TaggedValue)
    ensures
        spec_find_slot(s, key) >= 0 ==> {
            let r = spec_find_slot(s, key);
            &&& r < s.len()
            &&& s[r].element == key
            &&& forall|k: int| 0 <= k < r ==> s[k].element != key
        },
        spec_find_slot(s, key) < 0 ==> forall|k: int|
            0 <= k < s.len() ==> s[k].element != key,
    decreases s.len(),
{
    if s.len() > 0 && s[0].element != key {
        lemma_find_slot_props(s.drop_first(), key);
        assert(forall|k: int| 1 <= k < s.len() ==> s[k] == s.drop_first()[k - 1]);
    }
}

/// The first match determines the slot search.
pub proof fn lemma_find_slot_at(s: Seq<ListSlot>, key: TaggedValue, i: int)
    requires
        0 <= i < s.len(),
        s[i].element == key,
        forall|k: int| 0 <= k < i ==> s[k].element != key,
    ensures
        spec_find_slot(s, key) == i,
    decreases s.len(),
{
    if i > 0 {
        lemma_find_slot_at(s.drop_first(), key, i - 1);
    }
}

/// A key that no slot carries is not found.
pub proof fn lemma_find_slot_absent(s: Seq<ListSlot>, key: TaggedValue)
    requires
        forall|k: int| 0 <= k < s.len() ==> s[k].element != key,
    ensures
        spec_find_slot(s, key) == -1,
{
    lemma_find_slot_props(s, key);
}

/// The contents of one host-owned list.
pub struct ListObj {
    pub slots: Vec<ListSlot>,
}

impl View for ListObj {
    type V = Seq<ListSlot>;

    open spec fn view(&self) -> Seq<ListSlot> {
        self.slots@
    }
}

impl ListObj {
    /// A fresh empty list.
    pub fn new() -> (r: ListObj)
        ensures
            r@ =~= Seq::<ListSlot>::empty(),
    {
        ListObj { slots: Vec::new() }
    }

    /// The number of slots.
    pub fn len(&self) -> (r: usize)
        ensures
            r == self@.len(),
    {
        self.slots.len()
    }

    /// Appends a plain element.
    pub fn push_element(&mut self, v: TaggedValue)
        ensures
            final(self)@ == old(self)@.push(ListSlot { element: v, assoc: spec_null() }),
    {
        self.slots.push(ListSlot { element: v, assoc: TaggedValue::null() });
    }

    /// Appends an associative pair.
    pub fn push_pair(&mut self, key: TaggedValue, value: TaggedValue)
        ensures
            final(self)@ == old(self)@.push(ListSlot { element: key, assoc: value }),
    {
        self.slots.push(ListSlot { element: key, assoc: value });
    }

    /// Replaces the contents with the given plain elements.
    pub fn set_elements(&mut self, vals: &Vec<TaggedValue>)
        ensures
            final(self)@.len() == vals@.len(),
            spec_elements(final(self)@) =~= vals@,
            forall|i: int| 0 <= i < vals@.len() ==> final(self)@[i].assoc == spec_null(),
    {
        self.slots = Vec::new();
        let n = vals.len();
        let mut i: usize = 0;
        while i < n
            invariant
                n == vals@.len(),
                i <= n,
                self@.len() == i,
                forall|k: int|
                    0 <= k < i ==> self@[k] == (ListSlot {
                        element: vals@[k],
                        assoc: spec_null(),
                    }),
            decreases n - i,
        {
            self.slots.push(ListSlot { element: vals[i], assoc: TaggedValue::null() });
            i = i + 1;
        }
        proof {
            assert forall|i: int| 0 <= i < vals@.len() implies spec_elements(self@)[i]
                == vals@[i] by {}
        }
    }

    /// Ordinary read under probe-then-fetch: with enough capacity the
    /// buffer receives the elements in order and the count is the length;
    /// with too little, the call fails, reports the true required length,
    /// and writes nothing.
    pub fn read_into(&self, buf: &mut Vec<TaggedValue>, capacity: usize) -> (r: (usize, bool))
        ensures
            r.0 == self@.len(),
            r.1 == (self@.len() <= capacity),
            r.1 ==> final(buf)@ == spec_elements(self@),
            !r.1 ==> final(buf)@ == old(buf)@,
    {
        let n = self.slots.len();
        if n > capacity {
            return (n, false);
        }
        buf.clear();
        let mut i: usize = 0;
        while i < n
            invariant
                n == self@.len(),
                i <= n,
                buf@.len() == i,
                forall|k: int| 0 <= k < i ==> buf@[k] == self@[k].element,
            decreases n - i,
        {
            buf.push(self.slots[i].element);
            i = i + 1;
        }
        proof {
            assert(buf@ =~= spec_elements(self@));
        }
        (n, true)
    }

    /// Associative read under probe-then-fetch: the flattened length is
    /// twice the slot count; with enough capacity the buffer receives the
    /// alternating element/value entries, otherwise nothing is written
    /// and the true required length is reported.
    pub fn read_assoc_into(&self, buf: &mut Vec<TaggedValue>, capacity: usize) -> (r: (
        usize,
        bool,
    ))
        requires
            self@.len() <= usize::MAX / 2,
        ensures
            r.0 == 2 * self@.len(),
            r.1 == (2 * self@.len() <= capacity),
            r.1 ==> final(buf)@ == spec_flatten_assoc(self@),
            !r.1 ==> final(buf)@ == old(buf)@,
    {
        proof {
            lemma_flatten_assoc_index(self@);
        }
        let n = self.slots.len();
        let needed = 2 * n;
        if needed > capacity {
            return (needed, false);
        }
        buf.clear();
        let mut i: usize = 0;
        while i < n
            invariant
                n == self@.len(),
                n <= usize::MAX / 2,
                i <= n,
                buf@.len() == 2 * i,
                forall|k: int|
                    0 <= k < i ==> buf@[2 * k] == self@[k].element && buf@[2 * k + 1]
                        == self@[k].assoc,
            decreases n - i,
        {
            buf.push(self.slots[i].element);
            buf.push(self.slots[i].assoc);
            i = i + 1;
        }
        proof {
            lemma_flatten_assoc_index(self@);
            assert forall|j: int| 0 <= j < 2 * n implies buf@[j] == spec_flatten_assoc(self@)[j]
                by {
                let k = j / 2;
                assert(0 <= k < n);
                assert(buf@[2 * k] == self@[k].element && buf@[2 * k + 1] == self@[k].assoc);
                assert(spec_flatten_assoc(self@)[2 * k] == self@[k].element
                    && spec_flatten_assoc(self@)[2 * k + 1] == self@[k].assoc);
                if j % 2 == 0 {
                    assert(j == 2 * k);
                } else {
                    assert(j == 2 * k + 1);
                }
            }
            assert(buf@ =~= spec_flatten_assoc(self@));
        }
        (needed, true)
    }

    /// The element at the 1-based position `n`, when the position exists.
    pub fn get_ordinal(&self, n: usize) -> (r: Option<TaggedValue>)
        ensures
            match r {
                Some(v) => 1 <= n <= self@.len() && v == self@[n - 1].element,
                None => !(1 <= n <= self@.len()),
            },
    {
        if n >= 1 && n <= self.slots.len() {
            Some(self.slots[n - 1].element)
        } else {
            None
        }
    }

    /// The value associated with the first slot carrying `key`, when one
    /// does.
    pub fn get_keyed(&self, key: &TaggedValue) -> (r: Option<TaggedValue>)
        ensures
            match r {
                Some(v) => spec_find_slot(self@, *key) >= 0 && v == self@[spec_find_slot(
                    self@,
                    *key,
                )].assoc,
                None => spec_find_slot(self@, *key) == -1,
            },
    {
        let n = self.slots.len();
        let mut i: usize = 0;
        while i < n
            invariant
                n == self@.len(),
                i <= n,
                forall|k: int| 0 <= k < i ==> self@[k].element != *key,
            decreases n - i,
        {
            if self.slots[i].element == *key {
                proof {
                    lemma_find_slot_at(self@, *key, i as int);
                }
                return Some(self.slots[i].assoc);
            }
            i = i + 1;
        }
        proof {
            lemma_find_slot_absent(self@, *key);
        }
        None
    }

    /// Overwrites the 1-based position `n` with a plain element; the
    /// slot's old associated value is dropped with the old element.
    /// Fails, changing nothing, when the position does not exist.
    pub fn set_ordinal(&mut self, n: usize, v: TaggedValue) -> (ok: bool)
        ensures
            ok == (1 <= n <= old(self)@.len()),
            ok ==> final(self)@ == old(self)@.update(
                n - 1,
                ListSlot { element: v, assoc: spec_null() },
            ),
            !ok ==> final(self)@ == old(self)@,
    {
        if n >= 1 && n <= self.slots.len() {
            self.slots[n - 1] = ListSlot { element: v, assoc: TaggedValue::null() };
            true
        } else {
            false
        }
    }

    /// Associates `value` with `key`: rewrites the first slot carrying
    /// the key, or appends a new pair when no slot does.
    pub fn set_keyed(&mut self, key: TaggedValue, value: TaggedValue)
        ensures
            ({
                let r = spec_find_slot(old(self)@, key);
                if r >= 0 {
                    final(self)@ == old(self)@.update(
                        r,
                        ListSlot { element: key, assoc: value },
                    )
                } else {
                    final(self)@ == old(self)@.push(ListSlot { element: key, assoc: value })
                }
            }),
    {
        let n = self.slots.len();
        let mut i: usize = 0;
        while i < n
            invariant
                n == self@.len(),
                i <= n,
                self@ == old(self)@,
                forall|k: int| 0 <= k < i ==> self@[k].element != key,
            decreases n - i,
        {
            if self.slots[i].element == key {
                proof {
                    lemma_find_slot_at(self@, key, i as int);
                }
                self.slots[i] = ListSlot { element: key, assoc: value };
                return ;
            }
            i = i + 1;
        }
        proof {
            lemma_find_slot_absent(self@, key);
        }
        self.slots.push(ListSlot { element: key, assoc: value });
    }
}

/// Keyed round trip: associating a value with a key and reading the key
/// back yields that value.
pub proof fn lemma_keyed_write_read(s: Seq<ListSlot>, key: TaggedValue, value: TaggedValue)
    ensures
        ({
            let r = spec_find_slot(s, key);
            let after = if r >= 0 {
                s.update(r, ListSlot { element: key, assoc: value })
            } else {
                s.push(ListSlot { element: key, assoc: value })
            };
            let r2 = spec_find_slot(after, key);
            &&& r2 >= 0
            &&& after[r2].assoc == value
        }),
{
    let r = spec_find_slot(s, key);
    lemma_find_slot_props(s, key);
    if r >= 0 {
        let after = s.update(r, ListSlot { element: key, assoc: value });
        lemma_find_slot_at(after, key, r);
    } else {
        let after = s.push(ListSlot { element: key, assoc: value });
        lemma_find_slot_at(after, key, s.len() as int);
    }
}

} // verus!
