//! The string-interning table: a bidirectional binding between names and
//! stable small positive ids, extended on first use and idempotent after.
//!
//! An id is the 1-based position of the name in the table; the sentinel
//! `NONE_ID` means "name not registered". The table never grows past
//! `MAX_INTERNED` names, so a real id is never the sentinel.

use vstd::prelude::*;

verus! {

/// Sentinel id: the name is not registered.
pub const NONE_ID: u32 = 0xFFFF;

/// The most names the table will hold; keeps every real id below the
/// sentinel.
pub const MAX_INTERNED: usize = 0xFFFE;

/// First index of `name` in `names`, or -1 when absent.
pub open spec fn find_name(names: Seq<Seq<char>>, name: Seq<char>) -> int
    decreases names.len(),
{
    if names.len() == 0 {
        -1
    } else if names[0] == name {
        0
    } else {
        let r = find_name(names.drop_first(), name);
        if r < 0 {
            -1
        } else {
            r + 1
        }
    }
}

/// What lookup answers on a table: the 1-based position of the name, or
/// the sentinel.
pub open spec fn spec_lookup(names: Seq<Seq<char>>, name: Seq<char>) -> u32 {
    let r = find_name(names, name);
    if r < 0 {
        NONE_ID as u32
    } else {
        (r + 1) as u32
    }
}

/// What interning does to a table: an absent name is appended and gets
/// the next id; a present name leaves the table unchanged and gets its
/// existing id; a full table refuses with the sentinel.
pub open spec fn spec_intern(names: Seq<Seq<char>>, name: Seq<char>) -> (Seq<Seq<char>>, u32) {
    let r = find_name(names, name);
    if r >= 0 {
        (names, (r + 1) as u32)
    } else if names.len() < MAX_INTERNED as nat {
        (names.push(name), (names.len() + 1) as u32)
    } else {
        (names, NONE_ID as u32)
    }
}

/// A found index is in range and holds the name, and nothing before it
/// does.
pub proof fn lemma_find_name_props(names: Seq<Seq<char>>, name: Seq<char>)
    ensures
        find_name(names, name) >= 0 ==> {
            let r = find_name(names, name);
            &&& r < names.len()
            &&& names[r] == name
            &&& forall|k: int| 0 <= k < r ==> names[k] != name
        },
        find_name(names, name) < 0 ==> forall|k: int|
            0 <= k < names.len() ==> names[k] != name,
    decreases names.len(),
{
    if names.len() > 0 && names[0] != name {
        lemma_find_name_props(names.drop_first(), name);
        assert(forall|k: int|
            1 <= k < names.len() ==> names[k] == names.drop_first()[k - 1]);
    }
}

/// The first match determines `find_name`: if nothing before `i` is the
/// name and position `i` is, the search answers `i`.
pub proof fn lemma_find_name_at(names: Seq<Seq<char>>, name: Seq<char>, i: int)
    requires
        0 <= i < names.len(),
        names[i] == name,
        forall|k: int| 0 <= k < i ==> names[k] != name,
    ensures
        find_name(names, name) == i,
    decreases names.len(),
{
    if i > 0 {
        lemma_find_name_at(names.drop_first(), name, i - 1);
    }
}

/// A search over a table without the name answers absent.
pub proof fn lemma_find_name_absent(names: Seq<Seq<char>>, name: Seq<char>)
    requires
        forall|k: int| 0 <= k < names.len() ==> names[k] != name,
    ensures
        find_name(names, name) == -1,
{
    lemma_find_name_props(names, name);
    if find_name(names, name) >= 0 {
        assert(names[find_name(names, name)] == name);
    }
}

/// Appending an absent name puts it at the end, where the search finds
/// it.
pub proof fn lemma_find_name_push(names: Seq<Seq<char>>, name: Seq<char>)
    requires
        find_name(names, name) == -1,
    ensures
        find_name(names.push(name), name) == names.len(),
{
    lemma_find_name_props(names, name);
    lemma_find_name_at(names.push(name), name, names.len() as int);
}

/// The name-to-id table. Ids are 1-based positions; names are never
/// stored twice.
pub struct InternTable {
    pub names: Vec<String>,
}

impl View for InternTable {
    type V = Seq<Seq<char>>;

    open spec fn view(&self) -> Seq<Seq<char>> {
        self.names@.map_values(|s: String| s@)
    }
}

impl InternTable {
    /// Well-formed: within capacity, and names bound to at most one id.
    pub open spec fn wf(&self) -> bool {
        &&& self@.len() <= MAX_INTERNED as nat
        &&& forall|i: int, j: int| 0 <= i < j < self@.len() ==> self@[i] != self@[j]
    }

    /// An empty table: nothing is registered.
    pub fn new() -> (r: InternTable)
        ensures
            r.wf(),
            r@ =~= Seq::<Seq<char>>::empty(),
    {
        InternTable { names: Vec::new() }
    }

    /// Non-mutating resolution: the id bound to `name`, or the sentinel
    /// when the name is not registered.
    pub fn lookup(&self, name: &String) -> (r: u32)
        requires
            self.wf(),
        ensures
            r == spec_lookup(self@, name@),
    {
        let n = self.names.len();
        let mut i: usize = 0;
        while i < n
            invariant
                n == self.names.len(),
                self@.len() == n as nat,
                n <= MAX_INTERNED,
                i <= n,
                forall|k: int| 0 <= k < i ==> self@[k] != name@,
            decreases n - i,
        {
            proof {
                assert(self@[i as int] == self.names@[i as int]@);
            }
            if self.names[i].eq(name) {
                proof {
                    lemma_find_name_at(self@, name@, i as int);
                }
                return (i + 1) as u32;
            }
            i = i + 1;
        }
        proof {
            lemma_find_name_absent(self@, name@);
        }
        NONE_ID
    }

    /// Mutating resolution: registers the name on first use, answers the
    /// existing id otherwise; idempotent. A full table refuses with the
    /// sentinel and stays unchanged.
    pub fn intern(&mut self, name: &String) -> (r: u32)
        requires
            old(self).wf(),
        ensures
            final(self).wf(),
            (final(self)@, r) == spec_intern(old(self)@, name@),
    {
        let existing = self.lookup(name);
        if existing != NONE_ID {
            return existing;
        }
        proof {
            lemma_find_name_props(self@, name@);
        }
        if self.names.len() >= MAX_INTERNED {
            return NONE_ID;
        }
        let ghost before = self@;
        self.names.push(name.clone());
        proof {
            assert(self@ =~= before.push(name@));
            lemma_find_name_push(before, name@);
        }
        self.names.len() as u32
    }
}

/// Registering and then resolving a name answers the id that the
/// registration handed out, and that id is never the sentinel: interning
/// is stable under lookup.
pub proof fn lemma_intern_then_lookup(names: Seq<Seq<char>>, name: Seq<char>)
    requires
        names.len() <= MAX_INTERNED as nat,
        names.len() < MAX_INTERNED as nat || find_name(names, name) >= 0,
    ensures
        ({
            let (after, id) = spec_intern(names, name);
            &&& spec_lookup(after, name) == id
            &&& id != NONE_ID as u32
        }),
{
    lemma_find_name_props(names, name);
    if find_name(names, name) < 0 {
        lemma_find_name_push(names, name);
    }
}

/// Interning an already-registered name is the identity: the table and
/// the id both stay what the first registration made them.
pub proof fn lemma_intern_idempotent(names: Seq<Seq<char>>, name: Seq<char>)
    requires
        names.len() <= MAX_INTERNED as nat,
        names.len() < MAX_INTERNED as nat || find_name(names, name) >= 0,
    ensures
        ({
            let (after, id) = spec_intern(names, name);
            spec_intern(after, name) == (after, id)
        }),
{
    lemma_find_name_props(names, name);
    if find_name(names, name) < 0 {
        lemma_find_name_push(names, name);
    }
}

} // verus!
