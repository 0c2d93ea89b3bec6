//! Spatial queries over the host's grid: the occupant of a cell, the
//! cell of an occupant, and the enumeration of every cell in an
//! axis-aligned cuboid between two corners, inclusive.
//!
//! The cuboid is walked in a fixed order — x fastest, then y, then z,
//! each from the lower corner to the higher — so position `i` of the
//! answer is a function of the corners alone.

use crate::host::{spec_list_of_value, HostModel, HostView, Xyz};
use crate::lists::ListSlot;
use crate::table::{find_key, lemma_find_key_same_keys, spec_find_key};
use crate::value::{is_ref_tag, spec_null, TaggedValue, TypeTag};
use vstd::prelude::*;

verus! {

/// First cell at position `p`, or -1 when the grid has none.
pub open spec fn spec_find_cell(cells: Seq<(Xyz, TaggedValue)>, p: Xyz) -> int
    decreases cells.len(),
{
    if cells.len() == 0 {
        -1
    } else if cells[0].0 == p {
        0
    } else {
        let r = spec_find_cell(cells.drop_first(), p);
        if r < 0 {
            -1
        } else {
            r + 1
        }
    }
}

/// The occupant of a grid cell; the null value for an empty cell.
pub open spec fn spec_cell_at(cells: Seq<(Xyz, TaggedValue)>, p: Xyz) -> TaggedValue {
    let r = spec_find_cell(cells, p);
    if r >= 0 {
        cells[r].1
    } else {
        spec_null()
    }
}

/// A found cell is in range, sits at the position, and nothing before it
/// does; an absent position occurs nowhere.
pub proof fn lemma_find_cell_props(cells: Seq<(Xyz, TaggedValue)>, p: Xyz)
    ensures
        spec_find_cell(cells, p) >= 0 ==> {
            let r = spec_find_cell(cells, p);
            &&& r < cells.len()
            &&& cells[r].0 == p
            &&& forall|k: int| 0 <= k < r ==> cells[k].0 != p
        },
        spec_find_cell(cells, p) < 0 ==> forall|k: int| 0 <= k < cells.len() ==> cells[k].0 != p,
    decreases cells.len(),
{
    if cells.len() > 0 && cells[0].0 != p {
        lemma_find_cell_props(cells.drop_first(), p);
        assert(forall|k: int| 1 <= k < cells.len() ==> cells[k] == cells.drop_first()[k - 1]);
    }
}

/// The first match determines the cell search.
pub proof fn lemma_find_cell_at(cells: Seq<(Xyz, TaggedValue)>, p: Xyz, i: int)
    requires
        0 <= i < cells.len(),
        cells[i].0 == p,
        forall|k: int| 0 <= k < i ==> cells[k].0 != p,
    ensures
        spec_find_cell(cells, p) == i,
    decreases cells.len(),
{
    if i > 0 {
        lemma_find_cell_at(cells.drop_first(), p, i - 1);
    }
}

/// A position no cell occupies is not found.
pub proof fn lemma_find_cell_absent(cells: Seq<(Xyz, TaggedValue)>, p: Xyz)
    requires
        forall|k: int| 0 <= k < cells.len() ==> cells[k].0 != p,
    ensures
        spec_find_cell(cells, p) == -1,
{
    lemma_find_cell_props(cells, p);
}

/// The cell search reads only the positions: two grids with the same
/// positions in the same places answer alike.
pub proof fn lemma_find_cell_same_keys(
    a: Seq<(Xyz, TaggedValue)>,
    b: Seq<(Xyz, TaggedValue)>,
    p: Xyz,
)
    requires
        a.len() == b.len(),
        forall|k: int| 0 <= k < a.len() ==> a[k].0 == b[k].0,
    ensures
        spec_find_cell(a, p) == spec_find_cell(b, p),
    decreases a.len(),
{
    if a.len() > 0 {
        lemma_find_cell_same_keys(a.drop_first(), b.drop_first(), p);
        assert(forall|k: int| 1 <= k < a.len() ==> a[k] == a.drop_first()[k - 1]);
        assert(forall|k: int| 1 <= k < b.len() ==> b[k] == b.drop_first()[k - 1]);
    }
}

/// First cell whose occupant is `v` (bit-for-bit), or -1.
pub open spec fn spec_find_cell_by_val(cells: Seq<(Xyz, TaggedValue)>, v: TaggedValue) -> int
    decreases cells.len(),
{
    if cells.len() == 0 {
        -1
    } else if cells[0].1 == v {
        0
    } else {
        let r = spec_find_cell_by_val(cells.drop_first(), v);
        if r < 0 {
            -1
        } else {
            r + 1
        }
    }
}

/// The value search finds the first occupant match, if any.
pub proof fn lemma_find_cell_by_val_props(cells: Seq<(Xyz, TaggedValue)>, v: TaggedValue)
    ensures
        spec_find_cell_by_val(cells, v) >= 0 ==> {
            let r = spec_find_cell_by_val(cells, v);
            &&& r < cells.len()
            &&& cells[r].1 == v
            &&& forall|k: int| 0 <= k < r ==> cells[k].1 != v
        },
        spec_find_cell_by_val(cells, v) < 0 ==> forall|k: int|
            0 <= k < cells.len() ==> cells[k].1 != v,
    decreases cells.len(),
{
    if cells.len() > 0 && cells[0].1 != v {
        lemma_find_cell_by_val_props(cells.drop_first(), v);
        assert(forall|k: int| 1 <= k < cells.len() ==> cells[k] == cells.drop_first()[k - 1]);
    }
}

/// The first occupant match determines the value search.
pub proof fn lemma_find_cell_by_val_at(cells: Seq<(Xyz, TaggedValue)>, v: TaggedValue, i: int)
    requires
        0 <= i < cells.len(),
        cells[i].1 == v,
        forall|k: int| 0 <= k < i ==> cells[k].1 != v,
    ensures
        spec_find_cell_by_val(cells, v) == i,
    decreases cells.len(),
{
    if i > 0 {
        lemma_find_cell_by_val_at(cells.drop_first(), v, i - 1);
    }
}

/// The lower of two coordinates.
pub open spec fn spec_lo(a: i16, b: i16) -> int {
    if a <= b {
        a as int
    } else {
        b as int
    }
}

/// The higher of two coordinates.
pub open spec fn spec_hi(a: i16, b: i16) -> int {
    if a <= b {
        b as int
    } else {
        a as int
    }
}

/// How many cells the cuboid between the two corners holds, inclusive.
pub open spec fn spec_block_volume(c1: Xyz, c2: Xyz) -> int {
    (spec_hi(c1.x, c2.x) - spec_lo(c1.x, c2.x) + 1) * (spec_hi(c1.y, c2.y) - spec_lo(c1.y, c2.y)
        + 1) * (spec_hi(c1.z, c2.z) - spec_lo(c1.z, c2.z) + 1)
}

/// The position visited at step `i` of the cuboid walk: x fastest, then
/// y, then z, each from the lower corner up.
pub open spec fn spec_block_pos(c1: Xyz, c2: Xyz, i: int) -> Xyz {
    let nx = spec_hi(c1.x, c2.x) - spec_lo(c1.x, c2.x) + 1;
    let ny = spec_hi(c1.y, c2.y) - spec_lo(c1.y, c2.y) + 1;
    Xyz {
        x: (spec_lo(c1.x, c2.x) + (i % nx)) as i16,
        y: (spec_lo(c1.y, c2.y) + ((i / nx) % ny)) as i16,
        z: (spec_lo(c1.z, c2.z) + (i / (nx * ny))) as i16,
    }
}

impl HostModel {
    /// The occupant of the grid cell at `p`; the null value for an empty
    /// cell. Resolution itself always succeeds.
    pub fn locate_xyz(&self, p: Xyz) -> (r: TaggedValue)
        requires
            self.wf(),
        ensures
            r == spec_cell_at(self@.cells, p),
    {
        let n = self.cells.len();
        let mut i: usize = 0;
        while i < n
            invariant
                n == self.cells@.len(),
                i <= n,
                forall|k: int| 0 <= k < i ==> self.cells@[k].0 != p,
            decreases n - i,
        {
            if self.cells[i].0 == p {
                proof {
                    lemma_find_cell_at(self.cells@, p, i as int);
                }
                return self.cells[i].1;
            }
            i = i + 1;
        }
        proof {
            lemma_find_cell_absent(self.cells@, p);
        }
        TaggedValue::null()
    }

    /// The grid position whose cell holds `src`, if one does: the
    /// coordinates of an object that stands somewhere.
    pub fn xyz_of(&self, src: &TaggedValue) -> (r: (Xyz, bool))
        requires
            self.wf(),
        ensures
            ({
                let fi = spec_find_cell_by_val(self@.cells, *src);
                if fi >= 0 {
                    r == (self@.cells[fi].0, true)
                } else {
                    r == (Xyz { x: 0i16, y: 0i16, z: 0i16 }, false)
                }
            }),
    {
        let n = self.cells.len();
        let mut i: usize = 0;
        while i < n
            invariant
                n == self.cells@.len(),
                i <= n,
                forall|k: int| 0 <= k < i ==> self.cells@[k].1 != *src,
            decreases n - i,
        {
            if self.cells[i].1 == *src {
                proof {
                    lemma_find_cell_by_val_at(self.cells@, *src, i as int);
                }
                return (self.cells[i].0, true);
            }
            i = i + 1;
        }
        proof {
            lemma_find_cell_by_val_props(self.cells@, *src);
        }
        (Xyz { x: 0, y: 0, z: 0 }, false)
    }

    /// Host-side setup: puts `v` in the grid cell at `p`, creating or
    /// overwriting the cell.
    pub fn set_cell(&mut self, p: Xyz, v: &TaggedValue)
        requires
            old(self).wf(),
        ensures
            final(self).wf(),
            spec_cell_at(final(self)@.cells, p) == *v,
            forall|p2: Xyz| p2 != p ==> spec_cell_at(final(self)@.cells, p2) == spec_cell_at(
                old(self)@.cells,
                p2,
            ),
            final(self)@ == (HostView { cells: final(self)@.cells, ..old(self)@ }),
    {
        let ghost before = self@;
        let n = self.cells.len();
        let mut i: usize = 0;
        while i < n
            invariant
                *self == *old(self),
                self.wf(),
                before == self@,
                n == self.cells@.len(),
                i <= n,
                forall|k: int| 0 <= k < i ==> self.cells@[k].0 != p,
            decreases n - i,
        {
            if self.cells[i].0 == p {
                proof {
                    lemma_find_cell_at(self.cells@, p, i as int);
                }
                self.cells[i] = (p, *v);
                proof {
                    assert(forall|k: int|
                        0 <= k < self.cells@.len() ==> self.cells@[k].0 == before.cells[k].0);
                    lemma_find_cell_at(self.cells@, p, i as int);
                    assert forall|p2: Xyz|
                        p2 != p implies spec_cell_at(self@.cells, p2) == spec_cell_at(
                        before.cells,
                        p2,
                    ) by {
                        lemma_find_cell_same_keys(self@.cells, before.cells, p2);
                        lemma_find_cell_props(before.cells, p2);
                    }
                    assert(self@ =~= (HostView { cells: self@.cells, ..before }));
                }
                return ;
            }
            i = i + 1;
        }
        proof {
            lemma_find_cell_absent(self.cells@, p);
        }
        self.cells.push((p, *v));
        proof {
            lemma_find_cell_at(self.cells@, p, n as int);
            assert forall|a: int, b: int|
                0 <= a < b < self.cells@.len() implies self.cells@[a].0 != self.cells@[b].0 by {
                if b < before.cells.len() {
                    assert(self.cells@[a] == before.cells[a]);
                    assert(self.cells@[b] == before.cells[b]);
                } else {
                    assert(self.cells@[a] == before.cells[a]);
                }
            }
            assert forall|p2: Xyz|
                p2 != p implies spec_cell_at(self@.cells, p2) == spec_cell_at(
                before.cells,
                p2,
            ) by {
                lemma_find_cell_props(before.cells, p2);
                if spec_find_cell(before.cells, p2) >= 0 {
                    lemma_find_cell_at(self@.cells, p2, spec_find_cell(before.cells, p2));
                } else {
                    lemma_find_cell_absent(self@.cells, p2);
                }
            }
            assert(self@ =~= (HostView { cells: self@.cells, ..before }));
        }
    }

    /// Enumerates the occupant of every cell in the axis-aligned cuboid
    /// between the two corners, inclusive, in the fixed walk order.
    /// Refuses only a cuboid whose cell count cannot cross the boundary
    /// as a 32-bit count.
    pub fn block(&self, c1: Xyz, c2: Xyz) -> (r: (Vec<TaggedValue>, bool))
        requires
            self.wf(),
        ensures
            r.1 == (spec_block_volume(c1, c2) <= u32::MAX),
            !r.1 ==> r.0@.len() == 0,
            r.1 ==> r.0@.len() == spec_block_volume(c1, c2) && (forall|i: int|
                0 <= i < spec_block_volume(c1, c2) ==> r.0@[i] == spec_cell_at(
                    self@.cells,
                    spec_block_pos(c1, c2, i),
                )),
    {
        let xlo: i64 = if c1.x <= c2.x { c1.x as i64 } else { c2.x as i64 };
        let xhi: i64 = if c1.x <= c2.x { c2.x as i64 } else { c1.x as i64 };
        let ylo: i64 = if c1.y <= c2.y { c1.y as i64 } else { c2.y as i64 };
        let yhi: i64 = if c1.y <= c2.y { c2.y as i64 } else { c1.y as i64 };
        let zlo: i64 = if c1.z <= c2.z { c1.z as i64 } else { c2.z as i64 };
        let zhi: i64 = if c1.z <= c2.z { c2.z as i64 } else { c1.z as i64 };
        let nx: u64 = (xhi - xlo + 1) as u64;
        let ny: u64 = (yhi - ylo + 1) as u64;
        let nz: u64 = (zhi - zlo + 1) as u64;
        proof {
            assert(nx * ny <= 0x10000 * 0x10000) by (nonlinear_arith)
                requires
                    1 <= nx <= 0x10000,
                    1 <= ny <= 0x10000,
            ;
            assert(nx * ny * nz <= 0x100000000 * 0x10000) by (nonlinear_arith)
                requires
                    nx * ny <= 0x100000000,
                    1 <= nz <= 0x10000,
                    1 <= nx,
                    1 <= ny,
            ;
            assert(spec_block_volume(c1, c2) == nx * ny * nz);
        }
        let total: u64 = nx * ny * nz;
        if total > u32::MAX as u64 {
            return (Vec::new(), false);
        }
        let mut out: Vec<TaggedValue> = Vec::new();
        let mut i: u64 = 0;
        while i < total
            invariant
                self.wf(),
                1 <= nx <= 0x10000,
                1 <= ny <= 0x10000,
                1 <= nz <= 0x10000,
                nx == spec_hi(c1.x, c2.x) - spec_lo(c1.x, c2.x) + 1,
                ny == spec_hi(c1.y, c2.y) - spec_lo(c1.y, c2.y) + 1,
                nz == spec_hi(c1.z, c2.z) - spec_lo(c1.z, c2.z) + 1,
                xlo == spec_lo(c1.x, c2.x),
                ylo == spec_lo(c1.y, c2.y),
                zlo == spec_lo(c1.z, c2.z),
                total == nx * ny * nz,
                total == spec_block_volume(c1, c2),
                i <= total,
                out@.len() == i,
                forall|j: int|
                    0 <= j < i ==> out@[j] == spec_cell_at(
                        self@.cells,
                        spec_block_pos(c1, c2, j),
                    ),
            decreases total - i,
        {
            proof {
                assert(nx * ny <= 0x1_0000_0000) by (nonlinear_arith)
                    requires
                        1 <= nx <= 0x10000,
                        1 <= ny <= 0x10000,
                ;
                assert(i as int / (nx as int * ny as int) < nz as int) by {
                    vstd::arithmetic::div_mod::lemma_multiply_divide_lt(
                        i as int,
                        (nx * ny) as int,
                        nz as int,
                    );
                }
            }
            let xi: i64 = xlo + ((i % nx) as i64);
            let yi: i64 = ylo + (((i / nx) % ny) as i64);
            let zi: i64 = zlo + ((i / (nx * ny)) as i64);
            let p = Xyz { x: xi as i16, y: yi as i16, z: zi as i16 };
            proof {
                assert(p == spec_block_pos(c1, c2, i as int));
            }
            let v = self.locate_xyz(p);
            out.push(v);
            i = i + 1;
        }
        (out, true)
    }
}

/// Whether a value names an existing object whose type path is `t`.
pub open spec fn spec_has_type(objects: Seq<(u32, crate::host::ObjView)>, e: TaggedValue, t: TaggedValue) -> bool {
    &&& is_ref_tag(e.tag)
    &&& spec_find_key(objects, e.payload) >= 0
    &&& objects[spec_find_key(objects, e.payload)].1.type_path == t
}

/// First slot whose element is an instance of type `t`, or -1.
pub open spec fn spec_find_typed(
    objects: Seq<(u32, crate::host::ObjView)>,
    s: Seq<ListSlot>,
    t: TaggedValue,
) -> int
    decreases s.len(),
{
    if s.len() == 0 {
        -1
    } else if spec_has_type(objects, s[0].element, t) {
        0
    } else {
        let r = spec_find_typed(objects, s.drop_first(), t);
        if r < 0 {
            -1
        } else {
            r + 1
        }
    }
}

/// The first typed match determines the search; an absent type occurs
/// nowhere.
pub proof fn lemma_find_typed_at(
    objects: Seq<(u32, crate::host::ObjView)>,
    s: Seq<ListSlot>,
    t: TaggedValue,
    i: int,
)
    requires
        0 <= i < s.len(),
        spec_has_type(objects, s[i].element, t),
        forall|k: int| 0 <= k < i ==> !spec_has_type(objects, s[k].element, t),
    ensures
        spec_find_typed(objects, s, t) == i,
    decreases s.len(),
{
    if i > 0 {
        lemma_find_typed_at(objects, s.drop_first(), t, i - 1);
    }
}

/// A type no element carries is not found.
pub proof fn lemma_find_typed_absent(
    objects: Seq<(u32, crate::host::ObjView)>,
    s: Seq<ListSlot>,
    t: TaggedValue,
)
    requires
        forall|k: int| 0 <= k < s.len() ==> !spec_has_type(objects, s[k].element, t),
    ensures
        spec_find_typed(objects, s, t) == -1,
    decreases s.len(),
{
    if s.len() > 0 {
        assert(forall|k: int| 1 <= k < s.len() ==> s[k] == s.drop_first()[k - 1]);
        lemma_find_typed_absent(objects, s.drop_first(), t);
    }
}

/// What locating in a list answers: the first member that is an instance
/// of the type, or null when none is; failure only for a value that
/// names no list.
pub open spec fn spec_locate_in(h: HostView, t: TaggedValue, list_v: TaggedValue) -> (
    TaggedValue,
    bool,
) {
    match spec_list_of_value(h, list_v) {
        None => (spec_null(), false),
        Some(s) => {
            let r = spec_find_typed(h.objects, s, t);
            if r >= 0 {
                (s[r].element, true)
            } else {
                (spec_null(), true)
            }
        },
    }
}

impl HostModel {
    /// The first member of the list that is an instance of the type, or
    /// null when none is. Fails only on a value that names no list.
    pub fn locate_in(&self, t: &TaggedValue, list_v: &TaggedValue) -> (r: (TaggedValue, bool))
        requires
            self.wf(),
        ensures
            r == spec_locate_in(self@, *t, *list_v),
    {
        if !matches!(list_v.tag, TypeTag::List) {
            return (TaggedValue::null(), false);
        }
        let li = match find_key(&self.lists, list_v.payload) {
            Some(li) => {
                proof {
                    self.lemma_view_find_spatial_lists(list_v.payload);
                }
                li
            },
            None => {
                proof {
                    self.lemma_view_find_spatial_lists(list_v.payload);
                }
                return (TaggedValue::null(), false);
            },
        };
        let ghost s = self@.lists[li as int].1;
        let n = self.lists[li].1.slots.len();
        let mut i: usize = 0;
        while i < n
            invariant
                self.wf(),
                li < self.lists@.len(),
                s == self.lists@[li as int].1.slots@,
                spec_list_of_value(self@, *list_v) == Some(s),
                n == s.len(),
                i <= n,
                forall|k: int| 0 <= k < i ==> !spec_has_type(self@.objects, s[k].element, *t),
            decreases n - i,
        {
            let e = self.lists[li].1.slots[i].element;
            let matched = if matches!(e.tag, TypeTag::Null | TypeTag::Number) {
                proof {
                    self.lemma_view_find_spatial_objects(e.payload);
                }
                false
            } else {
                match find_key(&self.objects, e.payload) {
                    Some(oi) => {
                        proof {
                            self.lemma_view_find_spatial_objects(e.payload);
                        }
                        self.objects[oi].1.type_path == *t
                    },
                    None => {
                        proof {
                            self.lemma_view_find_spatial_objects(e.payload);
                        }
                        false
                    },
                }
            };
            if matched {
                proof {
                    lemma_find_typed_at(self@.objects, s, *t, i as int);
                }
                return (e, true);
            }
            i = i + 1;
        }
        proof {
            lemma_find_typed_absent(self@.objects, s, *t);
        }
        (TaggedValue::null(), true)
    }

    /// Helper: view and table searches agree on the list table.
    proof fn lemma_view_find_spatial_lists(&self, handle: u32)
        ensures
            spec_find_key(self@.lists, handle) == spec_find_key(self.lists@, handle),
            spec_find_key(self.lists@, handle) >= 0 ==> {
                let i = spec_find_key(self.lists@, handle);
                self@.lists[i] == (self.lists@[i].0, self.lists@[i].1@)
            },
    {
        let a = self@.lists;
        let b = self.lists@;
        assert(forall|k: int| 0 <= k < b.len() ==> a[k] == (b[k].0, b[k].1@));
        lemma_find_key_same_keys(a, b, handle);
        crate::table::lemma_find_key_props(b, handle);
    }

    /// Helper: view and table searches agree on the object table.
    proof fn lemma_view_find_spatial_objects(&self, handle: u32)
        ensures
            spec_find_key(self@.objects, handle) == spec_find_key(self.objects@, handle),
            spec_find_key(self.objects@, handle) >= 0 ==> {
                let i = spec_find_key(self.objects@, handle);
                self@.objects[i] == (self.objects@[i].0, self.objects@[i].1@)
            },
    {
        let a = self@.objects;
        let b = self.objects@;
        assert(forall|k: int| 0 <= k < b.len() ==> a[k] == (b[k].0, b[k].1@));
        lemma_find_key_same_keys(a, b, handle);
        crate::table::lemma_find_key_props(b, handle);
    }
}

} // verus!
