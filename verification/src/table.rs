//! A small association-table utility: first-match search over a vector
//! of `(handle, entry)` pairs. The host-state models key their objects by
//! 32-bit handles and share this search and its lemmas.

use vstd::prelude::*;

verus! {

/// First index whose handle is `key`, or -1 when absent.
pub open spec fn spec_find_key<T>(s: Seq<(u32, T)>, key: u32) -> int
    decreases s.len(),
{
    if s.len() == 0 {
        -1
    } else if s[0].0 == key {
        0
    } else {
        let r = spec_find_key(s.drop_first(), key);
        if r < 0 {
            -1
        } else {
            r + 1
        }
    }
}

/// A found index is in range, carries the key, and nothing before it
/// does; an absent key occurs nowhere.
pub proof fn lemma_find_key_props<T>(s: Seq<(u32, T)>, key: u32)
    ensures
        spec_find_key(s, key) >= 0 ==> {
            let r = spec_find_key(s, key);
            &&& r < s.len()
            &&& s[r].0 == key
            &&& forall|k: int| 0 <= k < r ==> s[k].0 != key
        },
        spec_find_key(s, key) < 0 ==> forall|k: int| 0 <= k < s.len() ==> s[k].0 != key,
    decreases s.len(),
{
    if s.len() > 0 && s[0].0 != key {
        lemma_find_key_props(s.drop_first(), key);
        assert(forall|k: int| 1 <= k < s.len() ==> s[k] == s.drop_first()[k - 1]);
    }
}

/// The first match determines the search result.
pub proof fn lemma_find_key_at<T>(s: Seq<(u32, T)>, key: u32, i: int)
    requires
        0 <= i < s.len(),
        s[i].0 == key,
        forall|k: int| 0 <= k < i ==> s[k].0 != key,
    ensures
        spec_find_key(s, key) == i,
    decreases s.len(),
{
    if i > 0 {
        lemma_find_key_at(s.drop_first(), key, i - 1);
    }
}

/// A key that occurs nowhere is not found.
pub proof fn lemma_find_key_absent<T>(s: Seq<(u32, T)>, key: u32)
    requires
        forall|k: int| 0 <= k < s.len() ==> s[k].0 != key,
    ensures
        spec_find_key(s, key) == -1,
{
    lemma_find_key_props(s, key);
}

/// Appending an absent key puts it at the end, where the search finds it.
pub proof fn lemma_find_key_push<T>(s: Seq<(u32, T)>, key: u32, entry: T)
    requires
        spec_find_key(s, key) == -1,
    ensures
        spec_find_key(s.push((key, entry)), key) == s.len(),
{
    lemma_find_key_props(s, key);
    lemma_find_key_at(s.push((key, entry)), key, s.len() as int);
}

/// The search reads only the keys: two tables with the same keys in the
/// same places answer alike.
pub proof fn lemma_find_key_same_keys<T, U>(s1: Seq<(u32, T)>, s2: Seq<(u32, U)>, key: u32)
    requires
        s1.len() == s2.len(),
        forall|k: int| 0 <= k < s1.len() ==> s1[k].0 == s2[k].0,
    ensures
        spec_find_key(s1, key) == spec_find_key(s2, key),
    decreases s1.len(),
{
    if s1.len() > 0 {
        lemma_find_key_same_keys(s1.drop_first(), s2.drop_first(), key);
        assert(forall|k: int| 1 <= k < s1.len() ==> s1[k] == s1.drop_first()[k - 1]);
        assert(forall|k: int| 1 <= k < s2.len() ==> s2[k] == s2.drop_first()[k - 1]);
    }
}

/// Appending an entry under a different key moves no earlier search
/// result and no earlier entry.
pub proof fn lemma_find_key_push_other<T>(s: Seq<(u32, T)>, key: u32, entry: T, h: u32)
    requires
        h != key,
    ensures
        spec_find_key(s.push((key, entry)), h) == spec_find_key(s, h),
        spec_find_key(s, h) >= 0 ==> s.push((key, entry))[spec_find_key(s, h)]
            == s[spec_find_key(s, h)],
{
    lemma_find_key_props(s, h);
    let s2 = s.push((key, entry));
    if spec_find_key(s, h) >= 0 {
        let i = spec_find_key(s, h);
        lemma_find_key_at(s2, h, i);
    } else {
        assert(forall|k: int| 0 <= k < s2.len() ==> s2[k].0 != h);
        lemma_find_key_absent(s2, h);
    }
}

/// Rewriting one entry in place, keeping its key, moves no search result
/// and no other entry.
pub proof fn lemma_find_key_update_entry<T>(a: Seq<(u32, T)>, b: Seq<(u32, T)>, i: int, key: u32)
    requires
        0 <= i < b.len(),
        b[i].0 == key,
        a.len() == b.len(),
        forall|k: int| 0 <= k < b.len() && k != i ==> a[k] == b[k],
        a[i].0 == key,
    ensures
        forall|h: u32| #[trigger] spec_find_key(a, h) == spec_find_key(b, h),
        forall|h: u32|
            h != key && spec_find_key(b, h) >= 0 ==> a[spec_find_key(b, h)] == b[spec_find_key(
                b,
                h,
            )],
{
    assert forall|h: u32| #[trigger] spec_find_key(a, h) == spec_find_key(b, h) by {
        lemma_find_key_same_keys(a, b, h);
    }
    assert forall|h: u32|
        h != key && spec_find_key(b, h) >= 0 implies a[spec_find_key(b, h)] == b[spec_find_key(
        b,
        h,
    )] by {
        lemma_find_key_props(b, h);
    }
}

/// First index whose handle is `key`, or `None` when absent.
pub fn find_key<T>(entries: &Vec<(u32, T)>, key: u32) -> (r: Option<usize>)
    ensures
        match r {
            Some(i) => i < entries@.len() && spec_find_key(entries@, key) == i as int,
            None => spec_find_key(entries@, key) == -1,
        },
{
    let n = entries.len();
    let mut i: usize = 0;
    while i < n
        invariant
            n == entries@.len(),
            i <= n,
            forall|k: int| 0 <= k < i ==> entries@[k].0 != key,
        decreases n - i,
    {
        if entries[i].0 == key {
            proof {
                lemma_find_key_at(entries@, key, i as int);
            }
            return Some(i);
        }
        i = i + 1;
    }
    proof {
        lemma_find_key_absent(entries@, key);
    }
    None
}

} // verus!
