use byondbridge::guard::HandleGuard;
use byondbridge::host::HostModel;
use byondbridge::lists::ListObj;
use byondbridge::intern::{InternTable, NONE_ID};
use byondbridge::registry::RefRegistry;
use byondbridge::value::{TaggedValue, TypeTag};

fn num(x: f32) -> TaggedValue {
    TaggedValue { tag: TypeTag::Number, payload: x.to_bits() }
}

#[test]
fn lookup_unregistered_name_is_none() {
    let t = InternTable::new();
    assert_eq!(t.lookup(&String::from("unregistered-name")), NONE_ID);
}

#[test]
fn intern_then_lookup_is_stable() {
    let mut t = InternTable::new();
    let id = t.intern(&String::from("name"));
    assert_ne!(id, NONE_ID);
    assert_eq!(t.lookup(&String::from("name")), id);
    // Repeated interning is idempotent.
    assert_eq!(t.intern(&String::from("name")), id);
    assert_eq!(t.lookup(&String::from("name")), id);
}

#[test]
fn intern_hands_out_distinct_ids() {
    let mut t = InternTable::new();
    let a = t.intern(&String::from("alpha"));
    let b = t.intern(&String::from("beta"));
    assert_ne!(a, b);
    assert_eq!(t.lookup(&String::from("alpha")), a);
    assert_eq!(t.lookup(&String::from("beta")), b);
}

#[test]
fn host_str_ids_mirror_the_table() {
    let mut h = HostModel::new(516, 1651);
    assert_eq!(h.get_str_id(&String::from("this string does not exist")), NONE_ID);
    let id = h.add_get_str_id(&String::from("this string exists"));
    assert_ne!(id, NONE_ID);
    assert_eq!(h.get_str_id(&String::from("this string exists")), id);
    assert_eq!(h.add_get_str_id(&String::from("this string exists")), id);
}

#[test]
fn refcounts_follow_the_discipline() {
    let mut r = RefRegistry::new();
    assert!(!r.test_ref(7));
    assert!(r.create(7));
    assert!(r.test_ref(7));
    assert_eq!(r.refcount(7), 1);
    r.inc_ref(7);
    assert_eq!(r.refcount(7), 2);
    r.dec_ref(7);
    r.dec_ref(7);
    assert!(!r.test_ref(7));
    // Releasing a dead handle is ignored.
    r.dec_ref(7);
    assert_eq!(r.refcount(7), 0);
    // The zero handle is never born.
    assert!(!r.create(0));
    assert!(!r.test_ref(0));
}

#[test]
fn guards_pair_one_acquire_with_one_release() {
    let mut r = RefRegistry::new();
    assert!(r.create(12));
    let v = TaggedValue { tag: TypeTag::Datum, payload: 12 };
    let g = HandleGuard::acquire(&mut r, &v).unwrap();
    assert_eq!(g.handle(), 12);
    assert_eq!(r.refcount(12), 2);
    g.release(&mut r);
    assert_eq!(r.refcount(12), 1);
    // A dead handle and a non-reference cannot be acquired.
    let dead = TaggedValue { tag: TypeTag::Datum, payload: 99 };
    assert!(HandleGuard::acquire(&mut r, &dead).is_none());
    assert!(HandleGuard::acquire(&mut r, &TaggedValue::null()).is_none());
    assert_eq!(r.refcount(12), 1);
}

#[test]
fn test_ref_clears_a_dead_value() {
    let mut h = HostModel::new(1, 1);
    let (list_v, ok) = h.create_list();
    assert!(ok);
    let mut v = list_v;
    assert!(h.test_ref(&mut v));
    assert_eq!(v, list_v);
    let mut dead = TaggedValue { tag: TypeTag::Datum, payload: 9999 };
    assert!(!h.test_ref(&mut dead));
    assert_eq!(dead, TaggedValue::null());
}

#[test]
fn read_var_by_name_and_by_id() {
    let mut h = HostModel::new(1, 1);
    let path = TaggedValue { tag: TypeTag::DatumTypePath, payload: 1 };
    let (obj, ok) = h.new_instance(&path, &Vec::new());
    assert!(ok);
    let content_id = h.add_get_str_id(&String::from("content"));
    let (success_v, ok) = h.make_string_value(&String::from("success"));
    assert!(ok);
    assert!(h.define_var(&obj, content_id, &success_v));

    // Existing variable, by name.
    let (v, ok) = h.read_var(&obj, &String::from("content"));
    assert!(ok);
    assert_eq!(v, success_v);
    let (s, ok) = h.to_string(&v);
    assert!(ok);
    assert_eq!(s, "success");

    // Existing variable, by id.
    let (v2, ok2) = h.read_var_by_id(&obj, content_id);
    assert!(ok2);
    assert_eq!(v2, success_v);

    // Missing variable fails silently, by name and by id.
    let (v3, ok3) = h.read_var(&obj, &String::from("nonexistent_content"));
    assert!(!ok3);
    assert_eq!(v3, TaggedValue::null());
    let ghost_id = h.add_get_str_id(&String::from("nonexistent_content"));
    let (v4, ok4) = h.read_var_by_id(&obj, ghost_id);
    assert!(!ok4);
    assert_eq!(v4, TaggedValue::null());
}

#[test]
fn write_var_touches_existing_slots_only() {
    let mut h = HostModel::new(1, 1);
    let path = TaggedValue { tag: TypeTag::DatumTypePath, payload: 1 };
    let (obj, _) = h.new_instance(&path, &Vec::new());
    let content_id = h.add_get_str_id(&String::from("content"));
    assert!(h.define_var(&obj, content_id, &TaggedValue::null()));

    let (success_v, _) = h.make_string_value(&String::from("success"));
    assert!(h.write_var(&obj, &String::from("content"), &success_v));
    let (v, ok) = h.read_var(&obj, &String::from("content"));
    assert!(ok);
    assert_eq!(v, success_v);

    // A variable nobody defined fails silently.
    assert!(!h.write_var(&obj, &String::from("does_not_exist"), &success_v));
    // So does a write through an id of a missing variable.
    let ghost_id = h.add_get_str_id(&String::from("does_not_exist"));
    assert!(!h.write_var_by_id(&obj, ghost_id, &success_v));
    // And a write by id to an existing one succeeds.
    assert!(h.write_var_by_id(&obj, content_id, &num(3.0)));
    let (v2, _) = h.read_var_by_id(&obj, content_id);
    assert_eq!(v2, num(3.0));
}

/// Builds the associative list [("one", "first_item"), ("2", 2)].
fn assoc_fixture() -> (HostModel, TaggedValue, [TaggedValue; 4]) {
    let mut h = HostModel::new(1, 1);
    let (list_v, ok) = h.create_list();
    assert!(ok);
    let (k1, _) = h.make_string_value(&String::from("one"));
    let (v1, _) = h.make_string_value(&String::from("first_item"));
    let (k2, _) = h.make_string_value(&String::from("2"));
    let v2 = num(2.0);
    assert!(h.write_list_index(&list_v, &k1, &v1));
    assert!(h.write_list_index(&list_v, &k2, &v2));
    (h, list_v, [k1, v1, k2, v2])
}

#[test]
fn read_list_assoc_with_sufficient_capacity() {
    let (h, list_v, flat) = assoc_fixture();
    let mut buf: Vec<TaggedValue> = Vec::new();
    let (count, ok) = h.read_list_assoc(&list_v, &mut buf, 6);
    assert!(ok);
    assert_eq!(count, 4);
    assert_eq!(buf.len(), 4);
    assert_eq!(buf[0], flat[0]);
    assert_eq!(buf[1], flat[1]);
    assert_eq!(buf[2], flat[2]);
    assert_eq!(buf[3], flat[3]);
}

#[test]
fn read_list_assoc_with_insufficient_capacity_reports_required_length() {
    let (h, list_v, _) = assoc_fixture();
    let sentinel = num(9.0);
    let mut buf: Vec<TaggedValue> = vec![sentinel, sentinel];
    let (count, ok) = h.read_list_assoc(&list_v, &mut buf, 2);
    assert!(!ok);
    assert_eq!(count, 4);
    // Nothing was written.
    assert_eq!(buf.len(), 2);
    assert_eq!(buf[0], sentinel);
    assert_eq!(buf[1], sentinel);
}

#[test]
fn read_list_assoc_on_a_non_list_fails_with_zero_count() {
    let h = HostModel::new(1, 1);
    let not_a_list = num(1.0);
    let mut buf: Vec<TaggedValue> = Vec::new();
    let (count, ok) = h.read_list_assoc(&not_a_list, &mut buf, 2);
    assert!(!ok);
    assert_eq!(count, 0);
}

#[test]
fn ordinary_list_read_obeys_probe_then_fetch() {
    let mut h = HostModel::new(1, 1);
    let (list_v, _) = h.create_list();
    let zero = num(0.0);
    let (one_s, _) = h.make_string_value(&String::from("one"));
    assert!(h.write_list(&list_v, &vec![zero, one_s]));
    let mut buf: Vec<TaggedValue> = Vec::new();
    let (count, ok) = h.read_list(&list_v, &mut buf, 2);
    assert!(ok);
    assert_eq!(count, 2);
    assert_eq!(buf, vec![zero, one_s]);
    // Too small: true length reported, nothing written.
    let mut small: Vec<TaggedValue> = Vec::new();
    let (count2, ok2) = h.read_list(&list_v, &mut small, 1);
    assert!(!ok2);
    assert_eq!(count2, 2);
    assert_eq!(small.len(), 0);
    // Not a list.
    let (count3, ok3) = h.read_list(&num(5.0), &mut small, 8);
    assert!(!ok3);
    assert_eq!(count3, 0);
}

#[test]
fn list_index_round_trip_on_an_ordinary_list() {
    let mut h = HostModel::new(1, 1);
    let (list_v, _) = h.create_list();
    let (first_s, _) = h.make_string_value(&String::from("first"));
    assert!(h.write_list(&list_v, &vec![first_s, num(2.0)]));

    let x = num(7.0);
    let (y, _) = h.make_string_value(&String::from("why"));
    assert!(h.write_list_index(&list_v, &num(1.0), &x));
    assert!(h.write_list_index(&list_v, &num(2.0), &y));

    let (r1, ok1) = h.read_list_index(&list_v, &num(1.0));
    assert!(ok1);
    assert_eq!(r1, x);
    let (r2, ok2) = h.read_list_index(&list_v, &num(2.0));
    assert!(ok2);
    assert_eq!(r2, y);
}

#[test]
fn list_index_round_trip_on_an_assoc_list() {
    let (mut h, list_v, flat) = assoc_fixture();
    let (r1, ok1) = h.read_list_index(&list_v, &flat[0]);
    assert!(ok1);
    assert_eq!(r1, flat[1]);
    let (r2, ok2) = h.read_list_index(&list_v, &flat[2]);
    assert!(ok2);
    assert_eq!(r2, flat[3]);
    // Rewriting a key replaces its value without growing the list.
    let replacement = num(5.0);
    assert!(h.write_list_index(&list_v, &flat[0], &replacement));
    let (r3, _) = h.read_list_index(&list_v, &flat[0]);
    assert_eq!(r3, replacement);
    let (len_v, ok) = h.length_of(&list_v);
    assert!(ok);
    assert_eq!(len_v, num(2.0));
}

#[test]
fn list_index_failures() {
    let mut h = HostModel::new(1, 1);
    let (list_v, _) = h.create_list();
    assert!(h.write_list(&list_v, &vec![num(1.0)]));
    // Ordinal zero and past-the-end ordinals fail.
    let (r, ok) = h.read_list_index(&list_v, &num(0.0));
    assert!(!ok);
    assert_eq!(r, TaggedValue::null());
    let (_, ok) = h.read_list_index(&list_v, &num(2.0));
    assert!(!ok);
    // A fractional ordinal fails.
    let (_, ok) = h.read_list_index(&list_v, &num(1.5));
    assert!(!ok);
    // An unknown key fails.
    let (k, _) = h.make_string_value(&String::from("missing"));
    let (_, ok) = h.read_list_index(&list_v, &k);
    assert!(!ok);
    // Writes past the end fail and change nothing.
    assert!(!h.write_list_index(&list_v, &num(3.0), &num(9.0)));
    let (len_v, _) = h.length_of(&list_v);
    assert_eq!(len_v, num(1.0));
}

#[test]
fn create_list_returns_a_fresh_empty_list() {
    let mut h = HostModel::new(1, 1);
    let (list_v, ok) = h.create_list();
    assert!(ok);
    assert_eq!(list_v.tag, TypeTag::List);
    let mut buf: Vec<TaggedValue> = Vec::new();
    let (count, ok) = h.read_list(&list_v, &mut buf, 0);
    assert!(ok);
    assert_eq!(count, 0);
    // Born with one reference.
    let (c, ok) = h.refcount(&list_v);
    assert!(ok);
    assert_eq!(c, 1);
    // A second list gets a different handle.
    let (list2, ok) = h.create_list();
    assert!(ok);
    assert_ne!(list2.payload, list_v.payload);
}

#[test]
fn probe_then_fetch_in_one_step() {
    let (h, list_v, flat) = assoc_fixture();
    let (vals, ok) = h.read_list_assoc_full(&list_v);
    assert!(ok);
    assert_eq!(vals.len(), 4);
    assert_eq!(vals, vec![flat[0], flat[1], flat[2], flat[3]]);
    let (keys, ok) = h.read_list_full(&list_v);
    assert!(ok);
    assert_eq!(keys, vec![flat[0], flat[2]]);
    // A non-list value fails either way.
    let (_, ok) = h.read_list_full(&num(3.0));
    assert!(!ok);
    let (_, ok) = h.read_list_assoc_full(&num(3.0));
    assert!(!ok);
    // An empty list succeeds with nothing.
    let mut h2 = HostModel::new(1, 1);
    let (empty_list, _) = h2.create_list();
    let (vals2, ok2) = h2.read_list_assoc_full(&empty_list);
    assert!(ok2);
    assert_eq!(vals2.len(), 0);
}

#[test]
fn list_contents_api_round_trips() {
    let mut l = ListObj::new();
    assert_eq!(l.len(), 0);
    l.push_element(num(1.0));
    l.push_pair(num(2.0), num(20.0));
    assert_eq!(l.len(), 2);
    // Ordinals read the elements; keys read the associated values.
    assert_eq!(l.get_ordinal(1), Some(num(1.0)));
    assert_eq!(l.get_ordinal(2), Some(num(2.0)));
    assert_eq!(l.get_ordinal(0), None);
    assert_eq!(l.get_ordinal(3), None);
    assert_eq!(l.get_keyed(&num(2.0)), Some(num(20.0)));
    assert_eq!(l.get_keyed(&num(9.0)), None);
    // An ordinal write replaces the slot with a plain element.
    assert!(l.set_ordinal(2, num(5.0)));
    assert_eq!(l.get_ordinal(2), Some(num(5.0)));
    assert_eq!(l.get_keyed(&num(2.0)), None);
    assert!(!l.set_ordinal(3, num(5.0)));
    // A keyed write rewrites the first carrier or appends.
    l.set_keyed(num(5.0), num(50.0));
    assert_eq!(l.len(), 2);
    assert_eq!(l.get_keyed(&num(5.0)), Some(num(50.0)));
    l.set_keyed(num(6.0), num(60.0));
    assert_eq!(l.len(), 3);
    assert_eq!(l.get_keyed(&num(6.0)), Some(num(60.0)));
    // The associative read flattens slots in order.
    let mut buf: Vec<TaggedValue> = Vec::new();
    let (count, ok) = l.read_assoc_into(&mut buf, 6);
    assert!(ok);
    assert_eq!(count, 6);
    assert_eq!(buf[0], num(1.0));
    assert_eq!(buf[2], num(5.0));
    assert_eq!(buf[3], num(50.0));
    assert_eq!(buf[4], num(6.0));
    assert_eq!(buf[5], num(60.0));
}

#[test]
fn pointer_slots_read_and_write() {
    let mut h = HostModel::new(1, 1);
    let (p, ok) = h.create_pointer(&num(1.0));
    assert!(ok);
    assert_eq!(p.tag, TypeTag::Pointer);
    let (v, ok) = h.read_pointer(&p);
    assert!(ok);
    assert_eq!(v, num(1.0));
    assert!(h.write_pointer(&p, &num(4.0)));
    let (v2, _) = h.read_pointer(&p);
    assert_eq!(v2, num(4.0));
    // A non-pointer value and an unknown slot both fail.
    let (_, ok) = h.read_pointer(&num(1.0));
    assert!(!ok);
    assert!(!h.write_pointer(&TaggedValue { tag: TypeTag::Pointer, payload: 9999 }, &num(0.0)));
}
