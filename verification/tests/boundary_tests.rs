use byondbridge::host::{HostModel, Xyz};
use byondbridge::intern::NONE_ID;
use byondbridge::trampoline::Trampoline;
use byondbridge::value::{TaggedValue, TypeTag};

fn num(x: f32) -> TaggedValue {
    TaggedValue { tag: TypeTag::Number, payload: x.to_bits() }
}

#[test]
fn proc_call_by_name_and_by_id_agree() {
    let mut h = HostModel::new(1, 1);
    let path = TaggedValue { tag: TypeTag::DatumTypePath, payload: 1 };
    let (src, ok) = h.new_instance(&path, &Vec::new());
    assert!(ok);
    let id = h.add_get_str_id(&String::from("proc_name"));
    h.define_proc(id, &num(1.0));

    let args = vec![num(1.0), num(2.0)];
    let by_name = h.call_proc(&src, &String::from("proc_name"), &args);
    let by_id = h.call_proc_by_id(&src, id, &args);
    assert_eq!(by_name, by_id);
    assert_eq!(by_name, (num(1.0), true));
}

#[test]
fn global_proc_call_by_name_and_by_id_agree() {
    let mut h = HostModel::new(1, 1);
    let id = h.add_get_str_id(&String::from("proc_name"));
    h.define_proc(id, &num(1.0));
    let args = vec![num(1.0), num(2.0)];
    let by_name = h.call_global_proc(&String::from("proc_name"), &args);
    let by_id = h.call_global_proc_by_id(id, &args);
    assert_eq!(by_name, by_id);
    assert_eq!(by_name, (num(1.0), true));
}

#[test]
fn proc_call_failures() {
    let mut h = HostModel::new(1, 1);
    let id = h.add_get_str_id(&String::from("known"));
    h.define_proc(id, &num(1.0));
    // Unregistered name.
    let (_, ok) = h.call_global_proc(&String::from("unknown"), &Vec::new());
    assert!(!ok);
    // Unregistered id.
    let (_, ok) = h.call_global_proc_by_id(id + 1, &Vec::new());
    assert!(!ok);
    // Instance call with a source that names no object.
    let ghost_src = TaggedValue { tag: TypeTag::Datum, payload: 424242 };
    let (_, ok) = h.call_proc_by_id(&ghost_src, id, &Vec::new());
    assert!(!ok);
    // Instance call with a non-reference source.
    let (_, ok) = h.call_proc(&num(1.0), &String::from("known"), &Vec::new());
    assert!(!ok);
}

#[test]
fn construction_by_args_and_by_arglist_agree() {
    // Two hosts in the same state: one takes the flat array, the other
    // the arglist value; the results must coincide.
    let mut a = HostModel::new(1, 1);
    let mut b = HostModel::new(1, 1);
    let (arg_list_a, _) = a.create_list();
    let (arg_list_b, _) = b.create_list();
    assert!(a.write_list(&arg_list_a, &vec![num(1.0), num(2.0)]));
    assert!(b.write_list(&arg_list_b, &vec![num(1.0), num(2.0)]));
    let path = TaggedValue { tag: TypeTag::ObjTypePath, payload: 3 };

    let flat = vec![num(1.0), num(2.0)];
    let ra = a.new_instance(&path, &flat);
    let rb = b.new_arglist(&path, &arg_list_b);
    assert_eq!(ra, rb);
    assert!(ra.1);
    assert_eq!(ra.0.tag, TypeTag::Obj);
}

#[test]
fn construction_tags_follow_the_path() {
    let mut h = HostModel::new(1, 1);
    let cases = [
        (TypeTag::MobTypePath, TypeTag::Mob),
        (TypeTag::ObjTypePath, TypeTag::Obj),
        (TypeTag::TurfTypePath, TypeTag::Turf),
        (TypeTag::AreaTypePath, TypeTag::Area),
        (TypeTag::DatumTypePath, TypeTag::Datum),
    ];
    for (path_tag, inst_tag) in cases {
        let (v, ok) = h.new_instance(&TaggedValue { tag: path_tag, payload: 5 }, &Vec::new());
        assert!(ok);
        assert_eq!(v.tag, inst_tag);
        let (c, _) = h.refcount(&v);
        assert_eq!(c, 1);
    }
    // A non-path value constructs nothing.
    let (_, ok) = h.new_instance(&num(1.0), &Vec::new());
    assert!(!ok);
    // An arglist value that names no list fails.
    let path = TaggedValue { tag: TypeTag::DatumTypePath, payload: 5 };
    let (_, ok) = h.new_arglist(&path, &num(1.0));
    assert!(!ok);
}

#[test]
fn to_string_round_trips_interned_names() {
    let mut h = HostModel::new(1, 1);
    let (v, ok) = h.make_string_value(&String::from("abc"));
    assert!(ok);
    let (s, ok) = h.to_string(&v);
    assert!(ok);
    assert_eq!(s, "abc");
    // Rendering of non-string values is host-defined; the model host
    // declines it.
    let (_, ok) = h.to_string(&num(1.0));
    assert!(!ok);
    // A string value with an id the table never handed out fails.
    let (_, ok) = h.to_string(&TaggedValue { tag: TypeTag::Str, payload: 999 });
    assert!(!ok);
}

#[test]
fn length_answers_lists_and_strings() {
    let mut h = HostModel::new(1, 1);
    let (list_v, _) = h.create_list();
    assert!(h.write_list(&list_v, &vec![num(1.0), num(2.0), num(3.0)]));
    let (len_v, ok) = h.length_of(&list_v);
    assert!(ok);
    assert_eq!(len_v, num(3.0));
    let (s, _) = h.make_string_value(&String::from("hello"));
    let (len_s, ok) = h.length_of(&s);
    assert!(ok);
    assert_eq!(len_s, num(5.0));
    let (_, ok) = h.length_of(&num(1.0));
    assert!(!ok);
}

#[test]
fn truthiness_follows_the_host_rule() {
    let mut h = HostModel::new(1, 1);
    assert!(!h.is_true(&TaggedValue::null()));
    assert!(!h.is_true(&num(0.0)));
    assert!(!h.is_true(&num(-0.0)));
    assert!(h.is_true(&num(2.0)));
    assert!(h.is_true(&num(-1.0)));
    let (empty_s, _) = h.make_string_value(&String::from(""));
    assert!(!h.is_true(&empty_s));
    let (full_s, _) = h.make_string_value(&String::from("x"));
    assert!(h.is_true(&full_s));
    assert!(!h.is_true(&TaggedValue { tag: TypeTag::Datum, payload: 0 }));
    assert!(h.is_true(&TaggedValue { tag: TypeTag::Datum, payload: 3 }));
}

#[test]
fn locate_xyz_and_cells() {
    let mut h = HostModel::new(1, 1);
    let turf = TaggedValue { tag: TypeTag::Turf, payload: 44 };
    h.set_cell(Xyz { x: 1, y: 2, z: 3 }, &turf);
    assert_eq!(h.locate_xyz(Xyz { x: 1, y: 2, z: 3 }), turf);
    assert_eq!(h.locate_xyz(Xyz { x: 0, y: 0, z: 0 }), TaggedValue::null());
    // Overwriting a cell replaces the occupant.
    let other = TaggedValue { tag: TypeTag::Turf, payload: 45 };
    h.set_cell(Xyz { x: 1, y: 2, z: 3 }, &other);
    assert_eq!(h.locate_xyz(Xyz { x: 1, y: 2, z: 3 }), other);
}

#[test]
fn xyz_of_finds_an_occupant() {
    let mut h = HostModel::new(1, 1);
    let mob = TaggedValue { tag: TypeTag::Mob, payload: 8 };
    h.set_cell(Xyz { x: 5, y: 6, z: 1 }, &mob);
    let (p, ok) = h.xyz_of(&mob);
    assert!(ok);
    assert_eq!(p, Xyz { x: 5, y: 6, z: 1 });
    let (_, ok) = h.xyz_of(&TaggedValue { tag: TypeTag::Mob, payload: 9 });
    assert!(!ok);
}

#[test]
fn block_walks_the_cuboid_inclusively() {
    let mut h = HostModel::new(1, 1);
    let t1 = TaggedValue { tag: TypeTag::Turf, payload: 1 };
    let t2 = TaggedValue { tag: TypeTag::Turf, payload: 2 };
    h.set_cell(Xyz { x: 1, y: 1, z: 1 }, &t1);
    h.set_cell(Xyz { x: 2, y: 3, z: 2 }, &t2);
    let (vals, ok) = h.block(Xyz { x: 1, y: 1, z: 1 }, Xyz { x: 2, y: 3, z: 2 });
    assert!(ok);
    // 2 wide, 3 deep, 2 high.
    assert_eq!(vals.len(), 12);
    // x fastest, then y, then z: the first corner is slot 0, the last
    // corner the final slot.
    assert_eq!(vals[0], t1);
    assert_eq!(vals[11], t2);
    for i in 1..11 {
        assert_eq!(vals[i], TaggedValue::null());
    }
    // Swapped corners walk the same cuboid.
    let (vals2, ok2) = h.block(Xyz { x: 2, y: 3, z: 2 }, Xyz { x: 1, y: 1, z: 1 });
    assert!(ok2);
    assert_eq!(vals, vals2);
}

#[test]
fn locate_in_finds_the_first_typed_member() {
    let mut h = HostModel::new(1, 1);
    let mob_path = TaggedValue { tag: TypeTag::MobTypePath, payload: 7 };
    let obj_path = TaggedValue { tag: TypeTag::ObjTypePath, payload: 9 };
    let (a, _) = h.new_instance(&obj_path, &Vec::new());
    let (b, _) = h.new_instance(&mob_path, &Vec::new());
    let (c, _) = h.new_instance(&mob_path, &Vec::new());
    let (list_v, _) = h.create_list();
    assert!(h.write_list(&list_v, &vec![a, b, c]));
    let (found, ok) = h.locate_in(&mob_path, &list_v);
    assert!(ok);
    assert_eq!(found, b);
    // No member of the type: null result, successful call.
    let turf_path = TaggedValue { tag: TypeTag::TurfTypePath, payload: 2 };
    let (none_found, ok) = h.locate_in(&turf_path, &list_v);
    assert!(ok);
    assert_eq!(none_found, TaggedValue::null());
    // Not a list: failure.
    let (_, ok) = h.locate_in(&mob_path, &num(1.0));
    assert!(!ok);
}

#[test]
fn trampoline_binds_exactly_once() {
    let mut t = Trampoline::new();
    // Fail fast while unbound.
    assert_eq!(t.get_str_id(&String::from("x")), NONE_ID);
    let (_, _, ok) = t.get_version();
    assert!(!ok);
    let (_, ok) = t.read_var(&TaggedValue::null(), &String::from("x"));
    assert!(!ok);

    assert!(t.bind(HostModel::new(516, 1651)));
    let (v, b, ok) = t.get_version();
    assert!(ok);
    assert_eq!((v, b), (516, 1651));

    // A second bind is refused and the bound table stands.
    assert!(!t.bind(HostModel::new(9, 9)));
    let (v2, b2, ok2) = t.get_version();
    assert!(ok2);
    assert_eq!((v2, b2), (516, 1651));
}

#[test]
fn trampoline_forwards_once_bound() {
    let mut t = Trampoline::new();
    assert!(t.bind(HostModel::new(1, 1)));
    let id = t.add_get_str_id(&String::from("proc_name"));
    assert_ne!(id, NONE_ID);
    assert_eq!(t.get_str_id(&String::from("proc_name")), id);

    let (list_v, ok) = t.create_list();
    assert!(ok);
    // Writing ordinal 1 on an empty list is refused: position 1 does not
    // exist yet.
    assert!(!t.write_list_index(&list_v, &num(1.0), &num(5.0)));
    let mut buf: Vec<TaggedValue> = Vec::new();
    let (count, ok) = t.read_list(&list_v, &mut buf, 8);
    assert!(ok);
    assert_eq!(count, 0);

    // A keyed write grows the list; interning through add_get_str_id and
    // tagging by hand mirrors the host's own string values.
    let sid = t.add_get_str_id(&String::from("key"));
    assert_ne!(sid, NONE_ID);
    let k = TaggedValue { tag: TypeTag::Str, payload: sid };
    assert!(t.write_list_index(&list_v, &k, &num(8.0)));
    let (r2, ok2) = t.read_list_index(&list_v, &k);
    assert!(ok2);
    assert_eq!(r2, num(8.0));

    // Now position 1 exists and an ordinal write lands.
    assert!(t.write_list_index(&list_v, &num(1.0), &num(5.0)));
    let (r3, ok3) = t.read_list_index(&list_v, &num(1.0));
    assert!(ok3);
    assert_eq!(r3, num(5.0));

    let (len_v, ok4) = t.length_of(&list_v);
    assert!(ok4);
    assert_eq!(len_v, num(1.0));
}

#[test]
fn diagnostics_are_retrievable() {
    let mut h = HostModel::new(1, 1);
    assert_eq!(h.last_error_text(), "");
    h.set_last_error(&String::from("bad list"));
    assert_eq!(h.last_error_text(), "bad list");
    assert_eq!(h.get_dmb_version(), 0);
    h.set_dmb_version(31);
    assert_eq!(h.get_dmb_version(), 31);

    let mut t = Trampoline::new();
    assert_eq!(t.last_error_text(), "");
    let (_, ok) = t.get_dmb_version();
    assert!(!ok);
    assert!(t.bind(h));
    assert_eq!(t.last_error_text(), "bad list");
    assert_eq!(t.get_dmb_version(), (31, true));
}

#[test]
fn trampoline_forwards_calls_and_queries() {
    let mut t = Trampoline::new();
    let mut h = HostModel::new(1, 1);
    let path = TaggedValue { tag: TypeTag::MobTypePath, payload: 2 };
    let (src, _) = h.new_instance(&path, &Vec::new());
    let pid = h.add_get_str_id(&String::from("ping"));
    h.define_proc(pid, &num(3.0));
    let vid = h.add_get_str_id(&String::from("health"));
    assert!(h.define_var(&src, vid, &num(50.0)));
    h.set_cell(Xyz { x: 1, y: 1, z: 1 }, &src);
    assert!(t.bind(h));

    assert_eq!(t.call_proc(&src, &String::from("ping"), &Vec::new()), (num(3.0), true));
    assert_eq!(t.call_proc_by_id(&src, pid, &Vec::new()), (num(3.0), true));
    assert_eq!(t.call_global_proc(&String::from("ping"), &Vec::new()), (num(3.0), true));
    assert_eq!(t.call_global_proc_by_id(pid, &Vec::new()), (num(3.0), true));

    assert_eq!(t.read_var(&src, &String::from("health")), (num(50.0), true));
    assert_eq!(t.read_var_by_id(&src, vid), (num(50.0), true));
    assert!(t.write_var(&src, &String::from("health"), &num(20.0)));
    assert_eq!(t.read_var_by_id(&src, vid), (num(20.0), true));
    assert!(t.write_var_by_id(&src, vid, &num(10.0)));
    assert_eq!(t.read_var(&src, &String::from("health")), (num(10.0), true));

    assert_eq!(t.locate_xyz(Xyz { x: 1, y: 1, z: 1 }), (src, true));
    assert_eq!(t.xyz_of(&src), (Xyz { x: 1, y: 1, z: 1 }, true));
    let (vals, ok) = t.block(Xyz { x: 1, y: 1, z: 1 }, Xyz { x: 1, y: 1, z: 1 });
    assert!(ok);
    assert_eq!(vals, vec![src]);

    let (list_v, ok) = t.create_list();
    assert!(ok);
    assert!(t.write_list(&list_v, &vec![src]));
    assert_eq!(t.locate_in(&path, &list_v), (src, true));
    let mut buf: Vec<TaggedValue> = Vec::new();
    let (count, ok) = t.read_list_assoc(&list_v, &mut buf, 2);
    assert!(ok);
    assert_eq!(count, 2);
    assert_eq!(buf, vec![src, TaggedValue::null()]);

    let (inst, ok) = t.new_instance(&path, &Vec::new());
    assert!(ok);
    assert_eq!(inst.tag, TypeTag::Mob);
    let (inst2, ok) = t.new_arglist(&path, &list_v);
    assert!(ok);
    assert_eq!(inst2.tag, TypeTag::Mob);
    assert_ne!(inst.payload, inst2.payload);
    assert!(!t.is_true(&TaggedValue::null()));
    assert!(t.is_true(&inst));
}

#[test]
fn trampoline_refcounts_forward() {
    let mut t = Trampoline::new();
    assert!(t.bind(HostModel::new(1, 1)));
    let (list_v, _) = t.create_list();
    t.inc_ref(&list_v);
    let (c, ok) = t.refcount(&list_v);
    assert!(ok);
    assert_eq!(c, 2);
    t.dec_ref(&list_v);
    t.dec_ref(&list_v);
    let mut v = list_v;
    assert!(!t.test_ref(&mut v));
    assert_eq!(v, TaggedValue::null());
}
