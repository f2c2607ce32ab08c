use tdlang::heap::{GcData, Mem, Tracer, Value};

#[test]
fn collection_keeps_what_the_roots_reach() {
    let mut mem = Mem::new();
    let s1 = mem.allocate(GcData::String("kept".to_string()));
    let s2 = mem.allocate(GcData::String("dropped".to_string()));
    let v = mem.allocate(GcData::Vec(vec![Value::String(s1), Value::Int(3)]));
    let g = mem.allocate(GcData::Struct(vec![Value::Vec(v), Value::String(s2)]));
    mem.stack.push(Value::Vec(v));
    assert_eq!(mem.object_count(), 4);

    let mut tracer = Tracer::new();
    tracer.start_gc(&mut mem);

    assert_eq!(mem.object_count(), 2);
    assert!(mem.contains(v));
    assert!(mem.contains(s1));
    assert!(!mem.contains(s2));
    assert!(!mem.contains(g));
    match mem.get(s1) {
        GcData::String(s) => assert_eq!(s, "kept"),
        _ => panic!("the string changed kind"),
    }
    match mem.get(v) {
        GcData::Vec(items) => assert_eq!(items.len(), 2),
        _ => panic!("the vector changed kind"),
    }
}

#[test]
fn collection_removes_unreached_cycles() {
    let mut mem = Mem::new();
    let a = mem.allocate(GcData::Struct(vec![Value::Nil]));
    let b = mem.allocate(GcData::Struct(vec![Value::Struct(a)]));
    if let GcData::Struct(fields) = mem.get_mut(a) {
        fields[0] = Value::Struct(b);
    }
    let kept = mem.allocate(GcData::String("global".to_string()));
    mem.global.push(Value::String(kept));

    let mut tracer = Tracer::new();
    tracer.start_gc(&mut mem);
    assert_eq!(mem.object_count(), 1);
    assert!(mem.contains(kept));
    assert!(!mem.contains(a));
    assert!(!mem.contains(b));
}

#[test]
fn collection_keeps_reached_cycles_and_all_roots() {
    let mut mem = Mem::new();
    let a = mem.allocate(GcData::Struct(vec![Value::Nil]));
    let b = mem.allocate(GcData::Struct(vec![Value::Struct(a)]));
    if let GcData::Struct(fields) = mem.get_mut(a) {
        fields[0] = Value::Struct(b);
    }
    let l = mem.allocate(GcData::String("local".to_string()));
    let t = mem.allocate(GcData::String("temp".to_string()));
    let c = mem.allocate(GcData::String("const".to_string()));
    let lost = mem.allocate(GcData::String("lost".to_string()));
    mem.temp.push(Value::Struct(a));
    mem.local.push(Value::String(l));
    mem.temp.push(Value::String(t));
    mem.consts.push(Value::String(c));

    let mut tracer = Tracer::new();
    tracer.start_gc(&mut mem);
    assert_eq!(mem.object_count(), 5);
    assert!(!mem.contains(lost));
    for h in [a, b, l, t, c] {
        assert!(mem.contains(h));
    }
}

#[test]
fn collecting_twice_removes_nothing_more() {
    let mut mem = Mem::new();
    let s = mem.allocate(GcData::String("x".to_string()));
    let _garbage = mem.allocate(GcData::String("y".to_string()));
    let v = mem.allocate(GcData::Vec(vec![Value::String(s), Value::String(s)]));
    mem.stack.push(Value::Vec(v));

    let mut tracer = Tracer::new();
    tracer.start_gc(&mut mem);
    assert_eq!(mem.object_count(), 2);
    tracer.start_gc(&mut mem);
    assert_eq!(mem.object_count(), 2);
    assert!(mem.contains(s) && mem.contains(v));

    // Freed slots are used again; new objects get handles no live object has.
    let n = mem.allocate(GcData::String("new".to_string()));
    assert!(n != s && n != v);
    assert_eq!(mem.object_count(), 3);
}

#[test]
fn collection_of_an_empty_heap() {
    let mut mem = Mem::new();
    mem.stack.push(Value::Int(1));
    let mut tracer = Tracer::new();
    tracer.start_gc(&mut mem);
    assert_eq!(mem.object_count(), 0);
}
