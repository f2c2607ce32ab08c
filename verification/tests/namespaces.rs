use tdlang::ast::PathSegment;
use tdlang::env::{Env, Object};

fn seg(name: &str) -> PathSegment {
    PathSegment { ident: name.to_string(), args: Vec::new() }
}

#[test]
fn env_test() {
    let mut env = Env::new();

    env.enter("hello");
    println!("{:?}", env.namespace);

    env.enter("world");
    println!("{:?}", env.namespace);

    env.exit();
    println!("{:?}", env.namespace);
}

#[test]
fn namespace_path_follows_enter_and_exit() {
    let mut env = Env::new();
    env.enter("hello");
    assert_eq!(env.namespace, vec!["hello".to_string()]);
    env.enter("world");
    assert_eq!(env.namespace, vec!["hello".to_string(), "world".to_string()]);
    assert_eq!(env.curr, 2);
    env.exit();
    assert_eq!(env.namespace, vec!["hello".to_string()]);
    assert_eq!(env.curr, 1);
    env.exit();
    assert!(env.namespace.is_empty());
    assert_eq!(env.curr, 0);
}

#[test]
fn full_name_joins_the_path() {
    let mut env = Env::new();
    assert_eq!(env.full_name("main"), "main");
    env.enter("a");
    env.enter("b");
    assert_eq!(env.full_name("f"), "a::b::f");
    env.goto_root();
    assert_eq!(env.curr, 0);
    assert_eq!(env.full_name("g"), "a::b::g");
}

#[test]
fn lookup_finds_added_objects() {
    let mut env = Env::new();
    env.add_fn("main", 0);
    env.enter("m");
    env.add_struct("Point", 3);
    env.add_fn("helper", 1);
    env.add_fn("helper", 2);

    let found = env.lookup(&[seg("helper")]);
    assert!(matches!(found, Some((1, Object::Fn(2)))));
    let found = env.lookup(&[seg("Point")]);
    assert!(matches!(found, Some((1, Object::Struct(3)))));
    let found = env.lookup(&[seg("super"), seg("main")]);
    assert!(matches!(found, Some((0, Object::Fn(0)))));
    let found = env.lookup(&[seg("crate"), seg("m"), seg("helper")]);
    assert!(matches!(found, Some((1, Object::Fn(2)))));
    assert!(env.lookup(&[seg("missing")]).is_none());
    assert!(env.lookup(&[]).is_none());

    env.goto_root();
    assert!(env.lookup(&[seg("super"), seg("main")]).is_none());
    let found = env.lookup(&[seg("m"), seg("Point")]);
    assert!(matches!(found, Some((1, Object::Struct(3)))));
}

#[test]
fn lookup_scope_follows_children() {
    let mut env = Env::new();
    env.enter("a");
    env.enter("b");
    env.goto_root();
    assert_eq!(env.lookup_scope(&[]).map(|s| s.idx), Some(0));
    assert_eq!(env.lookup_scope(&[seg("a")]).map(|s| s.idx), Some(1));
    assert_eq!(env.lookup_scope(&[seg("a"), seg("b")]).map(|s| s.name.clone()), Some("b".to_string()));
    assert!(env.lookup_scope(&[seg("b")]).is_none());
    assert!(env.lookup_scope(&[seg("super")]).is_none());

    let scope = env.lookup_scope_mut(&[seg("a")]).expect("a exists");
    scope.name = "renamed".to_string();
    assert_eq!(env.scopes[1].name, "renamed");
    assert!(env.lookup_scope_mut(&[seg("zz")]).is_none());
}
