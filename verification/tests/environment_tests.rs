use rlox::environment::{Environment, Store};
use rlox::token::Object;

fn name(s: &str) -> String {
    s.to_string()
}

#[test]
fn define_then_get() {
    let mut store = Store::new();
    let root = Environment::new_root(&mut store);
    root.define(&mut store, name("a"), Object::Bool(true));
    assert_eq!(root.get(&store, name("a")), Object::Bool(true));
    assert_eq!(root.lookup(&store, &name("b")), None);
}

#[test]
fn define_replaces() {
    let mut store = Store::new();
    let root = Environment::new_root(&mut store);
    root.define(&mut store, name("a"), Object::Nil);
    root.define(&mut store, name("a"), Object::Number(7));
    assert_eq!(root.lookup(&store, &name("a")), Some(Object::Number(7)));
    assert_eq!(store.bindings.len(), 1);
}

#[test]
fn define_leaves_other_names() {
    let mut store = Store::new();
    let root = Environment::new_root(&mut store);
    root.define(&mut store, name("a"), Object::Number(1));
    root.define(&mut store, name("b"), Object::Number(2));
    assert_eq!(root.get(&store, name("a")), Object::Number(1));
}

#[test]
fn child_sees_and_shadows_parent() {
    let mut store = Store::new();
    let root = Environment::new_root(&mut store);
    root.define(&mut store, name("a"), Object::Number(1));
    let child = Environment::new_child(&root, &mut store);
    assert_eq!(child.get(&store, name("a")), Object::Number(1));
    child.define(&mut store, name("a"), Object::Number(2));
    assert_eq!(child.get(&store, name("a")), Object::Number(2));
    assert_eq!(root.get(&store, name("a")), Object::Number(1));
    assert_eq!(child.scope_of(&store, &name("a")), Some(child.innermost()));
    assert_eq!(root.scope_of(&store, &name("a")), Some(root.innermost()));
}

#[test]
fn assign_goes_to_the_defining_scope() {
    let mut store = Store::new();
    let root = Environment::new_root(&mut store);
    root.define(&mut store, name("a"), Object::Number(1));
    let child = Environment::new_child(&root, &mut store);
    child.assign(&mut store, name("a"), Object::Number(5));
    assert_eq!(root.get(&store, name("a")), Object::Number(5));
    assert_eq!(store.get_in(child.innermost(), &name("a")), None);
}

#[test]
fn assign_to_undefined_fails() {
    let mut store = Store::new();
    let root = Environment::new_root(&mut store);
    assert!(!root.try_assign(&mut store, name("a"), Object::Nil));
    assert!(store.bindings.is_empty());
    root.define(&mut store, name("a"), Object::Nil);
    assert!(root.try_assign(&mut store, name("a"), Object::Bool(false)));
    assert_eq!(root.get(&store, name("a")), Object::Bool(false));
}

#[test]
fn globals_environment_skips_locals() {
    let mut store = Store::new();
    let root = Environment::new_root(&mut store);
    root.define(&mut store, name("g"), Object::Number(1));
    let block = Environment::new_child(&root, &mut store);
    block.define(&mut store, name("l"), Object::Number(2));
    let call = Environment::new_from_globals(&block, &mut store);
    assert_eq!(call.get(&store, name("g")), Object::Number(1));
    assert_eq!(call.lookup(&store, &name("l")), None);
    assert_eq!(store.scope_count, 3);
}

#[test]
fn scopes_are_shared_between_copies() {
    let mut store = Store::new();
    let root = Environment::new_root(&mut store);
    let copy = root.duplicate();
    copy.define(&mut store, name("a"), Object::String(name("s")));
    assert_eq!(root.get(&store, name("a")), Object::String(name("s")));
}

#[test]
fn store_by_scope() {
    let mut store = Store::new();
    store.define_in(0, name("x"), Object::Nil);
    store.define_in(1, name("x"), Object::Bool(true));
    assert_eq!(store.get_in(0, &name("x")), Some(Object::Nil));
    assert_eq!(store.get_in(1, &name("x")), Some(Object::Bool(true)));
    assert_eq!(store.get_in(2, &name("x")), None);
}
