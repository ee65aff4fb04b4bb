use rlisp::env::Env;
use rlisp::object::{copy_list, copy_names, Object};
use rlisp::text::push_decimal;

fn integer(i: i64) -> Object {
    Object::Integer(i)
}

#[test]
fn atoms_render_as_their_literal() {
    assert_eq!(Object::Void.render(), "void");
    assert_eq!(Object::Keyword("define".to_string()).render(), "define");
    assert_eq!(Object::BinaryOp("+".to_string()).render(), "+");
    assert_eq!(integer(0).render(), "0");
    assert_eq!(integer(42).render(), "42");
    assert_eq!(integer(-7).render(), "-7");
    assert_eq!(integer(1000).render(), "1000");
    assert_eq!(integer(i64::MAX).render(), "9223372036854775807");
    assert_eq!(integer(i64::MIN).render(), "-9223372036854775808");
    assert_eq!(Object::Float("3.14".to_string()).render(), "3.14");
    assert_eq!(Object::Bool(true).render(), "true");
    assert_eq!(Object::Bool(false).render(), "false");
    assert_eq!(Object::String("hello world".to_string()).render(), "hello world");
    assert_eq!(Object::Symbol("x".to_string()).render(), "x");
}

#[test]
fn data_lists_render_in_parentheses() {
    assert_eq!(Object::ListData(vec![]).render(), "()");
    assert_eq!(Object::ListData(vec![integer(1)]).render(), "(1)");
    assert_eq!(Object::ListData(vec![integer(1), integer(2), integer(3)]).render(), "(1 2 3)");
    assert_eq!(
        Object::ListData(vec![
            integer(1),
            Object::ListData(vec![Object::Bool(true), Object::ListData(vec![])]),
            Object::String("a b".to_string()),
        ])
        .render(),
        "(1 (true ()) a b)"
    );
}

#[test]
fn code_and_closures_have_no_text() {
    assert_eq!(Object::List(vec![integer(1)]).render(), "something cant be displayed");
    assert_eq!(
        Object::Lambda(vec!["x".to_string()], vec![], 0).render(),
        "something cant be displayed"
    );
    assert_eq!(
        Object::ListData(vec![Object::List(vec![]), integer(2)]).render(),
        "(something cant be displayed 2)"
    );
}

#[test]
fn render_into_appends() {
    let mut out = String::from("=> ");
    Object::ListData(vec![integer(-1), integer(20)]).render_into(&mut out);
    assert_eq!(out, "=> (-1 20)");
    push_decimal(&mut out, -305);
    assert_eq!(out, "=> (-1 20)-305");
}

#[test]
fn copies_are_equal_and_independent() {
    let closure = Object::Lambda(
        vec!["a".to_string(), "b".to_string()],
        vec![Object::BinaryOp("+".to_string()), Object::Symbol("a".to_string())],
        3,
    );
    let copy = closure.copy();
    assert_eq!(copy, closure);
    assert_eq!(closure.clone(), closure);
    let list = vec![integer(1), Object::ListData(vec![integer(2)]), closure];
    assert_eq!(copy_list(&list), list);
    let names = vec!["x".to_string(), "y".to_string()];
    assert_eq!(copy_names(&names), names);
    let mut changed = copy_list(&list);
    changed[0] = integer(9);
    assert_eq!(list[0], integer(1));
}

#[test]
fn new_environment_has_one_empty_scope() {
    let env = Env::new();
    assert_eq!(env.len(), 1);
    assert_eq!(env.get(0, "x"), None);
}

#[test]
fn set_binds_and_overwrites() {
    let mut env = Env::new();
    env.set(0, "x".to_string(), integer(1));
    env.set(0, "y".to_string(), integer(2));
    assert_eq!(env.get(0, "x"), Some(integer(1)));
    assert_eq!(env.get(0, "y"), Some(integer(2)));
    env.set(0, "x".to_string(), integer(3));
    assert_eq!(env.get(0, "x"), Some(integer(3)));
    assert_eq!(env.get(0, "y"), Some(integer(2)));
    assert_eq!(env.get(0, "z"), None);
}

#[test]
fn lookup_walks_the_chain_outward() {
    let mut env = Env::new();
    env.set(0, "x".to_string(), integer(1));
    env.set(0, "y".to_string(), integer(2));
    let a = env.extend(0);
    let b = env.extend(a);
    let c = env.extend(0);
    assert_eq!((a, b, c), (1, 2, 3));
    assert_eq!(env.len(), 4);
    env.set(a, "x".to_string(), integer(10));
    env.set(b, "z".to_string(), integer(30));
    assert_eq!(env.get(b, "x"), Some(integer(10)));
    assert_eq!(env.get(b, "y"), Some(integer(2)));
    assert_eq!(env.get(b, "z"), Some(integer(30)));
    assert_eq!(env.get(a, "z"), None);
    assert_eq!(env.get(c, "x"), Some(integer(1)));
    assert_eq!(env.get(c, "z"), None);
}

#[test]
fn shadowing_does_not_leak_outward() {
    let mut env = Env::new();
    env.set(0, "x".to_string(), integer(10));
    let child = env.extend(0);
    env.set(child, "x".to_string(), integer(20));
    env.set(child, "y".to_string(), integer(30));
    assert_eq!(env.get(child, "x"), Some(integer(20)));
    assert_eq!(env.get(0, "x"), Some(integer(10)));
    assert_eq!(env.get(0, "y"), None);
}

#[test]
fn a_later_binding_in_the_parent_is_seen_by_the_child() {
    let mut env = Env::new();
    let child = env.extend(0);
    assert_eq!(env.get(child, "f"), None);
    env.set(0, "f".to_string(), integer(5));
    assert_eq!(env.get(child, "f"), Some(integer(5)));
}

#[test]
fn a_handle_of_no_scope_finds_nothing() {
    let mut env = Env::new();
    env.set(0, "x".to_string(), integer(1));
    assert_eq!(env.get(1, "x"), None);
    assert_eq!(env.get(usize::MAX, "x"), None);
}

#[test]
fn closures_of_younger_scopes_are_found() {
    let closure = |scope: usize| Object::Lambda(vec![], vec![], scope);
    assert!(!integer(1).holds_scope(0));
    assert!(!Object::ListData(vec![integer(1), Object::Void]).holds_scope(0));
    assert!(closure(3).holds_scope(3));
    assert!(closure(3).holds_scope(0));
    assert!(!closure(3).holds_scope(4));
    assert!(Object::ListData(vec![integer(1), closure(2)]).holds_scope(2));
    assert!(!Object::ListData(vec![integer(1), closure(2)]).holds_scope(3));
    assert!(Object::List(vec![Object::ListData(vec![closure(5)])]).holds_scope(5));
    // A closure in the body of a closure counts.
    assert!(Object::Lambda(vec![], vec![integer(1), closure(7)], 0).holds_scope(7));
    assert!(!Object::Lambda(vec![], vec![integer(1), closure(7)], 0).holds_scope(8));
}

#[test]
fn release_discards_the_younger_scopes() {
    let mut env = Env::new();
    env.set(0, "x".to_string(), integer(1));
    let a = env.extend(0);
    let b = env.extend(a);
    env.set(a, "y".to_string(), integer(2));
    env.set(b, "f".to_string(), Object::Lambda(vec![], vec![], b));
    env.set(0, "z".to_string(), integer(3));
    assert_eq!(env.len(), 3);
    assert!(env.release(1));
    assert_eq!(env.len(), 1);
    assert_eq!(env.get(0, "x"), Some(integer(1)));
    assert_eq!(env.get(0, "z"), Some(integer(3)));
    assert_eq!(env.get(0, "y"), None);
    // The handle is given out again.
    assert_eq!(env.extend(0), 1);
    assert_eq!(env.get(1, "y"), None);
}

#[test]
fn release_keeps_a_scope_that_a_closure_holds() {
    let mut env = Env::new();
    let a = env.extend(0);
    let b = env.extend(a);
    env.set(a, "n".to_string(), integer(5));
    env.set(0, "f".to_string(), Object::ListData(vec![Object::Lambda(vec![], vec![], a)]));
    assert!(!env.release(1));
    assert_eq!(env.len(), 3);
    assert_eq!(env.get(a, "n"), Some(integer(5)));
    // The closure was made in scope 1: the scopes from 2 on can go.
    assert!(env.release(2));
    assert_eq!(env.len(), 2);
    assert_eq!(b, 2);
    // A closure held by a scope that goes does not keep it.
    env.set(a, "g".to_string(), Object::Lambda(vec![], vec![], a));
    env.set(0, "f".to_string(), integer(0));
    assert!(env.release(1));
    assert_eq!(env.len(), 1);
}

#[test]
fn release_of_nothing() {
    let mut env = Env::new();
    assert!(env.release(1));
    assert_eq!(env.len(), 1);
    assert!(!env.release(2));
    assert_eq!(env.len(), 1);
    assert!(env.release(0));
    assert_eq!(env.len(), 0);
    assert_eq!(env.get(0, "x"), None);
}
