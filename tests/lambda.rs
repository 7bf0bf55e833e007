use inet::ast::Expression;
use inet::binding::{Binding, Symbol};
use std::rc::Rc;

fn var(name: &str) -> Expression {
    Expression::Variable { ident: name.to_string() }
}

fn app(f: Expression, a: Expression) -> Expression {
    Expression::Application { function: Box::new(f), argument: Box::new(a) }
}

fn lam(arg: &str, body: Expression) -> Expression {
    Expression::Lambda { argument: arg.to_string(), body: Box::new(body) }
}

fn names(e: &Expression) -> Vec<String> {
    e.free_variables().into_iter().cloned().collect()
}

#[test]
fn free_variable_of_a_variable() {
    assert_eq!(names(&var("a")), vec!["a".to_string()]);
}

#[test]
fn application_lists_function_first_without_repeats() {
    let e = app(app(var("a"), var("b")), app(var("a"), var("c")));
    assert_eq!(names(&e), vec!["a".to_string(), "b".to_string(), "c".to_string()]);
}

#[test]
fn lambda_binds_its_argument() {
    let e = lam("x", app(var("x"), var("y")));
    assert_eq!(names(&e), vec!["y".to_string()]);
    let closed = lam("x", lam("y", app(var("x"), var("y"))));
    assert!(names(&closed).is_empty());
}

fn scope(names: &[&str]) -> Binding {
    let mut outer: Option<Rc<Binding>> = None;
    let mut last: Option<Binding> = None;
    for (i, n) in names.iter().enumerate() {
        if let Some(b) = last.take() {
            outer = Some(Rc::new(b));
        }
        last = Some(Binding {
            symbol: Rc::new(Symbol { ident: n.to_string(), ref_count: i as u16 }),
            outer: outer.clone(),
        });
    }
    last.unwrap()
}

#[test]
fn find_symbol_walks_outward() {
    let b = scope(&["a", "b", "c"]);
    let s = b.find_symbol("a").unwrap();
    assert_eq!(s.ident, "a");
    assert_eq!(s.ref_count, 0);
    assert_eq!(b.find_symbol("c").unwrap().ref_count, 2);
    assert!(b.find_symbol("d").is_none());
}

#[test]
fn find_symbol_prefers_innermost() {
    let b = scope(&["x", "y", "x"]);
    assert_eq!(b.find_symbol("x").unwrap().ref_count, 2);
    assert!(Rc::ptr_eq(&b.find_symbol("x").unwrap(), &b.symbol));
}
