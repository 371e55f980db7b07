use lib::ast::{ClassSpec, Mutability, Visibility, AST};
use lib::scope::{bind_names, bind_names_vec, can_define_check, make_global, names_bind, typevar_possible, Scope, ScopeTable, Symbol, Value};
use lib::types::{Abi, Type};
use std::rc::Rc;

fn s(x: &str) -> String {
    x.to_string()
}

fn concrete(x: &str) -> Type {
    Type::Concrete(s(x))
}

fn var(x: &str) -> Type {
    Type::Variable(s(x))
}

fn ident(x: &str) -> AST {
    AST::Identifier(s(x))
}

#[test]
fn global_scope_sees_builtins() {
    let mut t = ScopeTable::new();
    let g = make_global(&mut t);
    assert_eq!(g, 1);
    assert_eq!(t.len(), 2);
    assert_eq!(Scope::get_parent(&t, g), Some(0));
    assert_eq!(Scope::get_parent(&t, 0), None);
    let plus = Scope::find(&t, g, &s("+")).unwrap();
    assert_eq!(plus.ttype, Type::Function(vec![var("a"), var("a")], Box::new(var("a")), Abi::Molten));
    assert_eq!(plus.value, None);
    let lt = Scope::find(&t, g, &s("<")).unwrap();
    assert_eq!(lt.ttype, Type::Function(vec![var("a"), var("a")], Box::new(concrete("Bool")), Abi::Molten));
    let not = Scope::find(&t, g, &s("not")).unwrap();
    assert_eq!(not.ttype, Type::Function(vec![concrete("Int")], Box::new(concrete("Bool")), Abi::Molten));
    let tilde = Scope::find(&t, g, &s("~")).unwrap();
    assert_eq!(tilde.ttype, Type::Function(vec![concrete("Int")], Box::new(concrete("Int")), Abi::Molten));
    assert_eq!(Scope::find_type(&t, g, &s("Real")), Some(concrete("Real")));
    assert_eq!(Scope::find(&t, g, &s("print")), None);
    assert!(Scope::contains_type(&t, 0, &s("Class")));
    assert!(!Scope::contains_type(&t, g, &s("Class")));
}

#[test]
fn define_then_find() {
    let mut t = ScopeTable::new();
    let g = make_global(&mut t);
    Scope::define(&mut t, g, s("x"), Some(concrete("Int")));
    assert_eq!(Scope::find(&t, g, &s("x")), Some(Rc::new(Symbol { ttype: concrete("Int"), value: None })));
    assert_eq!(Scope::find(&t, 0, &s("x")), None);
}

#[test]
fn define_without_type_makes_fresh_type_variables() {
    let mut t = ScopeTable::new();
    let g = make_global(&mut t);
    Scope::define(&mut t, g, s("x"), None);
    Scope::define(&mut t, g, s("y"), None);
    assert_eq!(Scope::find(&t, g, &s("x")).unwrap().ttype, var("a"));
    assert_eq!(Scope::find(&t, g, &s("y")).unwrap().ttype, var("b"));
    assert_eq!(Scope::find_type(&t, g, &s("a")), Some(var("a")));
    assert!(Scope::contains_type(&t, g, &s("b")));
}

#[test]
fn new_typevar_skips_visible_names() {
    let mut t = ScopeTable::new();
    let root = Scope::new_ref(&mut t, None);
    let inner = Scope::new_ref(&mut t, Some(root));
    Scope::define_type(&mut t, root, s("a"), concrete("Int"));
    Scope::define_type(&mut t, inner, s("b"), concrete("Int"));
    assert_eq!(Scope::new_typevar(&mut t, inner), var("c"));
    assert_eq!(Scope::find_type(&t, inner, &s("c")), Some(var("c")));
    assert_eq!(Scope::find_type(&t, root, &s("c")), None);
}

#[test]
fn inner_definition_shadows_outer() {
    let mut t = ScopeTable::new();
    let g = make_global(&mut t);
    let child = Scope::new_ref(&mut t, Some(g));
    Scope::define(&mut t, g, s("x"), Some(concrete("Int")));
    assert_eq!(Scope::find(&t, child, &s("x")).unwrap().ttype, concrete("Int"));
    Scope::define(&mut t, child, s("x"), Some(concrete("Bool")));
    assert_eq!(Scope::find(&t, child, &s("x")).unwrap().ttype, concrete("Bool"));
    assert_eq!(Scope::find(&t, g, &s("x")).unwrap().ttype, concrete("Int"));
}

#[test]
fn update_type_changes_nearest_definition() {
    let mut t = ScopeTable::new();
    let g = make_global(&mut t);
    let child = Scope::new_ref(&mut t, Some(g));
    Scope::update_type(&mut t, child, &s("Int"), concrete("Integer"));
    assert_eq!(Scope::find_type(&t, g, &s("Int")), Some(concrete("Integer")));
    assert!(Scope::contains_type(&t, 0, &s("Int")));
    Scope::update_type(&mut t, child, &s("Missing"), concrete("Int"));
    assert_eq!(Scope::find_type(&t, child, &s("Missing")), None);
}

#[test]
fn assign_keeps_type() {
    let mut t = ScopeTable::new();
    let g = make_global(&mut t);
    Scope::define(&mut t, g, s("x"), Some(concrete("Int")));
    Scope::assign(&mut t, g, &s("x"), Value::Integer(5));
    assert_eq!(Scope::find(&t, g, &s("x")), Some(Rc::new(Symbol { ttype: concrete("Int"), value: Some(Value::Integer(5)) })));
    Scope::assign(&mut t, g, &s("x"), Value::String(s("five")));
    assert_eq!(Scope::find(&t, g, &s("x")).unwrap().value, Some(Value::String(s("five"))));
}

#[test]
fn update_and_swap_variable_type() {
    let mut t = ScopeTable::new();
    let g = make_global(&mut t);
    Scope::define(&mut t, g, s("x"), Some(concrete("Int")));
    Scope::assign(&mut t, g, &s("x"), Value::Boolean(true));
    Scope::update_variable_type(&mut t, g, &s("x"), concrete("Bool"));
    assert_eq!(Scope::find(&t, g, &s("x")), Some(Rc::new(Symbol { ttype: concrete("Bool"), value: Some(Value::Boolean(true)) })));
    Scope::swap_variable_type(&mut t, g, &s("x"), &|ty: Type| Type::Ref(Box::new(ty)));
    assert_eq!(Scope::find(&t, g, &s("x")).unwrap().ttype, Type::Ref(Box::new(concrete("Bool"))));
}

#[test]
fn swap_type_applies_function() {
    let mut t = ScopeTable::new();
    let g = make_global(&mut t);
    Scope::swap_type(&mut t, 0, &s("Bool"), &|ty: Type| Type::Tuple(vec![ty]));
    assert_eq!(Scope::find_type(&t, g, &s("Bool")), Some(Type::Tuple(vec![concrete("Bool")])));
}

#[test]
fn set_parent_links_scopes() {
    let mut t = ScopeTable::new();
    let a = Scope::new_ref(&mut t, None);
    let b = Scope::new_ref(&mut t, None);
    Scope::define(&mut t, a, s("x"), Some(concrete("Int")));
    assert_eq!(Scope::find(&t, b, &s("x")), None);
    Scope::set_parent(&mut t, b, a);
    assert_eq!(Scope::get_parent(&t, b), Some(a));
    assert_eq!(Scope::find(&t, b, &s("x")).unwrap().ttype, concrete("Int"));
}

#[test]
fn new_scope_is_empty() {
    let scope = Scope::new(Some(3));
    assert!(scope.names.is_empty());
    assert!(scope.types.is_empty());
    assert_eq!(scope.parent, Some(3));
}

#[test]
fn bind_names_defines_and_links_scopes() {
    let mut t = ScopeTable::new();
    let fscope = Scope::new_ref(&mut t, None);
    let lscope = Scope::new_ref(&mut t, None);
    let cscope = Scope::new_ref(&mut t, None);
    let mut code = vec![
        AST::Definition(Mutability::Immutable, s("x"), Some(concrete("Int")), Box::new(AST::Integer(1))),
        AST::Function(
            Some(s("f")),
            Visibility::Public,
            vec![(s("a"), None, None), (s("b"), Some(concrete("Int")), None)],
            Box::new(AST::Invoke(s("+"), vec![ident("a"), ident("x")])),
            fscope,
            None,
        ),
        AST::For(s("i"), Box::new(ident("x")), Box::new(AST::Block(vec![ident("x"), ident("i")])), lscope),
        AST::Class(
            ClassSpec { name: s("Point"), types: vec![] },
            None,
            vec![AST::Definition(Mutability::Mutable, s("px"), Some(concrete("Int")), Box::new(ident("x")))],
            cscope,
        ),
    ];
    let g = bind_names(&mut t, &mut code);
    assert_eq!(g, 4);
    assert_eq!(Scope::find(&t, g, &s("x")).unwrap().ttype, concrete("Int"));
    assert_eq!(Scope::get_parent(&t, fscope), Some(g));
    assert_eq!(Scope::find(&t, fscope, &s("a")).unwrap().ttype, var("a"));
    assert_eq!(Scope::find(&t, fscope, &s("b")).unwrap().ttype, concrete("Int"));
    assert_eq!(Scope::find(&t, fscope, &s("x")).unwrap().ttype, concrete("Int"));
    assert_eq!(Scope::get_parent(&t, lscope), Some(g));
    assert_eq!(Scope::find(&t, lscope, &s("i")).unwrap().ttype, var("a"));
    assert_eq!(Scope::find(&t, g, &s("i")), None);
    assert_eq!(Scope::find(&t, g, &s("Point")).unwrap().ttype, concrete("Class"));
    assert_eq!(Scope::get_parent(&t, cscope), Some(g));
    assert_eq!(Scope::find(&t, cscope, &s("px")).unwrap().ttype, concrete("Int"));
    assert_eq!(code.len(), 4);
}

#[test]
fn for_body_sees_loop_variable() {
    let mut t = ScopeTable::new();
    let g = make_global(&mut t);
    let lscope = Scope::new_ref(&mut t, None);
    let mut code = vec![AST::For(
        s("i"),
        Box::new(AST::List(vec![AST::Integer(1), AST::Integer(2), AST::Integer(3)])),
        Box::new(ident("i")),
        lscope,
    )];
    bind_names_vec(&mut t, g, &mut code);
    assert_eq!(Scope::get_parent(&t, lscope), Some(g));
    assert!(Scope::find(&t, lscope, &s("i")).is_some());
    assert_eq!(Scope::find(&t, g, &s("i")), None);
}

#[test]
fn bind_names_vec_in_given_scope() {
    let mut t = ScopeTable::new();
    let g = make_global(&mut t);
    let mut code = vec![
        AST::Definition(Mutability::Immutable, s("y"), None, Box::new(AST::Integer(2))),
        AST::If(Box::new(ident("y")), Box::new(ident("y")), Box::new(AST::Nil)),
    ];
    bind_names_vec(&mut t, g, &mut code);
    assert_eq!(Scope::find(&t, g, &s("y")).unwrap().ttype, var("a"));
}

#[test]
fn define_keeps_other_names() {
    let mut t = ScopeTable::new();
    let g = make_global(&mut t);
    let child = Scope::new_ref(&mut t, Some(g));
    Scope::define(&mut t, g, s("x"), Some(concrete("Int")));
    let before = Scope::find(&t, child, &s("x"));
    Scope::define(&mut t, child, s("y"), Some(concrete("Real")));
    Scope::define(&mut t, g, s("z"), None);
    assert_eq!(Scope::find(&t, child, &s("x")), before);
    assert_eq!(Scope::find(&t, child, &s("+")).unwrap().ttype, Scope::find(&t, 0, &s("+")).unwrap().ttype);
}

#[test]
fn define_type_then_find_type() {
    let mut t = ScopeTable::new();
    let root = Scope::new_ref(&mut t, None);
    let inner = Scope::new_ref(&mut t, Some(root));
    Scope::define_type(&mut t, root, s("Num"), concrete("Int"));
    assert_eq!(Scope::find_type(&t, inner, &s("Num")), Some(concrete("Int")));
    Scope::define_type(&mut t, inner, s("Num"), concrete("Real"));
    assert_eq!(Scope::find_type(&t, inner, &s("Num")), Some(concrete("Real")));
    assert_eq!(Scope::find_type(&t, root, &s("Num")), Some(concrete("Int")));
}

#[test]
fn binding_only_adds_definitions() {
    let mut t = ScopeTable::new();
    let g = make_global(&mut t);
    Scope::define(&mut t, g, s("x"), Some(concrete("Int")));
    Scope::assign(&mut t, g, &s("x"), Value::Integer(1));
    let mut code = vec![
        AST::Definition(Mutability::Immutable, s("w"), None, Box::new(ident("x"))),
        AST::While(Box::new(ident("x")), Box::new(ident("w"))),
    ];
    bind_names_vec(&mut t, g, &mut code);
    assert_eq!(Scope::find(&t, g, &s("x")), Some(Rc::new(Symbol { ttype: concrete("Int"), value: Some(Value::Integer(1)) })));
    assert!(Scope::find(&t, g, &s("w")).is_some());
    assert_eq!(Scope::find_type(&t, 0, &s("Int")), Some(concrete("Int")));
}

#[test]
fn block_defines_in_enclosing_scope() {
    let mut t = ScopeTable::new();
    let g = make_global(&mut t);
    let mut code = vec![AST::Block(vec![
        AST::Definition(Mutability::Immutable, s("z"), Some(concrete("Bool")), Box::new(AST::Boolean(true))),
        AST::Definition(Mutability::Immutable, s("v"), None, Box::new(ident("z"))),
    ])];
    bind_names_vec(&mut t, g, &mut code);
    assert_eq!(Scope::find(&t, g, &s("z")).unwrap().ttype, concrete("Bool"));
    assert_eq!(Scope::find(&t, g, &s("v")).unwrap().ttype, var("a"));
}

#[test]
fn names_bind_follows_order_of_nodes() {
    let mut t = ScopeTable::new();
    let g = make_global(&mut t);
    let def = || AST::Definition(Mutability::Immutable, s("x"), Some(concrete("Int")), Box::new(AST::Integer(1)));
    assert!(!names_bind(&t, g, &vec![ident("x"), def()]));
    assert!(names_bind(&t, g, &vec![def(), ident("x")]));
    assert!(names_bind(&t, g, &vec![def()]));
    assert!(names_bind(&t, g, &vec![ident("+"), AST::Invoke(s("not"), vec![AST::Boolean(true)])]));
    assert!(!names_bind(&t, g, &vec![AST::Invoke(s("print"), vec![])]));
    assert!(!names_bind(&t, g, &vec![def(), def()]));
    assert_eq!(Scope::find(&t, g, &s("x")), None);
    let mut code = vec![def(), ident("x")];
    bind_names_vec(&mut t, g, &mut code);
    assert_eq!(Scope::find(&t, g, &s("x")).unwrap().ttype, concrete("Int"));
}

#[test]
fn names_bind_on_a_cycle_of_scopes() {
    let mut t = ScopeTable::new();
    let a = Scope::new_ref(&mut t, None);
    let b = Scope::new_ref(&mut t, Some(a));
    Scope::set_parent(&mut t, a, b);
    assert!(!names_bind(&t, a, &vec![ident("missing")]));
    Scope::define(&mut t, b, s("x"), Some(concrete("Int")));
    assert!(names_bind(&t, a, &vec![ident("x")]));
    assert_eq!(Scope::find(&t, a, &s("x")).unwrap().ttype, concrete("Int"));
    let mut code = vec![ident("x")];
    bind_names_vec(&mut t, a, &mut code);
}

#[test]
fn type_lookup_and_update_on_a_cycle_of_scopes() {
    let mut t = ScopeTable::new();
    let a = Scope::new_ref(&mut t, None);
    let b = Scope::new_ref(&mut t, Some(a));
    Scope::set_parent(&mut t, a, b);
    Scope::define_type(&mut t, b, s("T"), concrete("Int"));
    assert_eq!(Scope::find_type(&t, a, &s("T")), Some(concrete("Int")));
    Scope::update_type(&mut t, a, &s("T"), concrete("Bool"));
    assert_eq!(Scope::find_type(&t, a, &s("T")), Some(concrete("Bool")));
    assert_eq!(Scope::find_type(&t, b, &s("T")), Some(concrete("Bool")));
    assert!(!Scope::contains_type(&t, a, &s("T")));
}

#[test]
fn changing_a_symbol_leaves_a_found_handle_as_it_was() {
    let mut t = ScopeTable::new();
    let g = make_global(&mut t);
    Scope::define(&mut t, g, s("x"), Some(concrete("Int")));
    let held = Scope::find(&t, g, &s("x")).unwrap();
    Scope::assign(&mut t, g, &s("x"), Value::Integer(5));
    Scope::update_variable_type(&mut t, g, &s("x"), concrete("Bool"));
    Scope::swap_variable_type(&mut t, g, &s("x"), &|ty: Type| Type::Ref(Box::new(ty)));
    assert_eq!(
        Scope::find(&t, g, &s("x")),
        Some(Rc::new(Symbol { ttype: Type::Ref(Box::new(concrete("Bool"))), value: Some(Value::Integer(5)) }))
    );
    assert_eq!(*held, Symbol { ttype: concrete("Int"), value: None });
}

#[test]
fn precondition_checks_are_public() {
    let mut t = ScopeTable::new();
    let g = make_global(&mut t);
    assert!(Scope::search_stops(&t, g, &s("+"), false));
    assert!(Scope::search_stops(&t, g, &s("Int"), true));
    assert!(typevar_possible(&t, g));
    assert!(can_define_check(&t, g, &s("y"), &None));
    Scope::define(&mut t, g, s("y"), Some(concrete("Int")));
    assert!(!can_define_check(&t, g, &s("y"), &Some(concrete("Int"))));
    let a = Scope::new_ref(&mut t, None);
    let b = Scope::new_ref(&mut t, Some(a));
    Scope::set_parent(&mut t, a, b);
    assert!(!Scope::search_stops(&t, a, &s("z"), false));
    assert!(!Scope::search_stops(&t, a, &s("z"), true));
    assert!(!typevar_possible(&t, a));
    assert!(!can_define_check(&t, a, &s("z"), &None));
    assert!(can_define_check(&t, a, &s("z"), &Some(concrete("Int"))));
}

#[test]
fn binding_keeps_the_number_of_scopes() {
    let mut t = ScopeTable::new();
    let g = bind_names(&mut t, &mut vec![AST::Integer(1)]);
    assert_eq!(t.len(), 2);
    bind_names_vec(&mut t, g, &mut vec![AST::Definition(Mutability::Immutable, s("a"), None, Box::new(AST::Nil))]);
    bind_names_vec(&mut t, g, &mut vec![ident("a")]);
    assert_eq!(t.len(), 2);
}
