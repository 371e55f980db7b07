use lib::ast::{ClassSpec, Mutability, Visibility, AST};
use lib::export::{build_index, build_index_node, class_spec_type, exports_typed, unparse_type};
use lib::text::{int_to_string, join_strings};
use lib::types::{Abi, Type};

fn s(x: &str) -> String {
    x.to_string()
}

fn concrete(x: &str) -> Type {
    Type::Concrete(s(x))
}

#[test]
fn unparse_simple_types() {
    assert_eq!(unparse_type(&concrete("Int")), s("Int"));
    assert_eq!(unparse_type(&Type::Variable(s("a"))), s("'a"));
    assert_eq!(unparse_type(&Type::Ref(Box::new(concrete("Int")))), s("ref Int"));
}

#[test]
fn unparse_objects() {
    assert_eq!(unparse_type(&Type::Object(s("Foo"), vec![])), s("Foo"));
    assert_eq!(
        unparse_type(&Type::Object(s("Map"), vec![concrete("String"), Type::Variable(s("v"))])),
        s("Map<String, 'v>")
    );
}

#[test]
fn unparse_compound_types() {
    assert_eq!(unparse_type(&Type::Tuple(vec![concrete("Int"), concrete("Real")])), s("(Int, Real)"));
    assert_eq!(unparse_type(&Type::Tuple(vec![])), s("()"));
    assert_eq!(
        unparse_type(&Type::Record(vec![(s("a"), concrete("Int")), (s("b"), concrete("Real"))])),
        s("{ a: Int, b: Real }")
    );
    assert_eq!(unparse_type(&Type::Ambiguous(vec![concrete("Int"), concrete("Real")])), s("Ambiguous[Int, Real]"));
}

#[test]
fn unparse_function_types() {
    let f = Type::Function(vec![concrete("Int")], Box::new(concrete("Int")), Abi::Molten);
    assert_eq!(unparse_type(&f), s("(Int) -> Int"));
    let c = Type::Function(vec![concrete("Int"), concrete("Real")], Box::new(concrete("Int")), Abi::C);
    assert_eq!(unparse_type(&c), s("(Int, Real) -> Int / C"));
    let higher = Type::Function(vec![f], Box::new(Type::Tuple(vec![])), Abi::Molten);
    assert_eq!(unparse_type(&higher), s("((Int) -> Int) -> ()"));
}

#[test]
fn class_spec_as_type() {
    let spec = ClassSpec { name: s("List"), types: vec![Type::Variable(s("a"))] };
    assert_eq!(class_spec_type(&spec), Type::Object(s("List"), vec![Type::Variable(s("a"))]));
}

fn func(name: Option<&str>, vis: Visibility, ftype: Option<Type>) -> AST {
    AST::Function(name.map(|n| s(n)), vis, vec![], Box::new(AST::Nil), 0, ftype)
}

#[test]
fn index_of_public_functions() {
    let ftype = Type::Function(vec![concrete("Int")], Box::new(concrete("Int")), Abi::Molten);
    let code = vec![
        func(Some("foo"), Visibility::Public, Some(ftype)),
        func(Some("bar"), Visibility::Private, None),
        func(None, Visibility::Public, None),
        AST::Integer(3),
    ];
    assert_eq!(build_index(&code), s("decl foo : (Int) -> Int\n"));
}

#[test]
fn index_of_class() {
    let spec = ClassSpec { name: s("Foo"), types: vec![Type::Variable(s("a"))] };
    let parent = ClassSpec { name: s("Bar"), types: vec![] };
    let get_type = Type::Function(
        vec![Type::Object(s("Foo"), vec![Type::Variable(s("a"))])],
        Box::new(concrete("Int")),
        Abi::Molten,
    );
    let class = AST::Class(
        spec,
        Some(parent),
        vec![
            AST::Definition(Mutability::Mutable, s("x"), Some(concrete("Int")), Box::new(AST::Nil)),
            AST::Definition(Mutability::Immutable, s("y"), Some(concrete("Real")), Box::new(AST::Nil)),
            func(Some("get"), Visibility::Public, Some(get_type)),
            func(Some("hidden"), Visibility::Private, None),
            AST::Nil,
        ],
        0,
    );
    let code = vec![class];
    assert_eq!(
        build_index(&code),
        s("class Foo<'a> extends Bar {\n    let mut x : Int\n    let y : Real\n    decl get : (Foo<'a>) -> Int\n}\n")
    );
}

#[test]
fn index_of_class_definition() {
    let class = AST::Class(ClassSpec { name: s("Unit"), types: vec![] }, None, vec![], 0);
    let def = AST::Definition(Mutability::Immutable, s("Unit"), None, Box::new(class));
    let other = AST::Definition(Mutability::Immutable, s("n"), None, Box::new(AST::Integer(1)));
    let mut index = s("start\n");
    build_index_node(&mut index, &def);
    build_index_node(&mut index, &other);
    assert_eq!(index, s("start\nclass Unit {\n}\n"));
}

#[test]
fn integer_text() {
    assert_eq!(int_to_string(0), s("0"));
    assert_eq!(int_to_string(1234567890), s("1234567890"));
    assert_eq!(int_to_string(-7), s("-7"));
    assert_eq!(int_to_string(i64::MAX), s("9223372036854775807"));
    assert_eq!(int_to_string(i64::MIN), s("-9223372036854775808"));
}

#[test]
fn join_text() {
    assert_eq!(join_strings(&vec![], ", "), s(""));
    assert_eq!(join_strings(&vec![s("a")], ", "), s("a"));
    assert_eq!(join_strings(&vec![s("a"), s("b"), s("c")], ", "), s("a, b, c"));
}

#[test]
fn unparse_c_function_declaration() {
    let f = Type::Function(vec![concrete("Int")], Box::new(concrete("Int")), Abi::C);
    assert_eq!(unparse_type(&f), s("(Int) -> Int / C"));
}

#[test]
fn index_of_parts_concatenates() {
    let ftype = || Type::Function(vec![concrete("Int")], Box::new(concrete("Int")), Abi::Molten);
    let gtype = || Type::Function(vec![], Box::new(concrete("Bool")), Abi::Molten);
    let a = || vec![func(Some("foo"), Visibility::Public, Some(ftype())), AST::Integer(1)];
    let b = || vec![func(Some("bar"), Visibility::Public, Some(gtype()))];
    let mut ab = a();
    ab.extend(b());
    assert_eq!(build_index(&ab), build_index(&a()) + &build_index(&b()));
    assert_eq!(build_index(&vec![]), s(""));
    let untyped = || vec![func(Some("baz"), Visibility::Public, None)];
    let mut ac = a();
    ac.extend(untyped());
    assert!(exports_typed(&a()));
    assert!(!exports_typed(&untyped()));
    assert!(!exports_typed(&ac));
}
