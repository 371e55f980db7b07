use lib::ast::{Mutability, Visibility, AST};
use lib::compiler_c::{add_terminator, compile, compiles, CompilerData};
use lib::types::{Abi, Type};

fn s(x: &str) -> String {
    x.to_string()
}

fn int_type() -> Type {
    Type::Concrete(s("Int"))
}

fn ident(x: &str) -> AST {
    AST::Identifier(s(x))
}

#[test]
fn builtin_binary_operator() {
    let r = CompilerData::compile_builtin(&s("+"), &vec![s("1"), s("2")]);
    assert_eq!(r, Some(s("(1 + 2)")));
    let r = CompilerData::compile_builtin(&s("<="), &vec![s("a"), s("b")]);
    assert_eq!(r, Some(s("(a <= b)")));
}

#[test]
fn builtin_logical_operators() {
    assert_eq!(CompilerData::compile_builtin(&s("and"), &vec![s("a"), s("b")]), Some(s("(a && b)")));
    assert_eq!(CompilerData::compile_builtin(&s("or"), &vec![s("a"), s("b")]), Some(s("(a || b)")));
    assert_eq!(CompilerData::compile_builtin(&s("not"), &vec![s("a")]), Some(s("!(a)")));
}

#[test]
fn builtin_unknown_name() {
    assert_eq!(CompilerData::compile_builtin(&s("print"), &vec![s("a")]), None);
    assert_eq!(CompilerData::compile_builtin(&s("^"), &vec![]), None);
}

#[test]
fn terminator_added_when_second_to_last_is_not_semicolon() {
    assert_eq!(add_terminator(s("x = 1")), s("x = 1;"));
    assert_eq!(add_terminator(s("ab;")), s("ab;;"));
}

#[test]
fn terminator_kept_when_second_to_last_is_semicolon() {
    assert_eq!(add_terminator(s("a;\n")), s("a;\n"));
    assert_eq!(add_terminator(s(";x")), s(";x"));
}

#[test]
fn compile_literals() {
    let mut data = CompilerData::new();
    assert_eq!(data.compile_node(0, &AST::Nil, false), s("NULL"));
    assert_eq!(data.compile_node(0, &AST::Boolean(true), false), s("1"));
    assert_eq!(data.compile_node(0, &AST::Boolean(false), false), s("0"));
    assert_eq!(data.compile_node(0, &AST::Integer(-42), false), s("-42"));
    assert_eq!(data.compile_node(0, &AST::Integer(i64::MIN), false), s("-9223372036854775808"));
    assert_eq!(data.compile_node(0, &AST::String(s("\"hi\"")), false), s("\"hi\""));
    assert_eq!(data.compile_node(0, &ident("x"), false), s("x"));
}

#[test]
fn compile_last_value_is_returned() {
    let mut data = CompilerData::new();
    assert_eq!(data.compile_node(0, &AST::Integer(7), true), s("return 7;"));
}

#[test]
fn compile_unsupported_node_is_empty() {
    let mut data = CompilerData::new();
    assert_eq!(data.compile_node(0, &AST::List(vec![AST::Integer(1)]), false), s(""));
    assert_eq!(data.compile_node(0, &AST::Import(s("core")), true), s("return ;"));
}

#[test]
fn compile_invoke() {
    let mut data = CompilerData::new();
    let add = AST::Invoke(s("+"), vec![AST::Integer(1), AST::Integer(2)]);
    assert_eq!(data.compile_node(0, &add, false), s("(1 + 2)"));
    let call = AST::Invoke(s("print"), vec![AST::String(s("x")), ident("y")]);
    assert_eq!(data.compile_node(0, &call, false), s("print(x, y)"));
    let nested = AST::Invoke(s("not"), vec![AST::Invoke(s("=="), vec![ident("a"), ident("b")])]);
    assert_eq!(data.compile_node(0, &nested, false), s("!((a == b))"));
}

#[test]
fn compile_definitions() {
    let mut data = CompilerData::new();
    let def = AST::Definition(Mutability::Immutable, s("x"), Some(int_type()), Box::new(AST::Integer(5)));
    assert_eq!(data.compile_node(0, &def, false), s("int x = 5"));
    let def = AST::Definition(Mutability::Mutable, s("r"), Some(Type::Concrete(s("Real"))), Box::new(ident("y")));
    assert_eq!(data.compile_node(0, &def, false), s("double r = y"));
    let def = AST::Definition(Mutability::Immutable, s("t"), Some(Type::Variable(s("a"))), Box::new(ident("y")));
    assert_eq!(data.compile_node(0, &def, false), s("int t = y"));
    let def = AST::Definition(Mutability::Immutable, s("o"), Some(Type::Tuple(vec![])), Box::new(ident("y")));
    assert_eq!(data.compile_node(0, &def, false), s("UNKNOWN o = y"));
    let def = AST::Definition(Mutability::Immutable, s("q"), Some(Type::Concrete(s("Foo"))), Box::new(ident("y")));
    assert_eq!(data.compile_node(0, &def, false), s("UNKNOWN q = y"));
}

#[test]
fn compile_function_pointer_definition() {
    let mut data = CompilerData::new();
    let ftype = Type::Function(vec![int_type(), Type::Concrete(s("Real"))], Box::new(Type::Concrete(s("String"))), Abi::Molten);
    let def = AST::Definition(Mutability::Immutable, s("f"), Some(ftype), Box::new(ident("g")));
    assert_eq!(data.compile_node(0, &def, false), s("char *  (*f)(int , double ) = g"));
}

#[test]
fn compile_if() {
    let mut data = CompilerData::new();
    let node = AST::If(Box::new(AST::Boolean(true)), Box::new(AST::Integer(1)), Box::new(AST::Integer(2)));
    assert_eq!(data.compile_node(0, &node, false), s("    if (1) {\n        1\n    } else {\n        2\n    }"));
    assert_eq!(
        data.compile_node(0, &node, true),
        s("return     if (1) {\n        return 1;\n    } else {\n        return 2;\n    };")
    );
}

#[test]
fn compile_while() {
    let mut data = CompilerData::new();
    let node = AST::While(Box::new(ident("c")), Box::new(AST::Invoke(s("f"), vec![])));
    assert_eq!(data.compile_node(0, &node, false), s("while (c) {\n        f();\n    }"));
}

#[test]
fn compile_match() {
    let mut data = CompilerData::new();
    let node = AST::Match(
        Box::new(ident("x")),
        vec![(AST::Integer(1), AST::String(s("a"))), (AST::Integer(2), AST::String(s("b")))],
    );
    assert_eq!(
        data.compile_node(0, &node, false),
        s("switch (x) {\n      case 1:\n        a\n        break;\n      case 2:\n        b\n        break;\n    }")
    );
}

#[test]
fn compile_vec_leaves_out_the_last_statement() {
    let mut data = CompilerData::new();
    let code = vec![AST::Integer(1), AST::Integer(2), AST::Integer(3)];
    assert_eq!(data.compile_vec(0, &code, true), s("    1;\n    2;\n"));
    let one = vec![AST::Integer(1)];
    assert_eq!(data.compile_vec(0, &one, true), s(""));
}

#[test]
fn compile_function_is_lifted() {
    let mut data = CompilerData::new();
    let func = AST::Function(
        None,
        Visibility::Public,
        vec![(s("x"), Some(int_type()), None)],
        Box::new(ident("x")),
        0,
        None,
    );
    assert_eq!(data.compile_node(0, &func, false), s("func1"));
    assert_eq!(data.compile_node(0, &func, true), s("return func2;"));
}

#[test]
fn compile_program() {
    let func = AST::Function(
        None,
        Visibility::Public,
        vec![(s("x"), Some(int_type()), None), (s("y"), Some(int_type()), None)],
        Box::new(AST::Invoke(s("+"), vec![ident("x"), ident("y")])),
        0,
        None,
    );
    let ftype = Type::Function(vec![int_type(), int_type()], Box::new(int_type()), Abi::Molten);
    let code = vec![
        AST::Definition(Mutability::Immutable, s("add"), Some(ftype), Box::new(func)),
        AST::Definition(Mutability::Immutable, s("n"), Some(int_type()), Box::new(AST::Invoke(s("add"), vec![AST::Integer(1), AST::Integer(2)]))),
        AST::Nil,
    ];
    let expected = "int func1(int x, int y) {\nreturn (x + y);\n}\n\n\
                    int main(int argc, void **argv) {\n    int  (*add)(int , int ) = func1;\n    int n = add(1, 2);\n\n}";
    assert_eq!(compile(0, &code), s(expected));
}

#[test]
fn compile_nested_functions_number_inner_first() {
    let inner = AST::Function(None, Visibility::Public, vec![], Box::new(AST::Integer(1)), 0, None);
    let outer = AST::Function(None, Visibility::Public, vec![], Box::new(inner), 0, None);
    let code = vec![outer, AST::Nil];
    let expected = "int func1() {\nreturn 1;\n}\n\nint func2() {\nreturn func1;\n}\n\n\
                    int main(int argc, void **argv) {\n    func2;\n\n}";
    assert_eq!(compile(0, &code), s(expected));
}

#[test]
fn compile_restores_indentation() {
    let mut data = CompilerData::new();
    let node = AST::If(Box::new(AST::Boolean(true)), Box::new(AST::Integer(1)), Box::new(AST::Integer(2)));
    data.compile_node(0, &node, false);
    let code = vec![AST::Integer(1), AST::Nil];
    assert_eq!(data.compile_vec(0, &code, false), s("    1;\n"));
}

#[test]
fn compiles_accepts_what_compile_takes() {
    assert!(compiles(&vec![AST::Integer(1), AST::Integer(2)]));
    assert!(compiles(&vec![AST::Integer(1)]));
    let f = AST::Function(None, Visibility::Public, vec![(s("x"), Some(int_type()), None)], Box::new(ident("x")), 0, None);
    assert!(compiles(&vec![f, AST::Nil]));
}

#[test]
fn compiles_refuses_what_compile_panics_on() {
    assert!(!compiles(&vec![]));
    let untyped_def = AST::Definition(Mutability::Immutable, s("x"), None, Box::new(AST::Integer(1)));
    assert!(!compiles(&vec![untyped_def, AST::Nil]));
    let untyped_arg = AST::Function(None, Visibility::Public, vec![(s("x"), None, None)], Box::new(ident("x")), 0, None);
    assert!(!compiles(&vec![untyped_arg, AST::Nil]));
    let short_call = AST::Invoke(s("+"), vec![AST::Integer(1)]);
    assert!(!compiles(&vec![short_call, AST::Nil]));
    let empty_block = AST::Block(vec![]);
    assert!(!compiles(&vec![empty_block, AST::Nil]));
    let short_body = AST::While(Box::new(AST::Boolean(true)), Box::new(AST::Integer(1)));
    assert!(!compiles(&vec![short_body, AST::Nil]));
}

#[test]
fn lifted_functions_numbered_in_order() {
    let f1 = AST::Function(None, Visibility::Public, vec![], Box::new(AST::Integer(1)), 0, None);
    let f2 = AST::Function(None, Visibility::Public, vec![], Box::new(AST::Integer(2)), 0, None);
    let f3 = AST::Function(None, Visibility::Public, vec![], Box::new(AST::Integer(3)), 0, None);
    let mut data = CompilerData::new();
    assert_eq!(data.compile_node(0, &f1, false), s("func1"));
    assert_eq!(data.compile_node(0, &f2, false), s("func2"));
    let code = vec![f3, AST::Nil];
    let out = compile(0, &code);
    assert!(out.starts_with("int func1() {\nreturn 3;\n}"));
}

#[test]
fn statements_share_the_starting_indentation() {
    let mut data = CompilerData::new();
    let code = vec![
        AST::If(Box::new(AST::Boolean(true)), Box::new(AST::Integer(1)), Box::new(AST::Integer(2))),
        AST::Integer(3),
        AST::Nil,
    ];
    let out = data.compile_vec(0, &code, false);
    assert_eq!(out, s("        if (1) {\n        1\n    } else {\n        2\n    };\n    3;\n"));
}

#[test]
fn try_compile_checks_nodes_and_lists() {
    let mut data = CompilerData::new();
    assert_eq!(data.try_compile_node(0, &AST::Integer(7), true), Some(s("return 7;")));
    let untyped = AST::Definition(Mutability::Immutable, s("x"), None, Box::new(AST::Integer(1)));
    assert_eq!(data.try_compile_node(0, &untyped, false), None);
    assert_eq!(data.try_compile_node(0, &AST::Invoke(s("not"), vec![]), false), None);
    assert_eq!(data.try_compile_vec(0, &vec![], false), None);
    assert_eq!(data.try_compile_vec(0, &vec![AST::Integer(1), AST::Nil], false), Some(s("    1;\n")));
}
