use vstd::prelude::*;
use crate::ast::AST;
use crate::compiler_c::{
    CompilerState, builtin_ops, builtin_text, vardef_text, comp_node, comp_list, comp_stmts, comp_cases, comp_vec, indented, func_text,
    initial_state, program_text, with_return, with_indent, terminated, lemma_comp_stmts_prefix, lemma_comp_stmts_step,
};
use crate::text::int_text;
use crate::types::TypeView;
use vstd::string::*;

verus! {

/// How the C definition of the lifted function number `n` begins.
pub open spec fn func_head(n: int) -> Seq<char> {
    "int"@ + " func"@ + int_text(n) + "("@
}

/// `b` is a state that compiling can lead to from `a`: the indentation is
/// back where it was, functions were only added, and the added functions
/// took the next numbers in order, the `j`-th added one `func<a.next + j>`.
pub open spec fn keeps(a: CompilerState, b: CompilerState) -> bool {
    &&& b.indent == a.indent
    &&& a.next <= b.next
    &&& b.funcs.len() == a.funcs.len() + (b.next - a.next)
    &&& b.funcs.subrange(0, a.funcs.len() as int) == a.funcs
    &&& forall|j: int| 0 <= j < b.funcs.len() - a.funcs.len()
        ==> func_head(a.next + j).is_prefix_of(#[trigger] b.funcs[a.funcs.len() + j])
}

proof fn lemma_keeps_refl(a: CompilerState)
    ensures
        keeps(a, a),
{
    assert(a.funcs.subrange(0, a.funcs.len() as int) =~= a.funcs);
}

proof fn lemma_keeps_trans(a: CompilerState, b: CompilerState, c: CompilerState)
    requires
        keeps(a, b),
        keeps(b, c),
    ensures
        keeps(a, c),
{
    assert(c.funcs.subrange(0, a.funcs.len() as int) =~= b.funcs.subrange(0, a.funcs.len() as int));
    assert forall|j: int| 0 <= j < c.funcs.len() - a.funcs.len()
        implies func_head(a.next + j).is_prefix_of(#[trigger] c.funcs[a.funcs.len() + j]) by {
        let d = b.funcs.len() - a.funcs.len();
        if j < d {
            assert(c.funcs[a.funcs.len() + j] == c.funcs.subrange(0, b.funcs.len() as int)[a.funcs.len() + j]);
            assert(b.funcs[a.funcs.len() + j] == c.funcs[a.funcs.len() + j]);
        } else {
            let j2 = j - d;
            assert(c.funcs[b.funcs.len() + j2] == c.funcs[a.funcs.len() + j]);
            assert(b.next + j2 == a.next + j);
        }
    }
}

/// A lifted function's definition begins with its head.
proof fn lemma_func_text_head(n: int, params: Seq<char>, body: Seq<char>)
    ensures
        func_head(n).is_prefix_of(func_text(n, params, body)),
{
    let h = func_head(n);
    assert(func_text(n, params, body) =~= h + (params + ") {\n"@ + body + "\n}"@));
    assert(func_text(n, params, body).subrange(0, h.len() as int) =~= h);
}

/// Compiling a node restores the indentation, only adds lifted functions,
/// and numbers the added functions in order from the next number.
pub proof fn law_compile_node_keeps_state(st: CompilerState, node: AST, is_last: bool)
    requires
        comp_node(st, node, is_last) is Some,
    ensures
        keeps(st, comp_node(st, node, is_last).unwrap().0),
    decreases node,
{
    let r = comp_node(st, node, is_last).unwrap().0;
    match node {
        AST::Invoke(_, args) => {
            lemma_comp_list_keeps(st, args@);
        },
        AST::Function(_, _, args, body, _, _) => {
            law_compile_node_keeps_state(st, *body, true);
            let (s1, b) = comp_node(st, *body, true).unwrap();
            assert(r.funcs.subrange(0, s1.funcs.len() as int) =~= s1.funcs);
            lemma_func_text_head(s1.next, crate::text::join(crate::compiler_c::param_texts(args@), ", "@), b);
            assert(r.funcs.len() - s1.funcs.len() == 1);
            assert forall|j: int| 0 <= j < r.funcs.len() - s1.funcs.len()
                implies func_head(s1.next + j).is_prefix_of(#[trigger] r.funcs[s1.funcs.len() + j]) by {
                assert(j == 0);
            }
            assert(keeps(s1, r));
            lemma_keeps_trans(st, s1, r);
        },
        AST::Definition(_, _, _, body) => {
            law_compile_node_keeps_state(st, *body, false);
        },
        AST::Block(body) => {
            lemma_comp_stmts_keeps(st, body@.subrange(0, body.len() - 1));
        },
        AST::If(c, t, f) => {
            let s0 = indented(st);
            law_compile_node_keeps_state(s0, *c, false);
            let s1 = comp_node(s0, *c, false).unwrap().0;
            law_compile_node_keeps_state(s1, *t, is_last);
            let s2 = comp_node(s1, *t, is_last).unwrap().0;
            law_compile_node_keeps_state(s2, *f, is_last);
            let s3 = comp_node(s2, *f, is_last).unwrap().0;
            lemma_keeps_trans(s0, s1, s2);
            lemma_keeps_trans(s0, s2, s3);
        },
        AST::Match(c, cases) => {
            let s0 = indented(st);
            lemma_comp_cases_keeps(s0, cases@, is_last, st.indent);
            let s1 = comp_cases(s0, cases@, is_last, st.indent).unwrap().0;
            law_compile_node_keeps_state(s1, *c, false);
            let s2 = comp_node(s1, *c, false).unwrap().0;
            lemma_keeps_trans(s0, s1, s2);
        },
        AST::While(c, b) => {
            let s0 = indented(st);
            law_compile_node_keeps_state(s0, *c, false);
            let s1 = comp_node(s0, *c, false).unwrap().0;
            law_compile_node_keeps_state(s1, *b, false);
            let s2 = comp_node(s1, *b, false).unwrap().0;
            lemma_keeps_trans(s0, s1, s2);
        },
        _ => {
            lemma_keeps_refl(st);
        },
    }
}

proof fn lemma_comp_list_keeps(st: CompilerState, items: Seq<AST>)
    requires
        comp_list(st, items) is Some,
    ensures
        keeps(st, comp_list(st, items).unwrap().0),
    decreases items,
{
    if items.len() == 0 {
        lemma_keeps_refl(st);
    } else {
        let front = items.subrange(0, items.len() - 1);
        lemma_comp_list_keeps(st, front);
        let s1 = comp_list(st, front).unwrap().0;
        law_compile_node_keeps_state(s1, items[items.len() - 1], false);
        lemma_keeps_trans(st, s1, comp_node(s1, items[items.len() - 1], false).unwrap().0);
    }
}

proof fn lemma_comp_stmts_keeps(st: CompilerState, items: Seq<AST>)
    requires
        comp_stmts(st, items) is Some,
    ensures
        keeps(st, comp_stmts(st, items).unwrap().0),
    decreases items,
{
    if items.len() == 0 {
        lemma_keeps_refl(st);
    } else {
        let front = items.subrange(0, items.len() - 1);
        lemma_comp_stmts_keeps(st, front);
        let s1 = comp_stmts(st, front).unwrap().0;
        law_compile_node_keeps_state(s1, items[items.len() - 1], false);
        lemma_keeps_trans(st, s1, comp_node(s1, items[items.len() - 1], false).unwrap().0);
    }
}

proof fn lemma_comp_cases_keeps(st: CompilerState, cases: Seq<(AST, AST)>, is_last: bool, space: Seq<char>)
    requires
        comp_cases(st, cases, is_last, space) is Some,
    ensures
        keeps(st, comp_cases(st, cases, is_last, space).unwrap().0),
    decreases cases,
{
    if cases.len() == 0 {
        lemma_keeps_refl(st);
    } else {
        let front = cases.subrange(0, cases.len() - 1);
        lemma_comp_cases_keeps(st, front, is_last, space);
        let s1 = comp_cases(st, front, is_last, space).unwrap().0;
        let last = cases[cases.len() - 1];
        law_compile_node_keeps_state(s1, last.0, false);
        let s2 = comp_node(s1, last.0, false).unwrap().0;
        law_compile_node_keeps_state(s2, last.1, is_last);
        let s3 = comp_node(s2, last.1, is_last).unwrap().0;
        lemma_keeps_trans(st, s1, s2);
        lemma_keeps_trans(st, s2, s3);
    }
}

/// Compiling a statement list restores the indentation, only adds lifted
/// functions, and numbers the added functions in order from the next number.
pub proof fn law_compile_vec_keeps_state(st: CompilerState, code: Seq<AST>)
    requires
        comp_vec(st, code) is Some,
    ensures
        keeps(st, comp_vec(st, code).unwrap().0),
{
    lemma_comp_stmts_keeps(st, code.subrange(0, code.len() - 1));
}

/// A function node compiles to the name of the function it lifts, the last
/// one added, numbered just below the next number; the functions nested in
/// its body were lifted before it.
pub proof fn law_function_names_last_lifted(st: CompilerState, node: AST, is_last: bool)
    requires
        node is Function,
        comp_node(st, node, is_last) is Some,
    ensures
        ({
            let (s, text) = comp_node(st, node, is_last).unwrap();
            &&& s.funcs.len() > st.funcs.len()
            &&& text == with_return("func"@ + int_text(s.next - 1), is_last)
            &&& func_head(s.next - 1).is_prefix_of(s.funcs.last())
        }),
{
    law_compile_node_keeps_state(st, node, is_last);
    let (s, text) = comp_node(st, node, is_last).unwrap();
    if let AST::Function(_, _, _, body, _, _) = node {
        let s1 = comp_node(st, *body, true).unwrap().0;
        law_compile_node_keeps_state(st, *body, true);
        assert(s.next == s1.next + 1);
        assert(s.funcs.len() == s1.funcs.len() + 1);
        assert(s.funcs.last() == s.funcs[st.funcs.len() + (s.funcs.len() - 1 - st.funcs.len())]);
    }
}

/// In a compiled program the lifted functions are numbered from 1 in the
/// order they were lifted: the `i`-th is `func<i + 1>`.
pub proof fn law_program_funcs_numbered(code: Seq<AST>)
    requires
        program_text(code) is Some,
    ensures
        ({
            let s = comp_vec(initial_state(), code).unwrap().0;
            forall|i: int| 0 <= i < s.funcs.len() ==> func_head(i + 1).is_prefix_of(#[trigger] s.funcs[i])
        }),
{
    law_compile_vec_keeps_state(initial_state(), code);
    let s = comp_vec(initial_state(), code).unwrap().0;
    assert forall|i: int| 0 <= i < s.funcs.len() implies func_head(i + 1).is_prefix_of(#[trigger] s.funcs[i]) by {
        assert(s.funcs[0 + i] == s.funcs[i]);
    }
}

/// A statement list compiles each statement, in order, as a line at the
/// indentation the list started with: the text for the first `k + 1`
/// statements is the text for the first `k`, the starting indentation, the
/// `k`-th statement compiled from the state the first `k` left, and `;`.
pub proof fn law_compile_stmts_lines(st: CompilerState, items: Seq<AST>, k: int)
    requires
        comp_stmts(st, items) is Some,
        0 <= k < items.len(),
    ensures
        ({
            let (sk, tk) = comp_stmts(st, items.take(k)).unwrap();
            &&& sk.indent == st.indent
            &&& comp_node(sk, items[k], false) is Some
            &&& comp_stmts(st, items.take(k + 1)) == Some((
                comp_node(sk, items[k], false).unwrap().0,
                tk + st.indent + comp_node(sk, items[k], false).unwrap().1 + ";\n"@,
            ))
        }),
{
    lemma_comp_stmts_prefix(st, items, k);
    lemma_comp_stmts_prefix(st, items, k + 1);
    lemma_comp_stmts_step(st, items, k);
    lemma_comp_stmts_keeps(st, items.take(k));
}

/// A binary operator compiles to its first operand on the left and its
/// second on the right, in parentheses; `and` and `or` become `&&` and `||`
/// in the same places, and `not` negates its one operand.
pub proof fn law_operator_operands_in_order(op: Seq<char>, a: Seq<char>, b: Seq<char>)
    ensures
        builtin_ops().contains(op) ==> builtin_text(op, seq![a, b]) == Some("("@ + a + " "@ + op + " "@ + b + ")"@),
        builtin_text("-"@, seq![a, b]) == Some("("@ + a + " - "@ + b + ")"@),
        builtin_text("and"@, seq![a, b]) == Some("("@ + a + " && "@ + b + ")"@),
        builtin_text("or"@, seq![a, b]) == Some("("@ + a + " || "@ + b + ")"@),
        builtin_text("not"@, seq![a]) == Some("!("@ + a + ")"@),
{
    reveal_strlit("-");
    reveal_strlit(" ");
    reveal_strlit(" - ");
    reveal_strlit("&&");
    reveal_strlit(" && ");
    reveal_strlit("||");
    reveal_strlit(" || ");
    reveal_strlit("!");
    reveal_strlit("(");
    reveal_strlit("!(");
    reveal_strlit("and");
    reveal_strlit("or");
    reveal_strlit("not");
    let ops = builtin_ops();
    assert(ops[4] == "-"@);
    assert(ops.contains("-"@));
    assert(" "@ + "-"@ + " "@ =~= " - "@);
    assert("("@ + a + " "@ + "-"@ + " "@ + b + ")"@ =~= "("@ + a + " - "@ + b + ")"@);
    assert(" "@ + "&&"@ + " "@ =~= " && "@);
    assert("("@ + a + " "@ + "&&"@ + " "@ + b + ")"@ =~= "("@ + a + " && "@ + b + ")"@);
    assert(" "@ + "||"@ + " "@ =~= " || "@);
    assert("("@ + a + " "@ + "||"@ + " "@ + b + ")"@ =~= "("@ + a + " || "@ + b + ")"@);
    assert("!"@ + "("@ + a + ")"@ =~= "!("@ + a + ")"@);
    crate::scope::lemma_builtin_literals();
    assert forall|i: int| 0 <= i < ops.len() implies ops[i] != "and"@ && ops[i] != "or"@ && ops[i] != "not"@ by {
        assert(0 <= i < 15);
    }
}

/// A call of a binary operator compiles its arguments in order and puts the
/// first on the left of the operator and the second on its right.
pub proof fn law_operator_call_compiles_in_order(st: CompilerState, name: String, args: Vec<AST>, is_last: bool)
    requires
        builtin_ops().contains(name@),
        comp_list(st, args@) matches Some((_, texts)) && texts.len() >= 2,
    ensures
        ({
            let (s1, texts) = comp_list(st, args@).unwrap();
            comp_node(st, AST::Invoke(name, args), is_last) == Some((
                s1,
                with_return("("@ + texts[0] + " "@ + name@ + " "@ + texts[1] + ")"@, is_last),
            ))
        }),
{
}

/// A variable of a primitive Molten type is declared with that type's C
/// type: `Bool` and `Int` as `int`, `Real` as `double`, `String` as
/// `char *`; a `Bool` is declared exactly as an `Int`.
pub proof fn law_primitive_declarations(name: Seq<char>)
    ensures
        vardef_text(TypeView::Concrete("Bool"@), name) == "int "@ + name,
        vardef_text(TypeView::Concrete("Int"@), name) == "int "@ + name,
        vardef_text(TypeView::Concrete("Real"@), name) == "double "@ + name,
        vardef_text(TypeView::Concrete("String"@), name) == "char * "@ + name,
        vardef_text(TypeView::Concrete("Bool"@), name) == vardef_text(TypeView::Concrete("Int"@), name),
{
    reveal_strlit("Bool");
    reveal_strlit("Int");
    reveal_strlit("Real");
    reveal_strlit("String");
    reveal_strlit("int");
    reveal_strlit("double");
    reveal_strlit("char *");
    reveal_strlit(" ");
    reveal_strlit("int ");
    reveal_strlit("double ");
    reveal_strlit("char * ");
    assert("Int"@.len() != "Bool"@.len());
    assert("Real"@[0] != "Bool"@[0] && "Real"@.len() != "Int"@.len());
    assert("String"@.len() != "Bool"@.len() && "String"@.len() != "Int"@.len() && "String"@.len() != "Real"@.len());
    assert("int"@ + " "@ =~= "int "@);
    assert("double"@ + " "@ =~= "double "@);
    assert("char *"@ + " "@ =~= "char * "@);
}

/// Literals and names compile to themselves in C: an integer to its decimal
/// text, `true` and `false` to `1` and `0`, `nil` to `NULL`, an identifier to
/// its name; none of them changes the state, and as the last expression of
/// a function each becomes `return <text>;`.
pub proof fn law_literal_texts(st: CompilerState, n: i64, name: String, is_last: bool)
    ensures
        comp_node(st, AST::Integer(n), false) == Some((st, int_text(n as int))),
        comp_node(st, AST::Boolean(true), false) == Some((st, "1"@)),
        comp_node(st, AST::Boolean(false), false) == Some((st, "0"@)),
        comp_node(st, AST::Nil, false) == Some((st, "NULL"@)),
        comp_node(st, AST::Identifier(name), false) == Some((st, name@)),
        comp_node(st, AST::Identifier(name), true) == Some((st, "return "@ + name@ + ";"@)),
{
}

/// An `if` compiles to a C `if`/`else` at the current indentation: the
/// condition first, then the branch for true, then the branch for false,
/// each branch on its own line four spaces deeper, the condition and both
/// branches compiled in that order.
pub proof fn law_if_layout(st: CompilerState, c: AST, tb: AST, fb: AST, is_last: bool)
    requires
        comp_node(st, AST::If(Box::new(c), Box::new(tb), Box::new(fb)), is_last) is Some,
    ensures
        ({
            let (s1, ct) = comp_node(indented(st), c, false).unwrap();
            let (s2, tt) = comp_node(s1, tb, is_last).unwrap();
            let (s3, ft) = comp_node(s2, fb, is_last).unwrap();
            let i = st.indent;
            comp_node(st, AST::If(Box::new(c), Box::new(tb), Box::new(fb)), is_last) == Some((
                with_indent(s3, i),
                with_return(i + "if ("@ + ct + ") {\n"@ + i + "    "@ + tt + "\n"@ + i + "} else {\n"@ + i + "    "@
                    + ft + "\n"@ + i + "}"@, is_last),
            ))
        }),
{
    let s0 = indented(st);
    law_compile_node_keeps_state(s0, c, false);
    let s1 = comp_node(s0, c, false).unwrap().0;
    law_compile_node_keeps_state(s1, tb, is_last);
    let s2 = comp_node(s1, tb, is_last).unwrap().0;
    law_compile_node_keeps_state(s2, fb, is_last);
    let s3 = comp_node(s2, fb, is_last).unwrap().0;
    assert(s3.indent == st.indent + "    "@);
}

/// A `while` compiles to a C `while` at the current indentation: the
/// condition, then the body on its own line four spaces deeper and ended by
/// `;` where it does not end so already.
pub proof fn law_while_layout(st: CompilerState, c: AST, body: AST, is_last: bool)
    requires
        comp_node(st, AST::While(Box::new(c), Box::new(body)), is_last) is Some,
    ensures
        ({
            let (s1, ct) = comp_node(indented(st), c, false).unwrap();
            let (s2, bt) = comp_node(s1, body, false).unwrap();
            let i = st.indent;
            comp_node(st, AST::While(Box::new(c), Box::new(body)), is_last) == Some((
                with_indent(s2, i),
                with_return("while ("@ + ct + ") {\n"@ + i + "    "@ + terminated(bt) + "\n"@ + i + "}"@, is_last),
            ))
        }),
{
    let s0 = indented(st);
    law_compile_node_keeps_state(s0, c, false);
    let s1 = comp_node(s0, c, false).unwrap().0;
    law_compile_node_keeps_state(s1, body, false);
}

} // verus!
