use vstd::prelude::*;
use vstd::string::*;
use crate::ast::{AST, ScopeRef};
use crate::types::{Type, TypeView, types_view, lemma_types_view};
use crate::text::{lemma_string_views_push, int_text, join, string_views, opt_view, str_is, lit, int_to_string, join_strings};

verus! {

/// What the contracts see of a `CompilerData`: the number of the next
/// lifted function, the current indentation and the lifted functions so far.
#[verifier::ext_equal]
pub struct CompilerState {
    pub next: int,
    pub indent: Seq<char>,
    pub funcs: Seq<Seq<char>>,
}

/// The state a fresh compiler starts from.
pub open spec fn initial_state() -> CompilerState {
    CompilerState { next: 1, indent: "    "@, funcs: Seq::empty() }
}

/// Binary operators that compile to infix C expressions.
pub open spec fn builtin_ops() -> Seq<Seq<char>> {
    seq![
        "*"@, "/"@, "%"@, "+"@, "-"@, "<<"@, ">>"@, "<"@, ">"@, "<="@, ">="@, "=="@, "!="@, "&"@, "|"@,
    ]
}

/// Whether a call of `name` compiles to a C operator rather than a call.
pub open spec fn is_builtin(name: Seq<char>) -> bool {
    builtin_ops().contains(name) || name == "and"@ || name == "or"@ || name == "not"@
}

/// How many compiled arguments the builtin `name` reads.
pub open spec fn builtin_arity(name: Seq<char>) -> nat {
    if !builtin_ops().contains(name) && name == "not"@ {
        1
    } else {
        2
    }
}

/// The C text of a builtin call, or `None` where `name` is no builtin.
pub open spec fn builtin_text(name: Seq<char>, args: Seq<Seq<char>>) -> Option<Seq<char>> {
    if builtin_ops().contains(name) {
        Some("("@ + args[0] + " "@ + name + " "@ + args[1] + ")"@)
    } else if name == "and"@ {
        Some("("@ + args[0] + " "@ + "&&"@ + " "@ + args[1] + ")"@)
    } else if name == "or"@ {
        Some("("@ + args[0] + " "@ + "||"@ + " "@ + args[1] + ")"@)
    } else if name == "not"@ {
        Some("!"@ + "("@ + args[0] + ")"@)
    } else {
        None
    }
}

/// The C type used for a concrete Molten type name.
pub open spec fn c_type_name(tname: Seq<char>) -> Seq<char> {
    if tname == "Bool"@ {
        "int"@
    } else if tname == "Int"@ {
        "int"@
    } else if tname == "Real"@ {
        "double"@
    } else if tname == "String"@ {
        "char *"@
    } else {
        "UNKNOWN"@
    }
}

/// The C declaration of `name` with type `t`.
pub open spec fn vardef_text(t: TypeView, name: Seq<char>) -> Seq<char>
    decreases t,
{
    match t {
        TypeView::Concrete(tname) => c_type_name(tname) + " "@ + name,
        TypeView::Function(args, ret, _) => vardef_text(*ret, Seq::empty()) + " (*"@ + name + ")("@
            + join(vardef_list(args), ", "@) + ")"@,
        TypeView::Variable(_) => "int "@ + name,
        _ => "UNKNOWN "@ + name,
    }
}

/// Anonymous C declarations of each type in `ts`.
pub open spec fn vardef_list(ts: Seq<TypeView>) -> Seq<Seq<char>>
    decreases ts,
{
    if ts.len() == 0 {
        Seq::empty()
    } else {
        vardef_list(ts.subrange(0, ts.len() - 1)).push(vardef_text(ts[ts.len() - 1], Seq::empty()))
    }
}

/// `text` as the value of the enclosing function where `is_last` holds.
pub open spec fn with_return(text: Seq<char>, is_last: bool) -> Seq<char> {
    if is_last {
        "return "@ + text + ";"@
    } else {
        text
    }
}

/// `text` with `;` added unless its second to last character is one.
pub open spec fn terminated(text: Seq<char>) -> Seq<char> {
    if text[text.len() - 2] != ';' {
        text.push(';')
    } else {
        text
    }
}

/// The state with one more level of indentation.
pub open spec fn indented(st: CompilerState) -> CompilerState {
    CompilerState { indent: st.indent + "    "@, ..st }
}

/// The state with its indentation set back to `indent`.
pub open spec fn with_indent(st: CompilerState, indent: Seq<char>) -> CompilerState {
    CompilerState { indent: indent, ..st }
}

/// Whether every argument has a declared type.
pub open spec fn params_typed(args: Seq<(String, Option<Type>, Option<AST>)>) -> bool {
    forall|i: int| 0 <= i < args.len() ==> (#[trigger] args[i]).1 is Some
}

/// The C parameter declarations of `args`.
pub open spec fn param_texts(args: Seq<(String, Option<Type>, Option<AST>)>) -> Seq<Seq<char>> {
    Seq::new(args.len(), |i: int| vardef_text(args[i].1->0@, args[i].0@))
}

/// The C definition of the lifted function number `n`.
pub open spec fn func_text(n: int, params: Seq<char>, body: Seq<char>) -> Seq<char> {
    "int"@ + " func"@ + int_text(n) + "("@ + params + ") {\n"@ + body + "\n}"@
}

/// Compiling `node` from state `st`: the state after and the C text, or
/// `None` where compiling it panics.
pub open spec fn comp_node(st: CompilerState, node: AST, is_last: bool) -> Option<(CompilerState, Seq<char>)>
    decreases node,
{
    let r: Option<(CompilerState, Seq<char>)> = match node {
        AST::Nil => Some((st, "NULL"@)),
        AST::Boolean(b) => Some((st, if b { "1"@ } else { "0"@ })),
        AST::Integer(n) => Some((st, int_text(n as int))),
        AST::String(s) => Some((st, s@)),
        AST::Identifier(name) => Some((st, name@)),
        AST::Invoke(name, args) => match comp_list(st, args@) {
            None => None,
            Some((s1, texts)) => if is_builtin(name@) {
                if texts.len() >= builtin_arity(name@) {
                    Some((s1, builtin_text(name@, texts)->0))
                } else {
                    None
                }
            } else {
                Some((s1, name@ + "("@ + join(texts, ", "@) + ")"@))
            },
        },
        AST::Function(_, _, args, body, _, _) => if !params_typed(args@) {
            None
        } else {
            match comp_node(st, *body, true) {
                None => None,
                Some((s1, b)) => if s1.next >= i32::MAX {
                    None
                } else {
                    Some((
                        CompilerState {
                            next: s1.next + 1,
                            indent: s1.indent,
                            funcs: s1.funcs.push(func_text(s1.next, join(param_texts(args@), ", "@), b)),
                        },
                        "func"@ + int_text(s1.next),
                    ))
                },
            }
        },
        AST::Definition(_, name, ttype, body) => match ttype {
            None => None,
            Some(t) => match comp_node(st, *body, false) {
                None => None,
                Some((s1, b)) => Some((s1, vardef_text(t@, name@) + " = "@ + b)),
            },
        },
        AST::Block(body) => if body.len() == 0 {
            None
        } else {
            comp_stmts(st, body@.subrange(0, body.len() - 1))
        },
        AST::If(c, t, f) => match comp_node(indented(st), *c, false) {
            None => None,
            Some((s1, ct)) => match comp_node(s1, *t, is_last) {
                None => None,
                Some((s2, tt)) => match comp_node(s2, *f, is_last) {
                    None => None,
                    Some((s3, ft)) => Some((
                        with_indent(s3, st.indent),
                        st.indent + "if ("@ + ct + ") {\n"@ + s3.indent + tt + "\n"@ + st.indent
                            + "} else {\n"@ + s3.indent + ft + "\n"@ + st.indent + "}"@,
                    )),
                },
            },
        },
        AST::Match(c, cases) => match comp_cases(indented(st), cases@, is_last, st.indent) {
            None => None,
            Some((s1, texts)) => match comp_node(s1, *c, false) {
                None => None,
                Some((s2, ct)) => Some((
                    with_indent(s2, st.indent),
                    "switch ("@ + ct + ") {\n"@ + join(texts, "\n"@) + "\n"@ + st.indent + "}"@,
                )),
            },
        },
        AST::While(c, b) => match comp_node(indented(st), *c, false) {
            None => None,
            Some((s1, ct)) => match comp_node(s1, *b, false) {
                None => None,
                Some((s2, bt)) => if bt.len() < 2 {
                    None
                } else {
                    Some((
                        with_indent(s2, st.indent),
                        "while ("@ + ct + ") {\n"@ + s2.indent + terminated(bt) + "\n"@ + st.indent + "}"@,
                    ))
                },
            },
        },
        _ => Some((st, Seq::empty())),
    };
    match r {
        None => None,
        Some((s, text)) => Some((s, with_return(text, is_last))),
    }
}

/// Compiling each of `items` in turn, collecting their texts.
pub open spec fn comp_list(st: CompilerState, items: Seq<AST>) -> Option<(CompilerState, Seq<Seq<char>>)>
    decreases items,
{
    if items.len() == 0 {
        Some((st, Seq::empty()))
    } else {
        match comp_list(st, items.subrange(0, items.len() - 1)) {
            None => None,
            Some((s1, texts)) => match comp_node(s1, items[items.len() - 1], false) {
                None => None,
                Some((s2, t)) => Some((s2, texts.push(t))),
            },
        }
    }
}

/// Compiling each of `items` as a statement line.
pub open spec fn comp_stmts(st: CompilerState, items: Seq<AST>) -> Option<(CompilerState, Seq<char>)>
    decreases items,
{
    if items.len() == 0 {
        Some((st, Seq::empty()))
    } else {
        match comp_stmts(st, items.subrange(0, items.len() - 1)) {
            None => None,
            Some((s1, text)) => match comp_node(s1, items[items.len() - 1], false) {
                None => None,
                Some((s2, t)) => Some((s2, text + s1.indent + t + ";\n"@)),
            },
        }
    }
}

/// Compiling the arms of a `match` into `case` labels.
pub open spec fn comp_cases(
    st: CompilerState,
    cases: Seq<(AST, AST)>,
    is_last: bool,
    space: Seq<char>,
) -> Option<(CompilerState, Seq<Seq<char>>)>
    decreases cases,
{
    if cases.len() == 0 {
        Some((st, Seq::empty()))
    } else {
        match comp_cases(st, cases.subrange(0, cases.len() - 1), is_last, space) {
            None => None,
            Some((s1, texts)) => match comp_node(s1, cases[cases.len() - 1].0, false) {
                None => None,
                Some((s2, ct)) => match comp_node(s2, cases[cases.len() - 1].1, is_last) {
                    None => None,
                    Some((s3, et)) => Some((
                        s3,
                        texts.push(space + "  case "@ + ct + ":\n"@ + s3.indent + et + "\n"@ + s3.indent + "break;"@),
                    )),
                },
            },
        }
    }
}

/// Compiling a statement list: every statement but the last becomes a line.
pub open spec fn comp_vec(st: CompilerState, code: Seq<AST>) -> Option<(CompilerState, Seq<char>)> {
    if code.len() == 0 {
        None
    } else {
        comp_stmts(st, code.subrange(0, code.len() - 1))
    }
}

/// The lifted functions, each followed by a blank line.
pub open spec fn funcs_text(funcs: Seq<Seq<char>>) -> Seq<char>
    decreases funcs.len(),
{
    if funcs.len() == 0 {
        Seq::empty()
    } else {
        funcs_text(funcs.drop_last()) + funcs.last() + "\n\n"@
    }
}

/// The C program for `code`, or `None` where compiling it panics.
pub open spec fn program_text(code: Seq<AST>) -> Option<Seq<char>> {
    match comp_vec(initial_state(), code) {
        None => None,
        Some((s, main)) => Some(funcs_text(s.funcs) + "int main(int argc, void **argv) {\n"@ + main + "\n}"@),
    }
}

/// Compiles a program into C: the lifted functions, then a `main` holding
/// the statements of `code`. Programs on which compiling panics are refused
/// by `requires`.
pub fn compile(scope: ScopeRef, code: &Vec<AST>) -> (r: String)
    requires
        program_text(code@) is Some,
    ensures
        program_text(code@) == Some(r@),
{
    let mut data = CompilerData::new();
    let main = data.compile_vec(scope, code, true);
    let ghost funcs = data@.funcs;
    let mut compiled = String::new();
    let mut i: usize = 0;
    while i < data.funcs.len()
        invariant
            i <= data.funcs.len(),
            funcs == string_views(data.funcs@),
            compiled@ == funcs_text(funcs.take(i as int)),
        decreases data.funcs.len() - i,
    {
        compiled.append(data.funcs[i].as_str());
        compiled.append("\n\n");
        proof {
            assert(funcs.take(i + 1).drop_last() =~= funcs.take(i as int));
        }
        i = i + 1;
    }
    proof {
        assert(funcs.take(data.funcs.len() as int) =~= funcs);
    }
    compiled.append("int main(int argc, void **argv) {\n");
    compiled.append(main.as_str());
    compiled.append("\n}");
    compiled
}

/// State of the C back end: the number of the next lifted function, the
/// current indentation and the C definitions of the functions lifted so far.
pub struct CompilerData {
    next: i32,
    indent: String,
    funcs: Vec<String>,
}

impl View for CompilerData {
    type V = CompilerState;

    closed spec fn view(&self) -> CompilerState {
        CompilerState { next: self.next as int, indent: self.indent@, funcs: string_views(self.funcs@) }
    }
}

proof fn lemma_vardef_list_take(ts: Seq<TypeView>, i: int)
    requires
        0 <= i < ts.len(),
    ensures
        vardef_list(ts.take(i + 1)) == vardef_list(ts.take(i)).push(vardef_text(ts[i], Seq::empty())),
{
    assert(ts.take(i + 1).subrange(0, i) =~= ts.take(i));
}

proof fn lemma_comp_list_prefix(st: CompilerState, s: Seq<AST>, k: int)
    requires
        comp_list(st, s) is Some,
        0 <= k <= s.len(),
    ensures
        comp_list(st, s.take(k)) is Some,
    decreases s.len(),
{
    if k == s.len() {
        assert(s.take(k) =~= s);
    } else {
        let s1 = s.subrange(0, s.len() - 1);
        lemma_comp_list_prefix(st, s1, k);
        assert(s1.take(k) =~= s.take(k));
    }
}

proof fn lemma_comp_list_step(st: CompilerState, s: Seq<AST>, k: int)
    requires
        0 <= k < s.len(),
    ensures
        comp_list(st, s.take(k + 1)) == match comp_list(st, s.take(k)) {
            None => None,
            Some((s1, texts)) => match comp_node(s1, s[k], false) {
                None => None,
                Some((s2, t)) => Some((s2, texts.push(t))),
            },
        },
{
    assert(s.take(k + 1).subrange(0, k) =~= s.take(k));
}

pub(crate) proof fn lemma_comp_stmts_prefix(st: CompilerState, s: Seq<AST>, k: int)
    requires
        comp_stmts(st, s) is Some,
        0 <= k <= s.len(),
    ensures
        comp_stmts(st, s.take(k)) is Some,
    decreases s.len(),
{
    if k == s.len() {
        assert(s.take(k) =~= s);
    } else {
        let s1 = s.subrange(0, s.len() - 1);
        lemma_comp_stmts_prefix(st, s1, k);
        assert(s1.take(k) =~= s.take(k));
    }
}

pub(crate) proof fn lemma_comp_stmts_step(st: CompilerState, s: Seq<AST>, k: int)
    requires
        0 <= k < s.len(),
    ensures
        comp_stmts(st, s.take(k + 1)) == match comp_stmts(st, s.take(k)) {
            None => None,
            Some((s1, text)) => match comp_node(s1, s[k], false) {
                None => None,
                Some((s2, t)) => Some((s2, text + s1.indent + t + ";\n"@)),
            },
        },
{
    assert(s.take(k + 1).subrange(0, k) =~= s.take(k));
}

proof fn lemma_comp_cases_prefix(st: CompilerState, s: Seq<(AST, AST)>, is_last: bool, space: Seq<char>, k: int)
    requires
        comp_cases(st, s, is_last, space) is Some,
        0 <= k <= s.len(),
    ensures
        comp_cases(st, s.take(k), is_last, space) is Some,
    decreases s.len(),
{
    if k == s.len() {
        assert(s.take(k) =~= s);
    } else {
        let s1 = s.subrange(0, s.len() - 1);
        lemma_comp_cases_prefix(st, s1, is_last, space, k);
        assert(s1.take(k) =~= s.take(k));
    }
}

proof fn lemma_comp_cases_step(st: CompilerState, s: Seq<(AST, AST)>, is_last: bool, space: Seq<char>, k: int)
    requires
        0 <= k < s.len(),
    ensures
        comp_cases(st, s.take(k + 1), is_last, space) == match comp_cases(st, s.take(k), is_last, space) {
            None => None,
            Some((s1, texts)) => match comp_node(s1, s[k].0, false) {
                None => None,
                Some((s2, ct)) => match comp_node(s2, s[k].1, is_last) {
                    None => None,
                    Some((s3, et)) => Some((
                        s3,
                        texts.push(space + "  case "@ + ct + ":\n"@ + s3.indent + et + "\n"@ + s3.indent + "break;"@),
                    )),
                },
            },
        },
{
    assert(s.take(k + 1).subrange(0, k) =~= s.take(k));
}

/// Whether `name` is one of the binary operators of `builtin_ops`.
fn is_binary_op(name: &String) -> (r: bool)
    ensures
        r == builtin_ops().contains(name@),
{
    let r = str_is(name, "*") || str_is(name, "/") || str_is(name, "%") || str_is(name, "+")
        || str_is(name, "-") || str_is(name, "<<") || str_is(name, ">>") || str_is(name, "<")
        || str_is(name, ">") || str_is(name, "<=") || str_is(name, ">=") || str_is(name, "==")
        || str_is(name, "!=") || str_is(name, "&") || str_is(name, "|");
    proof {
        let ops = builtin_ops();
        if r {
            assert(ops.contains(name@)) by {
                if name@ == "*"@ { assert(ops[0] == name@); }
                else if name@ == "/"@ { assert(ops[1] == name@); }
                else if name@ == "%"@ { assert(ops[2] == name@); }
                else if name@ == "+"@ { assert(ops[3] == name@); }
                else if name@ == "-"@ { assert(ops[4] == name@); }
                else if name@ == "<<"@ { assert(ops[5] == name@); }
                else if name@ == ">>"@ { assert(ops[6] == name@); }
                else if name@ == "<"@ { assert(ops[7] == name@); }
                else if name@ == ">"@ { assert(ops[8] == name@); }
                else if name@ == "<="@ { assert(ops[9] == name@); }
                else if name@ == ">="@ { assert(ops[10] == name@); }
                else if name@ == "=="@ { assert(ops[11] == name@); }
                else if name@ == "!="@ { assert(ops[12] == name@); }
                else if name@ == "&"@ { assert(ops[13] == name@); }
                else { assert(ops[14] == name@); }
            }
        } else {
            assert(!ops.contains(name@)) by {
                assert forall|i: int| 0 <= i < ops.len() implies ops[i] != name@ by {
                    assert(0 <= i < 15);
                }
            }
        }
    }
    r
}

/// Whether a call of `name` compiles to a C operator.
fn is_builtin_name(name: &String) -> (r: bool)
    ensures
        r == is_builtin(name@),
{
    is_binary_op(name) || str_is(name, "and") || str_is(name, "or") || str_is(name, "not")
}

/// How many compiled arguments the builtin `name` reads.
fn builtin_arity_of(name: &String) -> (r: usize)
    ensures
        r == builtin_arity(name@),
{
    if !is_binary_op(name) && str_is(name, "not") {
        1
    } else {
        2
    }
}

/// Whether every argument has a declared type.
fn all_params_typed(args: &Vec<(String, Option<Type>, Option<AST>)>) -> (r: bool)
    ensures
        r == params_typed(args@),
{
    let mut i: usize = 0;
    while i < args.len()
        invariant
            i <= args.len(),
            forall|j: int| 0 <= j < i ==> (#[trigger] args@[j]).1 is Some,
        decreases args.len() - i,
    {
        if args[i].1.is_none() {
            return false;
        }
        i = i + 1;
    }
    true
}

/// Whether compiling the program `code` succeeds, that is, whether
/// `compile` accepts it.
pub fn compiles(code: &Vec<AST>) -> (r: bool)
    ensures
        r == (program_text(code@) is Some),
{
    let mut data = CompilerData::new();
    data.try_compile_vec(0, code, true).is_some()
}

/// `text` with `;` added unless its second to last character already is one.
pub fn add_terminator(text: String) -> (r: String)
    requires
        text@.len() >= 2,
    ensures
        r@ == terminated(text@),
{
    let mut text = text;
    let len = text.as_str().unicode_len();
    if text.as_str().get_char(len - 2) != ';' {
        proof {
            reveal_strlit(";");
        }
        text.append(";");
    }
    text
}

impl CompilerData {
    /// The C text of a call of the builtin `name` on the compiled `args`, or
    /// `None` where `name` is no builtin.
    pub fn compile_builtin(name: &String, args: &Vec<String>) -> (r: Option<String>)
        requires
            is_builtin(name@) ==> args.len() >= builtin_arity(name@),
        ensures
            opt_view(r) == builtin_text(name@, string_views(args@)),
    {
        let ghost a = string_views(args@);
        proof {
            reveal_strlit("and");
            reveal_strlit("or");
            reveal_strlit("not");
            assert("and"@[0] != "not"@[0]);
            assert("or"@[0] != "not"@[0]);
            if args.len() >= 2 {
                assert(a[0] == args@[0]@ && a[1] == args@[1]@);
            } else if args.len() >= 1 {
                assert(a[0] == args@[0]@);
            }
        }
        if is_binary_op(name) {
            let mut r = lit("(");
            r.append(args[0].as_str());
            r.append(" ");
            r.append(name.as_str());
            r.append(" ");
            r.append(args[1].as_str());
            r.append(")");
            Some(r)
        } else if str_is(name, "and") {
            let mut r = lit("(");
            r.append(args[0].as_str());
            r.append(" ");
            r.append("&&");
            r.append(" ");
            r.append(args[1].as_str());
            r.append(")");
            Some(r)
        } else if str_is(name, "or") {
            let mut r = lit("(");
            r.append(args[0].as_str());
            r.append(" ");
            r.append("||");
            r.append(" ");
            r.append(args[1].as_str());
            r.append(")");
            Some(r)
        } else if str_is(name, "not") {
            let mut r = lit("!");
            r.append("(");
            r.append(args[0].as_str());
            r.append(")");
            Some(r)
        } else {
            None
        }
    }

    /// A compiler that numbers lifted functions from 1 and indents by four spaces.
    pub fn new() -> (r: CompilerData)
        ensures
            r@ == initial_state(),
    {
        let r = CompilerData { next: 1, indent: lit("    "), funcs: Vec::new() };
        proof {
            assert(string_views(r.funcs@) =~= Seq::<Seq<char>>::empty());
        }
        r
    }

    /// Compiles `node` into C text. Functions are lifted into `funcs` under
    /// the name `func<n>`; where `is_last` holds the text is a `return`
    /// statement. Inputs on which the compiler panics are refused by `requires`.
    pub fn compile_node(&mut self, scope: ScopeRef, node: &AST, is_last: bool) -> (r: String)
        requires
            comp_node(old(self)@, *node, is_last) is Some,
        ensures
            comp_node(old(self)@, *node, is_last) == Some((final(self)@, r@)),
    {
        self.try_compile_node(scope, node, is_last).unwrap()
    }

    /// Compiles `node` as `compile_node` does, or gives `None` where
    /// compiling it panics.
    pub fn try_compile_node(&mut self, scope: ScopeRef, node: &AST, is_last: bool) -> (r: Option<String>)
        ensures
            match r {
                Some(text) => comp_node(old(self)@, *node, is_last) == Some((final(self)@, text@)),
                None => comp_node(old(self)@, *node, is_last) is None,
            },
        decreases node, 1nat,
    {
        let ghost st = self@;
        let text: String = match node {
            AST::Nil => lit("NULL"),
            AST::Boolean(boolean) => match *boolean {
                true => lit("1"),
                false => lit("0"),
            },
            AST::Integer(num) => int_to_string(*num),
            AST::String(string) => string.clone(),
            AST::Identifier(name) => name.clone(),
            AST::Invoke(name, args) => {
                let compiled = match self.try_compile_list(scope, args) {
                    Some(c) => c,
                    None => return None,
                };
                if is_builtin_name(name) && compiled.len() < builtin_arity_of(name) {
                    return None;
                }
                match CompilerData::compile_builtin(name, &compiled) {
                    Some(result) => result,
                    None => {
                        let mut r = name.clone();
                        r.append("(");
                        let joined = join_strings(&compiled, ", ");
                        r.append(joined.as_str());
                        r.append(")");
                        r
                    },
                }
            },
            AST::Function(_, _, args, body, fscope, _) => {
                if !all_params_typed(args) {
                    return None;
                }
                let compiled_args = self.compile_params(*fscope, args);
                let compiled = match self.try_compile_node(*fscope, &**body, true) {
                    Some(c) => c,
                    None => return None,
                };
                if self.next == i32::MAX {
                    return None;
                }
                let name = self.next;
                self.next = self.next + 1;
                let number = int_to_string(name as i64);
                let mut f = lit("int");
                f.append(" func");
                f.append(number.as_str());
                f.append("(");
                let joined = join_strings(&compiled_args, ", ");
                f.append(joined.as_str());
                f.append(") {\n");
                f.append(compiled.as_str());
                f.append("\n}");
                proof {
                    lemma_string_views_push(self.funcs@, f);
                }
                self.funcs.push(f);
                let mut r = lit("func");
                r.append(number.as_str());
                r
            },
            AST::Definition(_, name, ttype, body) => {
                let t = match ttype {
                    Some(t) => t,
                    None => return None,
                };
                let mut r = self.compile_variable_def(scope, t, name);
                r.append(" = ");
                let b = match self.try_compile_node(scope, &**body, false) {
                    Some(b) => b,
                    None => return None,
                };
                r.append(b.as_str());
                r
            },
            AST::Block(body) => match self.try_compile_vec(scope, body, is_last) {
                Some(t) => t,
                None => return None,
            },
            AST::If(cond, texpr, fexpr) => {
                let old = self.indent.clone();
                let mut deeper = old.clone();
                deeper.append("    ");
                self.indent = deeper;
                let compiled_cond = match self.try_compile_node(scope, &**cond, false) {
                    Some(c) => c,
                    None => return None,
                };
                let compiled_texpr = match self.try_compile_node(scope, &**texpr, is_last) {
                    Some(c) => c,
                    None => return None,
                };
                let compiled_fexpr = match self.try_compile_node(scope, &**fexpr, is_last) {
                    Some(c) => c,
                    None => return None,
                };
                let mut r = old.clone();
                r.append("if (");
                r.append(compiled_cond.as_str());
                r.append(") {\n");
                r.append(self.indent.as_str());
                r.append(compiled_texpr.as_str());
                r.append("\n");
                r.append(old.as_str());
                r.append("} else {\n");
                r.append(self.indent.as_str());
                r.append(compiled_fexpr.as_str());
                r.append("\n");
                r.append(old.as_str());
                r.append("}");
                self.indent = old;
                r
            },
            AST::Match(cond, cases) => {
                let old = self.indent.clone();
                let mut deeper = old.clone();
                deeper.append("    ");
                self.indent = deeper;
                let compiled_cases = match self.try_compile_cases(scope, cases, is_last, &old) {
                    Some(c) => c,
                    None => return None,
                };
                let compiled_cond = match self.try_compile_node(scope, &**cond, false) {
                    Some(c) => c,
                    None => return None,
                };
                let mut r = lit("switch (");
                r.append(compiled_cond.as_str());
                r.append(") {\n");
                let joined = join_strings(&compiled_cases, "\n");
                r.append(joined.as_str());
                r.append("\n");
                r.append(old.as_str());
                r.append("}");
                self.indent = old;
                r
            },
            AST::While(cond, body) => {
                let old = self.indent.clone();
                let mut deeper = old.clone();
                deeper.append("    ");
                self.indent = deeper;
                let compiled_cond = match self.try_compile_node(scope, &**cond, false) {
                    Some(c) => c,
                    None => return None,
                };
                let compiled = match self.try_compile_node(scope, &**body, false) {
                    Some(c) => c,
                    None => return None,
                };
                if compiled.as_str().unicode_len() < 2 {
                    return None;
                }
                let compiled_body = add_terminator(compiled);
                let mut r = lit("while (");
                r.append(compiled_cond.as_str());
                r.append(") {\n");
                r.append(self.indent.as_str());
                r.append(compiled_body.as_str());
                r.append("\n");
                r.append(old.as_str());
                r.append("}");
                self.indent = old;
                r
            },
            _ => String::new(),
        };
        match is_last {
            true => {
                let mut r = lit("return ");
                r.append(text.as_str());
                r.append(";");
                Some(r)
            },
            false => Some(text),
        }
    }

    /// The C parameter declarations of `args`, each of which has a type.
    fn compile_params(&self, scope: ScopeRef, args: &Vec<(String, Option<Type>, Option<AST>)>) -> (r: Vec<String>)
        requires
            params_typed(args@),
        ensures
            string_views(r@) == param_texts(args@),
    {
        let mut compiled_args: Vec<String> = Vec::new();
        let mut i: usize = 0;
        while i < args.len()
            invariant
                i <= args.len(),
                params_typed(args@),
                string_views(compiled_args@) =~= param_texts(args@).take(i as int),
            decreases args.len() - i,
        {
            assert((args@[i as int]).1 is Some);
            let c = self.compile_variable_def(scope, args[i].1.as_ref().unwrap(), &args[i].0);
            proof {
                lemma_string_views_push(compiled_args@, c);
            }
            compiled_args.push(c);
            i = i + 1;
        }
        compiled_args
    }

    /// Compiles each of `items` as an operand, in order, or gives `None`
    /// where compiling one of them panics.
    fn try_compile_list(&mut self, scope: ScopeRef, items: &Vec<AST>) -> (r: Option<Vec<String>>)
        ensures
            match r {
                Some(v) => comp_list(old(self)@, items@) == Some((final(self)@, string_views(v@))),
                None => comp_list(old(self)@, items@) is None,
            },
        decreases items, 0nat,
    {
        let ghost st = self@;
        let mut compiled: Vec<String> = Vec::new();
        let mut i: usize = 0;
        proof {
            assert(items@.take(0) =~= Seq::<AST>::empty());
            assert(string_views(compiled@) =~= Seq::<Seq<char>>::empty());
        }
        while i < items.len()
            invariant
                i <= items.len(),
                st == old(self)@,
                comp_list(st, items@.take(i as int)) == Some((self@, string_views(compiled@))),
            decreases items.len() - i,
        {
            proof {
                lemma_comp_list_step(st, items@, i as int);
            }
            let c = match self.try_compile_node(scope, &items[i], false) {
                Some(c) => c,
                None => {
                    proof {
                        if comp_list(st, items@) is Some {
                            lemma_comp_list_prefix(st, items@, i + 1);
                        }
                    }
                    return None;
                },
            };
            proof {
                lemma_string_views_push(compiled@, c);
            }
            compiled.push(c);
            i = i + 1;
        }
        proof {
            assert(items@.take(items.len() as int) =~= items@);
        }
        Some(compiled)
    }

    /// Compiles the arms of a `match` into `case` labels indented from
    /// `space`, or gives `None` where compiling one of them panics.
    fn try_compile_cases(&mut self, scope: ScopeRef, cases: &Vec<(AST, AST)>, is_last: bool, space: &String) -> (r: Option<Vec<String>>)
        ensures
            match r {
                Some(v) => comp_cases(old(self)@, cases@, is_last, space@) == Some((final(self)@, string_views(v@))),
                None => comp_cases(old(self)@, cases@, is_last, space@) is None,
            },
        decreases cases, 0nat,
    {
        let ghost st = self@;
        let mut compiled: Vec<String> = Vec::new();
        let mut i: usize = 0;
        proof {
            assert(cases@.take(0) =~= Seq::<(AST, AST)>::empty());
            assert(string_views(compiled@) =~= Seq::<Seq<char>>::empty());
        }
        while i < cases.len()
            invariant
                i <= cases.len(),
                st == old(self)@,
                comp_cases(st, cases@.take(i as int), is_last, space@) == Some((self@, string_views(compiled@))),
            decreases cases.len() - i,
        {
            proof {
                lemma_comp_cases_step(st, cases@, is_last, space@, i as int);
            }
            let ct = match self.try_compile_node(scope, &cases[i].0, false) {
                Some(c) => c,
                None => {
                    proof {
                        if comp_cases(st, cases@, is_last, space@) is Some {
                            lemma_comp_cases_prefix(st, cases@, is_last, space@, i + 1);
                        }
                    }
                    return None;
                },
            };
            let et = match self.try_compile_node(scope, &cases[i].1, is_last) {
                Some(c) => c,
                None => {
                    proof {
                        if comp_cases(st, cases@, is_last, space@) is Some {
                            lemma_comp_cases_prefix(st, cases@, is_last, space@, i + 1);
                        }
                    }
                    return None;
                },
            };
            let mut c = space.clone();
            c.append("  case ");
            c.append(ct.as_str());
            c.append(":\n");
            c.append(self.indent.as_str());
            c.append(et.as_str());
            c.append("\n");
            c.append(self.indent.as_str());
            c.append("break;");
            proof {
                lemma_string_views_push(compiled@, c);
            }
            compiled.push(c);
            i = i + 1;
        }
        proof {
            assert(cases@.take(cases.len() as int) =~= cases@);
        }
        Some(compiled)
    }

    /// Compiles a statement list: each statement but the last becomes a line
    /// ended by `;`. An empty list is refused by `requires`.
    pub fn compile_vec(&mut self, scope: ScopeRef, code: &Vec<AST>, is_last: bool) -> (r: String)
        requires
            comp_vec(old(self)@, code@) is Some,
        ensures
            comp_vec(old(self)@, code@) == Some((final(self)@, r@)),
    {
        self.try_compile_vec(scope, code, is_last).unwrap()
    }

    /// Compiles a statement list as `compile_vec` does, or gives `None` where
    /// compiling it panics.
    pub fn try_compile_vec(&mut self, scope: ScopeRef, code: &Vec<AST>, is_last: bool) -> (r: Option<String>)
        ensures
            match r {
                Some(text) => comp_vec(old(self)@, code@) == Some((final(self)@, text@)),
                None => comp_vec(old(self)@, code@) is None,
            },
        decreases code, 0nat,
    {
        if code.len() == 0 {
            return None;
        }
        let ghost st = self@;
        let ghost items = code@.subrange(0, code.len() - 1);
        let mut compiled = String::new();
        let n = code.len() - 1;
        let mut i: usize = 0;
        proof {
            assert(items.take(0) =~= Seq::<AST>::empty());
        }
        while i < n
            invariant
                n == code.len() - 1,
                items == code@.subrange(0, n as int),
                i <= n,
                st == old(self)@,
                comp_stmts(st, items.take(i as int)) == Some((self@, compiled@)),
            decreases n - i,
        {
            proof {
                lemma_comp_stmts_step(st, items, i as int);
            }
            compiled.append(self.indent.as_str());
            let c = match self.try_compile_node(scope, &code[i], if is_last && i == code.len() { true } else { false }) {
                Some(c) => c,
                None => {
                    proof {
                        if comp_stmts(st, items) is Some {
                            lemma_comp_stmts_prefix(st, items, i + 1);
                        }
                    }
                    return None;
                },
            };
            compiled.append(c.as_str());
            if i != code.len() {
                compiled.append(";\n");
            }
            i = i + 1;
        }
        proof {
            assert(items.take(n as int) =~= items);
        }
        Some(compiled)
    }

    /// Anonymous C declarations of each of `args`.
    fn compile_arg_defs(&self, scope: ScopeRef, args: &Vec<Type>) -> (r: Vec<String>)
        ensures
            string_views(r@) == vardef_list(types_view(args@)),
        decreases args, 0nat,
    {
        let ghost targs = types_view(args@);
        proof {
            lemma_types_view(args@);
        }
        let mut compiled_args: Vec<String> = Vec::new();
        let mut i: usize = 0;
        while i < args.len()
            invariant
                i <= args.len(),
                targs == types_view(args@),
                targs.len() == args.len(),
                forall|j: int| 0 <= j < args.len() ==> #[trigger] targs[j] == args@[j]@,
                string_views(compiled_args@) == vardef_list(targs.take(i as int)),
            decreases args.len() - i,
        {
            let empty = String::new();
            let c = self.compile_variable_def(scope, &args[i], &empty);
            proof {
                lemma_string_views_push(compiled_args@, c);
                lemma_vardef_list_take(targs, i as int);
            }
            compiled_args.push(c);
            i = i + 1;
        }
        proof {
            assert(targs.take(args.len() as int) =~= targs);
        }
        compiled_args
    }

    /// The C declaration of `name` with type `ttype`.
    fn compile_variable_def(&self, scope: ScopeRef, ttype: &Type, name: &String) -> (r: String)
        ensures
            r@ == vardef_text(ttype@, name@),
        decreases ttype, 1nat,
    {
        match ttype {
            Type::Concrete(tname) => {
                let mut r = if str_is(tname, "Bool") {
                    lit("int")
                } else if str_is(tname, "Int") {
                    lit("int")
                } else if str_is(tname, "Real") {
                    lit("double")
                } else if str_is(tname, "String") {
                    lit("char *")
                } else {
                    lit("UNKNOWN")
                };
                r.append(" ");
                r.append(name.as_str());
                r
            },
            Type::Function(args, ret, _) => {
                let compiled_args = self.compile_arg_defs(scope, args);
                let empty = String::new();
                let mut r = self.compile_variable_def(scope, ret, &empty);
                r.append(" (*");
                r.append(name.as_str());
                r.append(")(");
                let joined = join_strings(&compiled_args, ", ");
                r.append(joined.as_str());
                r.append(")");
                r
            },
            Type::Variable(_) => {
                let mut r = lit("int ");
                r.append(name.as_str());
                r
            },
            _ => {
                let mut r = lit("UNKNOWN ");
                r.append(name.as_str());
                r
            },
        }
    }
}

} // verus!
