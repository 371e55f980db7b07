use vstd::prelude::*;
use vstd::string::*;
use crate::ast::{AST, ClassSpec, Mutability, Visibility};
use crate::types::{Abi, Type, TypeView, clone_type, types_view, fields_view, lemma_types_view, lemma_fields_view};
use crate::text::{lemma_string_views_push, join, string_views, lit, join_strings};

verus! {

/// How a calling convention is written after a function type.
pub open spec fn abi_text(abi: Abi) -> Seq<char> {
    match abi {
        Abi::Molten => Seq::empty(),
        Abi::C => " / C"@,
    }
}

/// The Molten source text of a type.
pub open spec fn unparse(t: TypeView) -> Seq<char>
    decreases t,
{
    match t {
        TypeView::Concrete(name) => name,
        TypeView::Object(name, types) => name + if types.len() > 0 {
            "<"@ + join(unparse_list(types), ", "@) + ">"@
        } else {
            Seq::empty()
        },
        TypeView::Variable(name) => "'"@ + name,
        TypeView::Tuple(types) => "("@ + join(unparse_list(types), ", "@) + ")"@,
        TypeView::Record(fields) => "{ "@ + join(unparse_fields(fields), ", "@) + " }"@,
        TypeView::Function(args, ret, abi) => "("@ + join(unparse_list(args), ", "@) + ")"@ + " -> "@ + unparse(*ret)
            + abi_text(abi),
        TypeView::Ref(inner) => "ref "@ + unparse(*inner),
        TypeView::Ambiguous(variants) => "Ambiguous["@ + join(unparse_list(variants), ", "@) + "]"@,
    }
}

/// The source text of each type.
pub open spec fn unparse_list(ts: Seq<TypeView>) -> Seq<Seq<char>>
    decreases ts,
{
    if ts.len() == 0 {
        Seq::empty()
    } else {
        unparse_list(ts.subrange(0, ts.len() - 1)).push(unparse(ts[ts.len() - 1]))
    }
}

/// The source text `name: type` of each record field.
pub open spec fn unparse_fields(fs: Seq<(Seq<char>, TypeView)>) -> Seq<Seq<char>>
    decreases fs,
{
    if fs.len() == 0 {
        Seq::empty()
    } else {
        unparse_fields(fs.subrange(0, fs.len() - 1)).push(fs[fs.len() - 1].0 + ": "@ + unparse(fs[fs.len() - 1].1))
    }
}

proof fn lemma_unparse_list_take(ts: Seq<TypeView>, i: int)
    requires
        0 <= i < ts.len(),
    ensures
        unparse_list(ts.take(i + 1)) == unparse_list(ts.take(i)).push(unparse(ts[i])),
{
    assert(ts.take(i + 1).subrange(0, i) =~= ts.take(i));
}

proof fn lemma_unparse_fields_take(fs: Seq<(Seq<char>, TypeView)>, i: int)
    requires
        0 <= i < fs.len(),
    ensures
        unparse_fields(fs.take(i + 1)) == unparse_fields(fs.take(i)).push(fs[i].0 + ": "@ + unparse(fs[i].1)),
{
    assert(fs.take(i + 1).subrange(0, i) =~= fs.take(i));
}

fn unparse_types(ts: &Vec<Type>) -> (r: Vec<String>)
    ensures
        string_views(r@) == unparse_list(types_view(ts@)),
    decreases ts, 0nat,
{
    let ghost views = types_view(ts@);
    proof {
        lemma_types_view(ts@);
    }
    let mut out: Vec<String> = Vec::new();
    let mut i: usize = 0;
    while i < ts.len()
        invariant
            i <= ts.len(),
            views == types_view(ts@),
            views.len() == ts.len(),
            forall|j: int| 0 <= j < ts.len() ==> #[trigger] views[j] == ts@[j]@,
            string_views(out@) == unparse_list(views.take(i as int)),
        decreases ts.len() - i,
    {
        let u = unparse_type(&ts[i]);
        proof {
            lemma_string_views_push(out@, u);
            lemma_unparse_list_take(views, i as int);
        }
        out.push(u);
        i = i + 1;
    }
    proof {
        assert(views.take(ts.len() as int) =~= views);
    }
    out
}

fn unparse_record_fields(fs: &Vec<(String, Type)>) -> (r: Vec<String>)
    ensures
        string_views(r@) == unparse_fields(fields_view(fs@)),
    decreases fs, 0nat,
{
    let ghost views = fields_view(fs@);
    proof {
        lemma_fields_view(fs@);
    }
    let mut out: Vec<String> = Vec::new();
    let mut i: usize = 0;
    while i < fs.len()
        invariant
            i <= fs.len(),
            views == fields_view(fs@),
            views.len() == fs.len(),
            forall|j: int| 0 <= j < fs.len() ==> #[trigger] views[j] == (fs@[j].0@, fs@[j].1@),
            string_views(out@) == unparse_fields(views.take(i as int)),
        decreases fs.len() - i,
    {
        let mut u = fs[i].0.clone();
        u.append(": ");
        let t = unparse_type(&fs[i].1);
        u.append(t.as_str());
        proof {
            lemma_string_views_push(out@, u);
            lemma_unparse_fields_take(views, i as int);
        }
        out.push(u);
        i = i + 1;
    }
    proof {
        assert(views.take(fs.len() as int) =~= views);
    }
    out
}

/// The Molten source text of `ttype`.
pub fn unparse_type(ttype: &Type) -> (r: String)
    ensures
        r@ == unparse(ttype@),
    decreases ttype, 1nat,
{
    match ttype {
        Type::Concrete(name) => name.clone(),
        Type::Object(name, types) => {
            proof {
                lemma_types_view(types@);
            }
            let params = if types.len() > 0 {
                let parts = unparse_types(types);
                let mut p = lit("<");
                let joined = join_strings(&parts, ", ");
                p.append(joined.as_str());
                p.append(">");
                p
            } else {
                String::new()
            };
            let mut r = name.clone();
            r.append(params.as_str());
            proof {
                assert(r@ =~= unparse(ttype@));
            }
            r
        },
        Type::Variable(name) => {
            let mut r = lit("'");
            r.append(name.as_str());
            r
        },
        Type::Tuple(types) => {
            let parts = unparse_types(types);
            let mut r = lit("(");
            let joined = join_strings(&parts, ", ");
            r.append(joined.as_str());
            r.append(")");
            r
        },
        Type::Record(fields) => {
            let parts = unparse_record_fields(fields);
            let mut r = lit("{ ");
            let joined = join_strings(&parts, ", ");
            r.append(joined.as_str());
            r.append(" }");
            r
        },
        Type::Function(args, ret, abi) => {
            let parts = unparse_types(args);
            let mut r = lit("(");
            let joined = join_strings(&parts, ", ");
            r.append(joined.as_str());
            r.append(")");
            r.append(" -> ");
            let ret_text = unparse_type(&**ret);
            r.append(ret_text.as_str());
            match abi {
                Abi::Molten => {},
                Abi::C => r.append(" / C"),
            }
            proof {
                assert(r@ =~= unparse(ttype@));
            }
            r
        },
        Type::Ref(inner) => {
            let mut r = lit("ref ");
            let inner_text = unparse_type(&**inner);
            r.append(inner_text.as_str());
            r
        },
        Type::Ambiguous(variants) => {
            let parts = unparse_types(variants);
            let mut r = lit("Ambiguous[");
            let joined = join_strings(&parts, ", ");
            r.append(joined.as_str());
            r.append("]");
            r
        },
    }
}

/// The type a class header stands for.
pub open spec fn class_type(c: ClassSpec) -> TypeView {
    TypeView::Object(c.name@, types_view(c.types@))
}

/// The `decl` line of a function with its name, its visibility and its type,
/// indented by `indent`: empty unless the function is named and public,
/// `None` where it is both but has no type.
pub open spec fn decl_text(
    indent: Seq<char>,
    name: Option<String>,
    vis: Visibility,
    ftype: Option<Type>,
) -> Option<Seq<char>> {
    match name {
        None => Some(Seq::empty()),
        Some(n) => if vis == Visibility::Public {
            match ftype {
                None => None,
                Some(t) => Some(indent + "decl "@ + n@ + " : "@ + unparse(t@) + "\n"@),
            }
        } else {
            Some(Seq::empty())
        },
    }
}

/// The line that declares a class member, or `None` where it has no type.
pub open spec fn member_text(node: AST) -> Option<Seq<char>> {
    match node {
        AST::Definition(mutable, name, ttype, _) => match ttype {
            None => None,
            Some(t) => Some("    let "@ + (if mutable == Mutability::Mutable { "mut "@ } else { Seq::empty() }) + name@
                + " : "@ + unparse(t@) + "\n"@),
        },
        AST::Function(name, vis, _, _, _, ftype) => decl_text("    "@, name, vis, ftype),
        _ => Some(Seq::empty()),
    }
}

/// The declaration lines of all members, or `None` where one has no type.
pub open spec fn members_text(body: Seq<AST>) -> Option<Seq<char>>
    decreases body.len(),
{
    if body.len() == 0 {
        Some(Seq::empty())
    } else {
        match (members_text(body.drop_last()), member_text(body.last())) {
            (Some(a), Some(b)) => Some(a + b),
            _ => None,
        }
    }
}

/// The header of a class: its type and, where it has one, its parent's.
pub open spec fn class_header(classspec: ClassSpec, parentspec: Option<ClassSpec>) -> Seq<char> {
    match parentspec {
        Some(p) => unparse(class_type(classspec)) + " extends "@ + unparse(class_type(p)),
        None => unparse(class_type(classspec)),
    }
}

/// What a top-level node adds to the declaration index, or `None` where a
/// declaration it exports has no type.
pub open spec fn index_node(node: AST) -> Option<Seq<char>>
    decreases node,
{
    match node {
        AST::Function(name, vis, _, _, _, ftype) => decl_text(Seq::empty(), name, vis, ftype),
        AST::Definition(_, _, _, body) => match *body {
            AST::Class(_, _, _, _) => index_node(*body),
            _ => Some(Seq::empty()),
        },
        AST::Class(classspec, parentspec, body, _) => match members_text(body@) {
            None => None,
            Some(m) => Some("class "@ + class_header(classspec, parentspec) + " {\n"@ + m + "}\n"@),
        },
        _ => Some(Seq::empty()),
    }
}

/// The declaration index of a program, or `None` where a declaration it
/// exports has no type.
pub open spec fn index_text(code: Seq<AST>) -> Option<Seq<char>>
    decreases code.len(),
{
    if code.len() == 0 {
        Some(Seq::empty())
    } else {
        match (index_text(code.drop_last()), index_node(code.last())) {
            (Some(a), Some(b)) => Some(a + b),
            _ => None,
        }
    }
}

/// The index of a program is the index of its first part followed by the
/// index of the rest: each node contributes on its own, in order, and the
/// index is missing exactly where a part's is.
pub proof fn law_index_concat(a: Seq<AST>, b: Seq<AST>)
    ensures
        index_text(a + b) == match (index_text(a), index_text(b)) {
            (Some(x), Some(y)) => Some(x + y),
            _ => None,
        },
    decreases b.len(),
{
    if b.len() == 0 {
        assert(a + b =~= a);
        if let Some(x) = index_text(a) {
            assert(x + Seq::<char>::empty() =~= x);
        }
    } else {
        let b1 = b.drop_last();
        law_index_concat(a, b1);
        assert((a + b).drop_last() =~= a + b1);
        assert((a + b).last() == b.last());
        if let (Some(x), Some(y1), Some(z)) = (index_text(a), index_text(b1), index_node(b.last())) {
            assert(x + y1 + z =~= x + (y1 + z));
        }
    }
}

/// An empty program has an empty index.
pub proof fn law_index_empty()
    ensures
        index_text(Seq::<AST>::empty()) == Some(Seq::<char>::empty()),
{
}

proof fn lemma_members_prefix(body: Seq<AST>, k: int)
    requires
        members_text(body) is Some,
        0 <= k <= body.len(),
    ensures
        members_text(body.take(k)) is Some,
        k < body.len() ==> member_text(body[k]) is Some,
        members_text(body.take(k + 1)) == match (members_text(body.take(k)), member_text(body[k])) {
            (Some(a), Some(b)) => Some(a + b),
            _ => None,
        } || k == body.len(),
    decreases body.len(),
{
    if k == body.len() {
        assert(body.take(k) =~= body);
    } else {
        let b1 = body.drop_last();
        if k < body.len() - 1 {
            lemma_members_prefix(b1, k);
            assert(b1.take(k) =~= body.take(k));
            assert(b1.take(k + 1) =~= body.take(k + 1));
        } else {
            assert(b1 =~= body.take(k));
            assert(body.take(k + 1) =~= body);
        }
        assert(body.take(k + 1).drop_last() =~= body.take(k));
    }
}

proof fn lemma_index_prefix(code: Seq<AST>, k: int)
    requires
        index_text(code) is Some,
        0 <= k <= code.len(),
    ensures
        index_text(code.take(k)) is Some,
        k < code.len() ==> index_node(code[k]) is Some,
        index_text(code.take(k + 1)) == match (index_text(code.take(k)), index_node(code[k])) {
            (Some(a), Some(b)) => Some(a + b),
            _ => None,
        } || k == code.len(),
    decreases code.len(),
{
    if k == code.len() {
        assert(code.take(k) =~= code);
    } else {
        let c1 = code.drop_last();
        if k < code.len() - 1 {
            lemma_index_prefix(c1, k);
            assert(c1.take(k) =~= code.take(k));
            assert(c1.take(k + 1) =~= code.take(k + 1));
        } else {
            assert(c1 =~= code.take(k));
            assert(code.take(k + 1) =~= code);
        }
        assert(code.take(k + 1).drop_last() =~= code.take(k));
    }
}

/// The type a class header stands for (`Type::from_spec`).
pub fn class_spec_type(classspec: &ClassSpec) -> (r: Type)
    ensures
        r@ == class_type(*classspec),
{
    let mut types: Vec<Type> = Vec::new();
    let mut i: usize = 0;
    while i < classspec.types.len()
        invariant
            i <= classspec.types.len(),
            types_view(types@) == types_view(classspec.types@.take(i as int)),
        decreases classspec.types.len() - i,
    {
        let c = clone_type(&classspec.types[i]);
        proof {
            crate::types::lemma_types_view_push(types@, c);
            assert(classspec.types@.take(i + 1) =~= classspec.types@.take(i as int).push(classspec.types@[i as int]));
            crate::types::lemma_types_view_push(classspec.types@.take(i as int), classspec.types@[i as int]);
        }
        types.push(c);
        i = i + 1;
    }
    proof {
        assert(classspec.types@.take(classspec.types.len() as int) =~= classspec.types@);
    }
    Type::Object(classspec.name.clone(), types)
}

fn append_decl(index: &mut String, indent: &str, name: &Option<String>, vis: Visibility, ftype: &Option<Type>)
    requires
        decl_text(indent@, *name, vis, *ftype) is Some,
    ensures
        final(index)@ == old(index)@ + decl_text(indent@, *name, vis, *ftype)->0,
{
    if let Some(ident) = name {
        if vis == Visibility::Public {
            let ttype = ftype.as_ref().unwrap();
            index.append(indent);
            index.append("decl ");
            index.append(ident.as_str());
            index.append(" : ");
            let t = unparse_type(ttype);
            index.append(t.as_str());
            index.append("\n");
            return;
        }
    }
    proof {
        assert(old(index)@ + decl_text(indent@, *name, vis, *ftype)->0 =~= old(index)@);
    }
}

fn decl_typed(name: &Option<String>, vis: Visibility, ftype: &Option<Type>) -> (r: bool)
    ensures
        r == (decl_text(Seq::empty(), *name, vis, *ftype) is Some),
{
    !(name.is_some() && vis == Visibility::Public && ftype.is_none())
}

fn node_typed(node: &AST) -> (r: bool)
    ensures
        r == (index_node(*node) is Some),
    decreases node,
{
    match node {
        AST::Function(name, vis, _, _, _, ftype) => decl_typed(name, *vis, ftype),
        AST::Definition(_, _, _, body) => match &**body {
            AST::Class(_, _, _, _) => node_typed(&**body),
            _ => true,
        },
        AST::Class(_, _, body, _) => {
            let mut i: usize = 0;
            proof {
                assert(body@.take(0) =~= Seq::<AST>::empty());
            }
            while i < body.len()
                invariant
                    i <= body.len(),
                    (index_node(*node) is Some) == (members_text(body@) is Some),
                    members_text(body@.take(i as int)) is Some,
                decreases body.len() - i,
            {
                proof {
                    assert(body@.take(i + 1).drop_last() =~= body@.take(i as int));
                }
                let ok = match &body[i] {
                    AST::Definition(_, _, ttype, _) => ttype.is_some(),
                    AST::Function(name, vis, _, _, _, ftype) => {
                        let typed = decl_typed(name, *vis, ftype);
                        proof {
                            assert((decl_text("    "@, *name, *vis, *ftype) is Some) == (decl_text(Seq::empty(), *name, *vis, *ftype) is Some));
                        }
                        typed
                    },
                    _ => true,
                };
                if !ok {
                    proof {
                        assert(member_text(body@[i as int]) is None);
                        lemma_members_none(body@, i as int);
                        assert(members_text(body@) is None);
                    }
                    return false;
                }
                i = i + 1;
            }
            proof {
                assert(body@.take(body.len() as int) =~= body@);
            }
            true
        },
        _ => true,
    }
}

/// A member that has no type leaves the whole class without declarations.
proof fn lemma_members_none(body: Seq<AST>, k: int)
    requires
        0 <= k < body.len(),
        member_text(body[k]) is None,
    ensures
        members_text(body) is None,
    decreases body.len(),
{
    if k < body.len() - 1 {
        lemma_members_none(body.drop_last(), k);
    }
}

/// A node that has no type leaves the whole program without an index.
proof fn lemma_index_none(code: Seq<AST>, k: int)
    requires
        0 <= k < code.len(),
        index_node(code[k]) is None,
    ensures
        index_text(code) is None,
    decreases code.len(),
{
    if k < code.len() - 1 {
        lemma_index_none(code.drop_last(), k);
    }
}

/// Whether every declaration that `build_index` exports has a type, so
/// that the index can be built.
pub fn exports_typed(code: &Vec<AST>) -> (r: bool)
    ensures
        r == (index_text(code@) is Some),
{
    let mut i: usize = 0;
    proof {
        assert(code@.take(0) =~= Seq::<AST>::empty());
    }
    while i < code.len()
        invariant
            i <= code.len(),
            index_text(code@.take(i as int)) is Some,
        decreases code.len() - i,
    {
        proof {
            assert(code@.take(i + 1).drop_last() =~= code@.take(i as int));
        }
        if !node_typed(&code[i]) {
            proof {
                lemma_index_none(code@, i as int);
            }
            return false;
        }
        i = i + 1;
    }
    proof {
        assert(code@.take(code.len() as int) =~= code@);
    }
    true
}

/// Appends to `index` what the top-level `node` adds to the declaration index.
pub fn build_index_node(index: &mut String, node: &AST)
    requires
        index_node(*node) is Some,
    ensures
        final(index)@ == old(index)@ + index_node(*node)->0,
    decreases node,
{
    match node {
        AST::Function(name, vis, _, _, _, ftype) => {
            append_decl(index, "", name, *vis, ftype);
            proof {
                reveal_strlit("");
            }
        },
        AST::Definition(_, _, _, body) => match &**body {
            AST::Class(_, _, _, _) => build_index_node(index, &**body),
            _ => {
                proof {
                    assert(old(index)@ + index_node(*node)->0 =~= old(index)@);
                }
            },
        },
        AST::Class(classspec, parentspec, body, _) => {
            let namespec = unparse_type(&class_spec_type(classspec));
            let fullspec = match parentspec {
                Some(parent) => {
                    let mut f = namespec.clone();
                    f.append(" extends ");
                    let p = unparse_type(&class_spec_type(parent));
                    f.append(p.as_str());
                    f
                },
                None => namespec.clone(),
            };
            let ghost start = index@;
            index.append("class ");
            index.append(fullspec.as_str());
            index.append(" {\n");
            let ghost header = index@;
            let mut i: usize = 0;
            proof {
                assert(body@.take(0) =~= Seq::<AST>::empty());
                lemma_members_prefix(body@, 0);
            }
            while i < body.len()
                invariant
                    i <= body.len(),
                    members_text(body@) is Some,
                    members_text(body@.take(i as int)) is Some,
                    index@ == header + members_text(body@.take(i as int))->0,
                decreases body.len() - i,
            {
                proof {
                    lemma_members_prefix(body@, i as int);
                    lemma_members_prefix(body@, i + 1);
                }
                let ghost before = index@;
                match &body[i] {
                    AST::Definition(mutable, name, ttype, _) => {
                        let t = unparse_type(ttype.as_ref().unwrap());
                        index.append("    let ");
                        if *mutable == Mutability::Mutable {
                            index.append("mut ");
                        }
                        index.append(name.as_str());
                        index.append(" : ");
                        index.append(t.as_str());
                        index.append("\n");
                        proof {
                            assert(index@ =~= before + member_text(body@[i as int])->0);
                        }
                    },
                    AST::Function(name, vis, _, _, _, ftype) => {
                        append_decl(index, "    ", name, *vis, ftype);
                    },
                    _ => {
                        proof {
                            assert(index@ =~= before + member_text(body@[i as int])->0);
                        }
                    },
                }
                i = i + 1;
            }
            proof {
                assert(body@.take(body.len() as int) =~= body@);
            }
            index.append("}\n");
            proof {
                assert(index@ =~= old(index)@ + index_node(*node)->0);
            }
        },
        _ => {
            proof {
                assert(old(index)@ + index_node(*node)->0 =~= old(index)@);
            }
        },
    }
}

/// The declaration index of a program: for each public named function a
/// `decl` line with its type, and for each class a block declaring its
/// fields and public methods.
pub fn build_index(code: &Vec<AST>) -> (r: String)
    requires
        index_text(code@) is Some,
    ensures
        index_text(code@) == Some(r@),
{
    let mut index = String::new();
    let mut i: usize = 0;
    proof {
        assert(code@.take(0) =~= Seq::<AST>::empty());
        lemma_index_prefix(code@, 0);
    }
    while i < code.len()
        invariant
            i <= code.len(),
            index_text(code@) is Some,
            index_text(code@.take(i as int)) == Some(index@),
        decreases code.len() - i,
    {
        proof {
            lemma_index_prefix(code@, i as int);
            lemma_index_prefix(code@, i + 1);
        }
        build_index_node(&mut index, &code[i]);
        i = i + 1;
    }
    proof {
        assert(code@.take(code.len() as int) =~= code@);
    }
    index
}

/// A function type prints as the tuple of its argument types, an arrow and
/// its return type, then its calling convention: a function of no
/// arguments as `() -> ...`, one of a single argument with that argument in
/// parentheses.
pub proof fn law_function_type_text(args: Seq<TypeView>, ret: TypeView, abi: Abi, a: TypeView)
    ensures
        unparse(TypeView::Function(args, Box::new(ret), abi)) == unparse(TypeView::Tuple(args)) + " -> "@
            + unparse(ret) + abi_text(abi),
        unparse(TypeView::Function(Seq::empty(), Box::new(ret), abi)) == "() -> "@ + unparse(ret) + abi_text(abi),
        unparse(TypeView::Function(seq![a], Box::new(ret), abi)) == "("@ + unparse(a) + ") -> "@ + unparse(ret)
            + abi_text(abi),
        unparse(TypeView::Function(Seq::empty(), Box::new(ret), Abi::C)) == "() -> "@ + unparse(ret) + " / C"@,
{
    reveal_strlit("() -> ");
    reveal_strlit("(");
    reveal_strlit(")");
    reveal_strlit(" -> ");
    reveal_strlit(") -> ");
    assert(unparse_list(Seq::<TypeView>::empty()) =~= Seq::<Seq<char>>::empty());
    assert("("@ + join(Seq::<Seq<char>>::empty(), ", "@) + ")"@ + " -> "@ =~= "() -> "@);
    let one = seq![a];
    assert(one.subrange(0, 0) =~= Seq::<TypeView>::empty());
    assert(unparse_list(one) =~= seq![unparse(a)]);
    assert(join(seq![unparse(a)], ", "@) == unparse(a));
    assert("("@ + unparse(a) + ")"@ + " -> "@ =~= "("@ + unparse(a) + ") -> "@);
}

/// The header of a class shows the class's full type, type parameters
/// included; with a parent, it is the class's own header, ` extends `, and
/// the parent's header, whose type parameters are shown in the same way.
pub proof fn law_class_header_shows_full_types(c: ClassSpec, p: ClassSpec)
    ensures
        class_header(c, None) == unparse(class_type(c)),
        class_header(c, Some(p)) == class_header(c, None) + " extends "@ + class_header(p, None),
        c.types@.len() == 0 ==> class_header(c, None) == c.name@,
        c.types@.len() == 1 ==> class_header(c, None) == c.name@ + "<"@ + unparse(c.types@[0]@) + ">"@,
{
    lemma_types_view(c.types@);
    let tv = types_view(c.types@);
    if c.types@.len() == 0 {
        assert(c.name@ + Seq::<char>::empty() =~= c.name@);
    }
    if c.types@.len() == 1 {
        assert(tv.subrange(0, 0) =~= Seq::<TypeView>::empty());
        assert(unparse_list(tv.subrange(0, 0)) =~= Seq::<Seq<char>>::empty());
        assert(unparse_list(tv) =~= seq![unparse(tv[0])]);
        assert(join(seq![unparse(tv[0])], ", "@) == unparse(tv[0]));
    }
}

/// The index entry of a class without members and with a parent names the
/// class and the parent by their full types.
pub proof fn law_class_index_entry(c: ClassSpec, p: ClassSpec, body: Vec<AST>, cscope: usize)
    requires
        body@.len() == 0,
    ensures
        index_node(AST::Class(c, Some(p), body, cscope)) == Some("class "@ + unparse(class_type(c)) + " extends "@
            + unparse(class_type(p)) + " {\n}\n"@),
{
    reveal_strlit(" {\n");
    reveal_strlit("}\n");
    reveal_strlit(" {\n}\n");
    let h = "class "@ + unparse(class_type(c)) + " extends "@ + unparse(class_type(p));
    assert(h + " {\n"@ + Seq::<char>::empty() + "}\n"@ =~= h + " {\n}\n"@);
}

/// How each kind of type is written: a concrete type by its name, a type
/// variable with a leading `'`, a reference with `ref `, a tuple as its
/// parts in parentheses separated by `, `, an object type by its name and,
/// where it has any, its parameters in angle brackets.
pub proof fn law_type_texts(name: Seq<char>, a: TypeView, b: TypeView)
    ensures
        unparse(TypeView::Concrete(name)) == name,
        unparse(TypeView::Variable(name)) == "'"@ + name,
        unparse(TypeView::Ref(Box::new(a))) == "ref "@ + unparse(a),
        unparse(TypeView::Tuple(Seq::empty())) == "()"@,
        unparse(TypeView::Tuple(seq![a, b])) == "("@ + unparse(a) + ", "@ + unparse(b) + ")"@,
        unparse(TypeView::Object(name, Seq::empty())) == name,
        unparse(TypeView::Object(name, seq![a])) == name + "<"@ + unparse(a) + ">"@,
{
    reveal_strlit("()");
    reveal_strlit("(");
    reveal_strlit(")");
    assert(unparse_list(Seq::<TypeView>::empty()) =~= Seq::<Seq<char>>::empty());
    assert("("@ + join(Seq::<Seq<char>>::empty(), ", "@) + ")"@ =~= "()"@);
    assert(name + Seq::<char>::empty() =~= name);
    let one = seq![a];
    assert(one.subrange(0, 0) =~= Seq::<TypeView>::empty());
    assert(unparse_list(one) =~= seq![unparse(a)]);
    let two = seq![a, b];
    assert(two.subrange(0, 1) =~= one);
    assert(unparse_list(two) =~= seq![unparse(a), unparse(b)]);
    assert(seq![unparse(a), unparse(b)].drop_last() =~= seq![unparse(a)]);
    assert(join(seq![unparse(a)], ", "@) == unparse(a));
    assert(seq![unparse(a), unparse(b)].last() == unparse(b));
    assert(join(seq![unparse(a), unparse(b)], ", "@) == unparse(a) + ", "@ + unparse(b));
}

/// A named public function with a type gets the line `decl <name> : <type>`;
/// a private or unnamed one gets nothing; a named public one without a type
/// has no index line at all.
pub proof fn law_decl_lines(indent: Seq<char>, name: String, ftype: Type)
    ensures
        decl_text(indent, Some(name), Visibility::Public, Some(ftype)) == Some(indent + "decl "@ + name@ + " : "@
            + unparse(ftype@) + "\n"@),
        decl_text(indent, Some(name), Visibility::Private, Some(ftype)) == Some(Seq::<char>::empty()),
        decl_text(indent, None, Visibility::Public, Some(ftype)) == Some(Seq::<char>::empty()),
        decl_text(indent, Some(name), Visibility::Public, None) is None,
{
}

} // verus!
