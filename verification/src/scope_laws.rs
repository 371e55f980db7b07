use vstd::prelude::*;
use crate::ast::{AST, ScopeRef};
use crate::scope::{
    ScopeView, SymbolView, step, walk, stops_at, search_len, name_search_ends, type_search_ends,
    owner_from, names_sel, types_sel, lookup_name, lookup_type, type_owner, defined, can_define,
    with_typevar, typevar, can_make_typevar, free_letter, free_letter_from, letter, with_type,
    with_parent, type_updated, lemma_search_len, letters_searchable, with_globals, builtin_scope, bind_node, bind_list,
    bind_cases, bind_args, opt_type,
};
use crate::types::{Type, TypeView};

verus! {

/// Stepping first and then walking `n` steps is walking `n + 1` steps.
pub proof fn lemma_walk_shift(t: Seq<ScopeView>, cur: Option<ScopeRef>, n: nat)
    ensures
        walk(t, step(t, cur), n) == walk(t, cur, n + 1),
    decreases n,
{
    if n > 0 {
        lemma_walk_shift(t, cur, (n - 1) as nat);
        assert(walk(t, step(t, cur), n) == step(t, walk(t, step(t, cur), (n - 1) as nat)));
        assert(walk(t, cur, n + 1) == step(t, walk(t, cur, n)));
    } else {
        assert(walk(t, cur, 1) == step(t, walk(t, cur, 0)));
    }
}

/// The search for an owner gives the same answer for any number of steps
/// after which the search has stopped.
pub proof fn lemma_owner_fuel<X>(
    t: Seq<ScopeView>,
    cur: Option<ScopeRef>,
    key: Seq<char>,
    f1: nat,
    f2: nat,
    sel: spec_fn(ScopeView) -> Map<Seq<char>, X>,
)
    requires
        stops_at(t, walk(t, cur, f1), key, sel),
        stops_at(t, walk(t, cur, f2), key, sel),
    ensures
        owner_from(t, cur, key, f1, sel) == owner_from(t, cur, key, f2, sel),
    decreases f1,
{
    match cur {
        None => {},
        Some(j) => {
            if !(j < t.len() && sel(t[j as int]).contains_key(key)) {
                lemma_walk_shift(t, cur, (f1 - 1) as nat);
                lemma_walk_shift(t, cur, (f2 - 1) as nat);
                lemma_owner_fuel(t, step(t, cur), key, (f1 - 1) as nat, (f2 - 1) as nat, sel);
            }
        },
    }
}

/// Tables with the same parents walk alike.
pub proof fn lemma_walk_same_parents(t1: Seq<ScopeView>, t2: Seq<ScopeView>, cur: Option<ScopeRef>, n: nat)
    requires
        t1.len() == t2.len(),
        forall|i: int| 0 <= i < t1.len() ==> #[trigger] t1[i].parent == t2[i].parent,
    ensures
        walk(t1, cur, n) == walk(t2, cur, n),
    decreases n,
{
    if n > 0 {
        lemma_walk_same_parents(t1, t2, cur, (n - 1) as nat);
    }
}

/// Tables with the same parents, whose selected maps hold `key` in the same
/// scopes, find the same owner of `key`.
pub proof fn lemma_owner_same<X>(
    t1: Seq<ScopeView>,
    t2: Seq<ScopeView>,
    cur: Option<ScopeRef>,
    key: Seq<char>,
    fuel: nat,
    sel: spec_fn(ScopeView) -> Map<Seq<char>, X>,
)
    requires
        t1.len() == t2.len(),
        forall|i: int| 0 <= i < t1.len() ==> #[trigger] t1[i].parent == t2[i].parent,
        forall|i: int| 0 <= i < t1.len() ==> sel(#[trigger] t1[i]).contains_key(key) == sel(t2[i]).contains_key(key),
    ensures
        owner_from(t1, cur, key, fuel, sel) == owner_from(t2, cur, key, fuel, sel),
    decreases fuel,
{
    match cur {
        None => {},
        Some(j) => {
            if fuel > 0 {
                lemma_owner_same(t1, t2, step(t1, cur), key, (fuel - 1) as nat, sel);
            }
        },
    }
}

/// A name defined in a scope is found there: looking it up from that scope
/// gives the symbol that `define` made.
pub proof fn law_find_after_define(t: Seq<ScopeView>, s: ScopeRef, name: Seq<char>, ttype: Option<TypeView>)
    requires
        can_define(t, s, name, ttype),
    ensures
        lookup_name(defined(t, s, name, ttype), s, name) == Some(SymbolView {
            ttype: match ttype {
                Some(tv) => tv,
                None => typevar(t, s),
            },
            value: None,
        }),
{
}

/// Tables with the same parents, whose selected maps hold `key` in the same
/// scopes, stop a search for `key` at the same places.
proof fn lemma_stops_same<X>(
    t1: Seq<ScopeView>,
    t2: Seq<ScopeView>,
    cur: Option<ScopeRef>,
    key: Seq<char>,
    n: nat,
    sel: spec_fn(ScopeView) -> Map<Seq<char>, X>,
)
    requires
        t1.len() == t2.len(),
        forall|i: int| 0 <= i < t1.len() ==> #[trigger] t1[i].parent == t2[i].parent,
        forall|i: int| 0 <= i < t1.len() ==> sel(#[trigger] t1[i]).contains_key(key) == sel(t2[i]).contains_key(key),
    ensures
        walk(t1, cur, n) == walk(t2, cur, n),
        stops_at(t1, walk(t1, cur, n), key, sel) == stops_at(t2, walk(t2, cur, n), key, sel),
{
    lemma_walk_same_parents(t1, t2, cur, n);
}

/// Defining a name changes what no other name denotes, from any scope whose
/// search for that name stops.
pub proof fn law_define_keeps_other_names(
    t: Seq<ScopeView>,
    s: ScopeRef,
    name: Seq<char>,
    ttype: Option<TypeView>,
    s2: ScopeRef,
    name2: Seq<char>,
)
    requires
        can_define(t, s, name, ttype),
        name_search_ends(t, s2, name2),
        name2 != name,
    ensures
        name_search_ends(defined(t, s, name, ttype), s2, name2),
        lookup_name(defined(t, s, name, ttype), s2, name2) == lookup_name(t, s2, name2),
{
    let t2 = defined(t, s, name, ttype);
    assert(t2.len() == t.len());
    assert forall|i: int| 0 <= i < t.len() implies #[trigger] t[i].parent == t2[i].parent by {}
    assert forall|i: int| 0 <= i < t.len() implies names_sel()(#[trigger] t[i]).contains_key(name2)
        == names_sel()(t2[i]).contains_key(name2) by {}
    let n = search_len(t, s2, name2, names_sel());
    lemma_search_len(t, s2, name2, names_sel());
    lemma_stops_same(t, t2, Some(s2), name2, n, names_sel());
    assert(name_search_ends(t2, s2, name2));
    let m = search_len(t2, s2, name2, names_sel());
    lemma_search_len(t2, s2, name2, names_sel());
    lemma_owner_same(t, t2, Some(s2), name2, n, names_sel());
    lemma_owner_fuel(t2, Some(s2), name2, n, m, names_sel());
    lemma_owner_holds(t, Some(s2), name2, n, names_sel());
}

/// A name a scope does not define is looked up in its parent.
pub proof fn law_lookup_falls_back_to_parent(t: Seq<ScopeView>, s: ScopeRef, p: ScopeRef, name: Seq<char>)
    requires
        s < t.len(),
        t[s as int].parent == Some(p),
        !t[s as int].names.contains_key(name),
        name_search_ends(t, s, name),
    ensures
        name_search_ends(t, p, name),
        lookup_name(t, s, name) == lookup_name(t, p, name),
{
    let n = search_len(t, s, name, names_sel());
    lemma_search_len(t, s, name, names_sel());
    assert(n > 0);
    lemma_walk_shift(t, Some(s), (n - 1) as nat);
    assert(step(t, Some(s)) == Some(p));
    assert(stops_at(t, walk(t, Some(p), (n - 1) as nat), name, names_sel()));
    assert(name_search_ends(t, p, name));
    lemma_search_len(t, p, name, names_sel());
    lemma_owner_fuel(t, Some(p), name, (n - 1) as nat, search_len(t, p, name, names_sel()), names_sel());
}

/// A name a scope defines shadows every definition in its enclosing scopes.
pub proof fn law_lookup_prefers_own_definition(t: Seq<ScopeView>, s: ScopeRef, name: Seq<char>)
    requires
        s < t.len(),
        t[s as int].names.contains_key(name),
    ensures
        lookup_name(t, s, name) == Some(t[s as int].names[name]),
{
}

/// A type name defined in a scope is found there.
pub proof fn law_find_type_after_define_type(t: Seq<ScopeView>, s: ScopeRef, name: Seq<char>, ttype: TypeView)
    requires
        s < t.len(),
    ensures
        lookup_type(t.update(s as int, with_type(t[s as int], name, ttype)), s, name) == Some(ttype),
{
}

/// `free_letter_from` finds a letter whose type name is not visible.
proof fn lemma_free_letter_from(t: Seq<ScopeView>, s: ScopeRef, k: nat)
    requires
        free_letter_from(t, s, k) is Some,
    ensures
        lookup_type(t, s, seq![free_letter_from(t, s, k)->0]) is None,
    decreases 26 - k,
{
    if k < 26 && lookup_type(t, s, seq![letter(k as int)]) is Some {
        lemma_free_letter_from(t, s, k + 1);
    }
}

/// Where each search for a letter stops until one is free, a free letter is found.
proof fn lemma_searchable_has_free(t: Seq<ScopeView>, s: ScopeRef, k: nat)
    requires
        letters_searchable(t, s, k),
    ensures
        free_letter_from(t, s, k) is Some,
    decreases 26 - k,
{
    if lookup_type(t, s, seq![letter(k as int)]) is Some {
        lemma_searchable_has_free(t, s, k + 1);
    }
}

/// A fresh type variable is a type name that was visible nowhere on the
/// chain before, and is visible from the scope after.
pub proof fn law_new_typevar_is_fresh(t: Seq<ScopeView>, s: ScopeRef)
    requires
        can_make_typevar(t, s),
    ensures
        typevar(t, s) matches TypeView::Variable(name) && {
            &&& lookup_type(t, s, name) is None
            &&& lookup_type(with_typevar(t, s), s, name) == Some(typevar(t, s))
        },
{
    lemma_searchable_has_free(t, s, 0);
    lemma_free_letter_from(t, s, 0);
}

/// An owner holds the key.
proof fn lemma_owner_holds<X>(
    t: Seq<ScopeView>,
    cur: Option<ScopeRef>,
    key: Seq<char>,
    fuel: nat,
    sel: spec_fn(ScopeView) -> Map<Seq<char>, X>,
)
    ensures
        owner_from(t, cur, key, fuel, sel) matches Some(j) ==> j < t.len() && sel(t[j as int]).contains_key(key),
    decreases fuel,
{
    if let Some(c) = cur {
        if !(c < t.len() && sel(t[c as int]).contains_key(key)) && fuel > 0 {
            lemma_owner_holds(t, step(t, cur), key, (fuel - 1) as nat, sel);
        }
    }
}

/// An owner found within `fuel` steps is where the walk stands after some
/// number of steps, so the search for its key stops.
proof fn lemma_owner_on_walk<X>(
    t: Seq<ScopeView>,
    cur: Option<ScopeRef>,
    key: Seq<char>,
    fuel: nat,
    sel: spec_fn(ScopeView) -> Map<Seq<char>, X>,
)
    requires
        owner_from(t, cur, key, fuel, sel) is Some,
    ensures
        exists|k: nat| stops_at(t, #[trigger] walk(t, cur, k), key, sel),
    decreases fuel,
{
    let c = cur->0;
    if c < t.len() && sel(t[c as int]).contains_key(key) {
        assert(stops_at(t, walk(t, cur, 0), key, sel));
    } else {
        lemma_owner_on_walk(t, step(t, cur), key, (fuel - 1) as nat, sel);
        let k = choose|k: nat| stops_at(t, #[trigger] walk(t, step(t, cur), k), key, sel);
        lemma_walk_shift(t, cur, k);
        assert(stops_at(t, walk(t, cur, k + 1), key, sel));
    }
}

/// After changing the visible definition of a type name, looking it up from
/// the same scope gives the new type.
pub proof fn law_find_type_after_update_type(t: Seq<ScopeView>, s: ScopeRef, name: Seq<char>, ttype: TypeView)
    requires
        s < t.len(),
        lookup_type(t, s, name) is Some,
    ensures
        type_search_ends(type_updated(t, s, name, ttype), s, name),
        lookup_type(type_updated(t, s, name, ttype), s, name) == Some(ttype),
{
    let n = search_len(t, s, name, types_sel());
    let j = type_owner(t, s, name)->0;
    lemma_owner_holds(t, Some(s), name, n, types_sel());
    lemma_owner_on_walk(t, Some(s), name, n, types_sel());
    assert(type_search_ends(t, s, name));
    lemma_search_len(t, s, name, types_sel());
    let t2 = type_updated(t, s, name, ttype);
    assert(t2.len() == t.len());
    assert forall|i: int| 0 <= i < t.len() implies #[trigger] t[i].parent == t2[i].parent by {}
    assert forall|i: int| 0 <= i < t.len() implies types_sel()(#[trigger] t[i]).contains_key(name)
        == types_sel()(t2[i]).contains_key(name) by {}
    lemma_stops_same(t, t2, Some(s), name, n, types_sel());
    assert(type_search_ends(t2, s, name));
    lemma_search_len(t2, s, name, types_sel());
    lemma_owner_same(t, t2, Some(s), name, n, types_sel());
    lemma_owner_fuel(t2, Some(s), name, n, search_len(t2, s, name, types_sel()), types_sel());
}

/// `t2` keeps every definition of `t`: the same scopes, each defining at
/// least the names and type names it defined, with the same meaning.
pub open spec fn extends(t: Seq<ScopeView>, t2: Seq<ScopeView>) -> bool {
    &&& t2.len() == t.len()
    &&& forall|i: int| 0 <= i < t.len() ==> {
        &&& (#[trigger] t[i]).names.submap_of(t2[i].names)
        &&& t[i].types.submap_of(t2[i].types)
    }
}

proof fn lemma_extends_refl(t: Seq<ScopeView>)
    ensures
        extends(t, t),
{
}

proof fn lemma_extends_trans(a: Seq<ScopeView>, b: Seq<ScopeView>, c: Seq<ScopeView>)
    requires
        extends(a, b),
        extends(b, c),
    ensures
        extends(a, c),
{
    assert forall|i: int| 0 <= i < a.len() implies {
        &&& (#[trigger] a[i]).names.submap_of(c[i].names)
        &&& a[i].types.submap_of(c[i].types)
    } by {
        assert(b[i].names.submap_of(c[i].names));
        assert(b[i].types.submap_of(c[i].types));
        vstd::map_lib::lemma_submap_of_trans(a[i].names, b[i].names, c[i].names);
        vstd::map_lib::lemma_submap_of_trans(a[i].types, b[i].types, c[i].types);
    }
}

proof fn lemma_set_parent_extends(t: Seq<ScopeView>, c: ScopeRef, p: Option<ScopeRef>)
    requires
        c < t.len(),
    ensures
        extends(t, t.update(c as int, with_parent(t[c as int], p))),
{
}

proof fn lemma_defined_extends(t: Seq<ScopeView>, s: ScopeRef, name: Seq<char>, ttype: Option<TypeView>)
    requires
        can_define(t, s, name, ttype),
    ensures
        extends(t, defined(t, s, name, ttype)),
{
    let t2 = defined(t, s, name, ttype);
    if ttype is None {
        lemma_searchable_has_free(t, s, 0);
        lemma_free_letter_from(t, s, 0);
        let c = free_letter(t, s)->0;
        assert(!t[s as int].types.contains_key(seq![c]));
    }
    assert forall|i: int| 0 <= i < t.len() implies {
        &&& (#[trigger] t[i]).names.submap_of(t2[i].names)
        &&& t[i].types.submap_of(t2[i].types)
    } by {}
}

proof fn lemma_bind_args_extends(t: Seq<ScopeView>, s: ScopeRef, args: Seq<(String, Option<Type>, Option<AST>)>)
    requires
        bind_args(t, s, args) is Some,
    ensures
        extends(t, bind_args(t, s, args)->0),
    decreases args.len(),
{
    if args.len() == 0 {
        lemma_extends_refl(t);
    } else {
        lemma_bind_args_extends(t, s, args.drop_last());
        let t1 = bind_args(t, s, args.drop_last())->0;
        lemma_defined_extends(t1, s, args.last().0@, opt_type(args.last().1));
        lemma_extends_trans(t, t1, bind_args(t, s, args)->0);
    }
}

/// Binding names only adds definitions: every name and type name a scope
/// defined before is defined there after, with the same meaning, and no
/// scope is added or removed.
pub proof fn law_bind_only_adds(t: Seq<ScopeView>, s: ScopeRef, node: AST)
    requires
        bind_node(t, s, node) is Some,
    ensures
        extends(t, bind_node(t, s, node)->0),
    decreases node,
{
    let r = bind_node(t, s, node)->0;
    match node {
        AST::Definition(_, name, ttype, code) => {
            let t1 = defined(t, s, name@, opt_type(ttype));
            lemma_defined_extends(t, s, name@, opt_type(ttype));
            law_bind_only_adds(t1, s, *code);
            lemma_extends_trans(t, t1, r);
        },
        AST::Function(_, _, args, body, fscope, _) => {
            let t1 = t.update(fscope as int, with_parent(t[fscope as int], Some(s)));
            lemma_set_parent_extends(t, fscope, Some(s));
            lemma_bind_args_extends(t1, fscope, args@);
            let t2 = bind_args(t1, fscope, args@)->0;
            law_bind_only_adds(t2, fscope, *body);
            lemma_extends_trans(t, t1, t2);
            lemma_extends_trans(t, t2, r);
        },
        AST::List(code) => lemma_bind_list_extends(t, s, code@),
        AST::Block(code) => lemma_bind_list_extends(t, s, code@),
        AST::Index(base, index) => {
            law_bind_only_adds(t, s, *base);
            let t1 = bind_node(t, s, *base)->0;
            law_bind_only_adds(t1, s, *index);
            lemma_extends_trans(t, t1, r);
        },
        AST::Accessor(left, _) => law_bind_only_adds(t, s, *left),
        AST::Invoke(_, code) => lemma_bind_list_extends(t, s, code@),
        AST::If(cond, texpr, fexpr) => {
            law_bind_only_adds(t, s, *cond);
            let t1 = bind_node(t, s, *cond)->0;
            law_bind_only_adds(t1, s, *texpr);
            let t2 = bind_node(t1, s, *texpr)->0;
            law_bind_only_adds(t2, s, *fexpr);
            lemma_extends_trans(t, t1, t2);
            lemma_extends_trans(t, t2, r);
        },
        AST::Raise(expr) => law_bind_only_adds(t, s, *expr),
        AST::Try(cond, cases) => {
            law_bind_only_adds(t, s, *cond);
            let t1 = bind_node(t, s, *cond)->0;
            lemma_bind_cases_extends(t1, s, cases@);
            lemma_extends_trans(t, t1, r);
        },
        AST::Match(cond, cases) => {
            law_bind_only_adds(t, s, *cond);
            let t1 = bind_node(t, s, *cond)->0;
            lemma_bind_cases_extends(t1, s, cases@);
            lemma_extends_trans(t, t1, r);
        },
        AST::For(name, cond, body, lscope) => {
            let t1 = t.update(lscope as int, with_parent(t[lscope as int], Some(s)));
            lemma_set_parent_extends(t, lscope, Some(s));
            let t2 = defined(t1, lscope, name@, None);
            lemma_defined_extends(t1, lscope, name@, None);
            law_bind_only_adds(t2, s, *cond);
            let t3 = bind_node(t2, s, *cond)->0;
            law_bind_only_adds(t3, lscope, *body);
            lemma_extends_trans(t, t1, t2);
            lemma_extends_trans(t, t2, t3);
            lemma_extends_trans(t, t3, r);
        },
        AST::While(cond, body) => {
            law_bind_only_adds(t, s, *cond);
            let t1 = bind_node(t, s, *cond)->0;
            law_bind_only_adds(t1, s, *body);
            lemma_extends_trans(t, t1, r);
        },
        AST::Class(classspec, _, body, cscope) => {
            let ctype = Some(TypeView::Concrete("Class"@));
            let t1 = defined(t, s, classspec.name@, ctype);
            lemma_defined_extends(t, s, classspec.name@, ctype);
            let t2 = t1.update(cscope as int, with_parent(t1[cscope as int], Some(s)));
            lemma_set_parent_extends(t1, cscope, Some(s));
            lemma_bind_list_extends(t2, cscope, body@);
            lemma_extends_trans(t, t1, t2);
            lemma_extends_trans(t, t2, r);
        },
        _ => lemma_extends_refl(t),
    }
}

proof fn lemma_bind_list_extends(t: Seq<ScopeView>, s: ScopeRef, code: Seq<AST>)
    requires
        bind_list(t, s, code) is Some,
    ensures
        extends(t, bind_list(t, s, code)->0),
    decreases code,
{
    if code.len() == 0 {
        lemma_extends_refl(t);
    } else {
        let front = code.subrange(0, code.len() - 1);
        lemma_bind_list_extends(t, s, front);
        let t1 = bind_list(t, s, front)->0;
        law_bind_only_adds(t1, s, code[code.len() - 1]);
        lemma_extends_trans(t, t1, bind_list(t, s, code)->0);
    }
}

proof fn lemma_bind_cases_extends(t: Seq<ScopeView>, s: ScopeRef, cases: Seq<(AST, AST)>)
    requires
        bind_cases(t, s, cases) is Some,
    ensures
        extends(t, bind_cases(t, s, cases)->0),
    decreases cases,
{
    if cases.len() == 0 {
        lemma_extends_refl(t);
    } else {
        let front = cases.subrange(0, cases.len() - 1);
        lemma_bind_cases_extends(t, s, front);
        let t1 = bind_cases(t, s, front)->0;
        let last = cases[cases.len() - 1];
        law_bind_only_adds(t1, s, last.0);
        let t2 = bind_node(t1, s, last.0)->0;
        law_bind_only_adds(t2, s, last.1);
        lemma_extends_trans(t, t1, t2);
        lemma_extends_trans(t, t2, bind_cases(t, s, cases)->0);
    }
}

/// Binding a list is binding its nodes one by one in order: binding `a`
/// followed by `b` is binding `a`, then binding `b` in the table that left.
pub proof fn law_bind_list_concat(t: Seq<ScopeView>, s: ScopeRef, a: Seq<AST>, b: Seq<AST>)
    ensures
        bind_list(t, s, a + b) == match bind_list(t, s, a) {
            None => None,
            Some(t1) => bind_list(t1, s, b),
        },
    decreases b.len(),
{
    if b.len() == 0 {
        assert(a + b =~= a);
    } else {
        let b1 = b.subrange(0, b.len() - 1);
        law_bind_list_concat(t, s, a, b1);
        assert((a + b).subrange(0, (a + b).len() - 1) =~= a + b1);
        assert((a + b)[(a + b).len() - 1] == b[b.len() - 1]);
    }
}

/// After binding a definition, its scope defines the name as declared (or
/// with a fresh type variable), whatever its initial value binds.
pub proof fn law_bind_definition_defines(t: Seq<ScopeView>, s: ScopeRef, node: AST)
    requires
        node is Definition,
        bind_node(t, s, node) is Some,
    ensures
        match node {
            AST::Definition(_, name, ttype, _) => bind_node(t, s, node)->0[s as int].names.contains_key(name@)
                && bind_node(t, s, node)->0[s as int].names[name@] == (SymbolView {
                ttype: match opt_type(ttype) {
                    Some(tv) => tv,
                    None => typevar(t, s),
                },
                value: None,
            }),
            _ => true,
        },
{
    if let AST::Definition(_, name, ttype, code) = node {
        let t1 = defined(t, s, name@, opt_type(ttype));
        law_bind_only_adds(t1, s, *code);
        let r = bind_node(t1, s, *code)->0;
        assert(t1[s as int].names.contains_key(name@));
        assert(bind_node(t, s, node) == bind_node(t1, s, *code));
        assert(s < t.len() && r.len() == t.len());
        assert(t1[s as int].names.submap_of(r[s as int].names));
        assert(t1[s as int].names.dom().contains(name@));
        assert(r[s as int].names.dom().contains(name@));
        assert(r[s as int].names[name@] == t1[s as int].names[name@]);
    }
}

/// Every builtin operator and primitive type is visible from the global scope
/// that `make_global` returns, with its builtin meaning; every search from
/// there stops.
pub proof fn law_global_sees_builtins(t: Seq<ScopeView>, name: Seq<char>)
    requires
        t.len() + 1 < usize::MAX,
    ensures
        name_search_ends(with_globals(t), (t.len() + 1) as ScopeRef, name),
        type_search_ends(with_globals(t), (t.len() + 1) as ScopeRef, name),
        builtin_scope().names.contains_key(name) ==> lookup_name(with_globals(t), (t.len() + 1) as ScopeRef, name)
            == Some(builtin_scope().names[name]),
        builtin_scope().types.contains_key(name) ==> lookup_type(with_globals(t), (t.len() + 1) as ScopeRef, name)
            == Some(builtin_scope().types[name]),
{
    let g = with_globals(t);
    let s = (t.len() + 1) as ScopeRef;
    let root = t.len() as ScopeRef;
    assert(g[s as int].parent == Some(root));
    assert(g[root as int].parent is None);
    assert(walk(g, Some(s), 0) == Some(s));
    assert(walk(g, Some(s), 1) == Some(root));
    assert(walk(g, Some(s), 2) is None);
    assert(stops_at(g, walk(g, Some(s), 2), name, names_sel()));
    assert(stops_at(g, walk(g, Some(s), 2), name, types_sel()));
    assert(name_search_ends(g, s, name));
    assert(type_search_ends(g, s, name));
    if builtin_scope().names.contains_key(name) {
        law_lookup_falls_back_to_parent(g, s, root, name);
    }
    if builtin_scope().types.contains_key(name) {
        let n = search_len(g, s, name, types_sel());
        lemma_search_len(g, s, name, types_sel());
        assert(n > 0);
        lemma_walk_shift(g, Some(s), (n - 1) as nat);
        assert(owner_from(g, Some(s), name, n, types_sel()) == owner_from(g, Some(root), name, (n - 1) as nat, types_sel()));
    }
}

/// What a definition node promises its scope after binding: the name is
/// defined there, and with the declared type where one is given.
pub open spec fn defines_as_declared(f: ScopeView, node: AST) -> bool {
    match node {
        AST::Definition(_, name, ttype, _) => {
            &&& f.names.contains_key(name@)
            &&& (ttype matches Some(tt) ==> f.names[name@].ttype == tt@)
        },
        _ => true,
    }
}

proof fn lemma_bind_list_defines(t: Seq<ScopeView>, s: ScopeRef, code: Seq<AST>, k: int)
    requires
        0 <= k < code.len(),
        bind_list(t, s, code) is Some,
    ensures
        s < t.len() ==> defines_as_declared(bind_list(t, s, code)->0[s as int], code[k]),
    decreases code.len(),
{
    let front = code.subrange(0, code.len() - 1);
    let t1 = bind_list(t, s, front)->0;
    let r = bind_list(t, s, code)->0;
    lemma_bind_list_extends(t, s, front);
    assert(r == bind_node(t1, s, code[code.len() - 1])->0);
    if k == code.len() - 1 {
        if code[k] is Definition {
            law_bind_definition_defines(t1, s, code[k]);
        }
    } else {
        assert(front[k] == code[k]);
        lemma_bind_list_defines(t, s, front, k);
        law_bind_only_adds(t1, s, code[code.len() - 1]);
        if s < t.len() {
            if let AST::Definition(_, name, _, _) = code[k] {
                assert(t1[s as int].names.dom().contains(name@));
                assert(t1[s as int].names.submap_of(r[s as int].names));
                assert(r[s as int].names.dom().contains(name@));
            }
        }
    }
}

/// Blocks open no scope of their own: after binding a block, each
/// definition in it is defined in the scope the block stands in, with its
/// declared type where one is given.
pub proof fn law_block_defines_in_enclosing_scope(t: Seq<ScopeView>, s: ScopeRef, code: Vec<AST>, k: int)
    requires
        s < t.len(),
        0 <= k < code.len(),
        bind_node(t, s, AST::Block(code)) is Some,
    ensures
        defines_as_declared(bind_node(t, s, AST::Block(code))->0[s as int], code@[k]),
{
    lemma_bind_list_defines(t, s, code@, k);
}

/// A walk that has ended stays ended.
proof fn lemma_walk_none(t: Seq<ScopeView>, k: nat)
    ensures
        walk(t, None, k) is None,
    decreases k,
{
    if k > 0 {
        lemma_walk_none(t, (k - 1) as nat);
    }
}

/// Walking `a` steps and then `d` more is walking `a + d` steps.
proof fn lemma_walk_add(t: Seq<ScopeView>, cur: Option<ScopeRef>, a: nat, d: nat)
    ensures
        walk(t, walk(t, cur, a), d) == walk(t, cur, a + d),
    decreases d,
{
    if d > 0 {
        lemma_walk_add(t, cur, a, (d - 1) as nat);
        assert(walk(t, cur, a + d) == step(t, walk(t, cur, (a + d - 1) as nat)));
    }
}

/// Where the walk reaches, within `fuel` steps, a scope that holds `key`,
/// the search with that fuel finds an owner.
proof fn lemma_owner_found<X>(
    t: Seq<ScopeView>,
    cur: Option<ScopeRef>,
    key: Seq<char>,
    fuel: nat,
    sel: spec_fn(ScopeView) -> Map<Seq<char>, X>,
    k: nat,
)
    requires
        k <= fuel,
        walk(t, cur, k) matches Some(j) && j < t.len() && sel(t[j as int]).contains_key(key),
    ensures
        owner_from(t, cur, key, fuel, sel) is Some,
    decreases k,
{
    match cur {
        None => {
            lemma_walk_none(t, k);
        },
        Some(c) => {
            if !(c < t.len() && sel(t[c as int]).contains_key(key)) {
                assert(k > 0);
                lemma_walk_shift(t, cur, (k - 1) as nat);
                lemma_owner_found(t, step(t, cur), key, (fuel - 1) as nat, sel, (k - 1) as nat);
            }
        },
    }
}

/// An owner the search finds is a place the walk reaches.
proof fn lemma_owner_reached<X>(
    t: Seq<ScopeView>,
    cur: Option<ScopeRef>,
    key: Seq<char>,
    fuel: nat,
    sel: spec_fn(ScopeView) -> Map<Seq<char>, X>,
)
    ensures
        owner_from(t, cur, key, fuel, sel) matches Some(j) ==> exists|k: nat| walk(t, cur, k) == Some(j),
    decreases fuel,
{
    if let Some(c) = cur {
        if c < t.len() && sel(t[c as int]).contains_key(key) {
            assert(walk(t, cur, 0) == Some(c));
        } else if fuel > 0 {
            lemma_owner_reached(t, step(t, cur), key, (fuel - 1) as nat, sel);
            if let Some(j) = owner_from(t, cur, key, fuel, sel) {
                let k = choose|k: nat| walk(t, step(t, cur), k) == Some(j);
                lemma_walk_shift(t, cur, k);
                assert(walk(t, cur, k + 1) == Some(j));
            }
        }
    }
}

/// Some scope on the chain of enclosing scopes of `s`, however far up,
/// defines `name`.
pub open spec fn defined_on_chain(t: Seq<ScopeView>, s: ScopeRef, name: Seq<char>) -> bool {
    exists|k: nat| #[trigger] walk(t, Some(s), k) matches Some(j) && j < t.len() && t[j as int].names.contains_key(name)
}

proof fn lemma_visible_iff_on_chain(t: Seq<ScopeView>, s: ScopeRef, name: Seq<char>)
    ensures
        (name_search_ends(t, s, name) && lookup_name(t, s, name) is Some) <==> defined_on_chain(t, s, name),
{
    if defined_on_chain(t, s, name) {
        let k = choose|k: nat| #[trigger] walk(t, Some(s), k) matches Some(j) && j < t.len() && t[j as int].names.contains_key(name);
        assert(stops_at(t, walk(t, Some(s), k), name, names_sel()));
        assert(name_search_ends(t, s, name));
        let n0 = search_len(t, s, name, names_sel());
        lemma_search_len(t, s, name, names_sel());
        if n0 >= k {
            lemma_owner_found(t, Some(s), name, n0, names_sel(), k);
        } else {
            let w = walk(t, Some(s), n0);
            lemma_walk_add(t, Some(s), n0, (k - n0) as nat);
            if w is None {
                lemma_walk_none(t, (k - n0) as nat);
            } else {
                lemma_owner_found(t, Some(s), name, n0, names_sel(), n0);
            }
        }
    }
    if name_search_ends(t, s, name) && lookup_name(t, s, name) is Some {
        let n0 = search_len(t, s, name, names_sel());
        lemma_owner_reached(t, Some(s), name, n0, names_sel());
        lemma_owner_holds(t, Some(s), name, n0, names_sel());
        let j = owner_from(t, Some(s), name, n0, names_sel())->0;
        let k = choose|k: nat| walk(t, Some(s), k) == Some(j);
        assert(walk(t, Some(s), k) matches Some(j) && j < t.len() && t[j as int].names.contains_key(name));
    }
}

/// An identifier binds exactly when some scope on the whole chain of
/// enclosing scopes, however far up, defines it, and binding it changes
/// nothing; a call binds exactly when its name is defined so and its
/// arguments bind.
pub proof fn law_identifier_binds_when_defined_up_the_chain(t: Seq<ScopeView>, s: ScopeRef, name: String, args: Vec<AST>)
    ensures
        bind_node(t, s, AST::Identifier(name)) is Some <==> defined_on_chain(t, s, name@),
        bind_node(t, s, AST::Identifier(name)) is Some ==> bind_node(t, s, AST::Identifier(name)) == Some(t),
        bind_node(t, s, AST::Invoke(name, args)) is Some <==> (defined_on_chain(t, s, name@) && bind_list(t, s, args@) is Some),
{
    lemma_visible_iff_on_chain(t, s, name@);
}

proof fn lemma_free_letter_first(t: Seq<ScopeView>, s: ScopeRef, k: nat)
    requires
        free_letter_from(t, s, k) is Some,
    ensures
        exists|j: int| #![trigger letter(j)] k <= j < 26 && free_letter_from(t, s, k) == Some(letter(j))
            && lookup_type(t, s, seq![letter(j)]) is None
            && forall|i: int| k <= i < j ==> (#[trigger] lookup_type(t, s, seq![letter(i)])) is Some,
    decreases 26 - k,
{
    if lookup_type(t, s, seq![letter(k as int)]) is None {
        assert(free_letter_from(t, s, k) == Some(letter(k as int)));
    } else {
        lemma_free_letter_first(t, s, k + 1);
        let j = choose|j: int| #![trigger letter(j)] k + 1 <= j < 26 && free_letter_from(t, s, k + 1) == Some(letter(j))
            && lookup_type(t, s, seq![letter(j)]) is None
            && forall|i: int| k + 1 <= i < j ==> (#[trigger] lookup_type(t, s, seq![letter(i)])) is Some;
        assert(forall|i: int| k <= i < j ==> (#[trigger] lookup_type(t, s, seq![letter(i)])) is Some);
    }
}

/// A fresh type variable is the first lower-case letter, in alphabetical
/// order from `a`, whose one-letter type name is not visible from the
/// scope: every letter before it is visible.
pub proof fn law_new_typevar_first_free_letter(t: Seq<ScopeView>, s: ScopeRef)
    requires
        can_make_typevar(t, s),
    ensures
        exists|c: char| {
            &&& 'a' <= c <= 'z'
            &&& typevar(t, s) == TypeView::Variable(seq![c])
            &&& lookup_type(t, s, seq![c]) is None
            &&& forall|d: char| 'a' <= d < c ==> (#[trigger] lookup_type(t, s, seq![d])) is Some
        },
{
    lemma_searchable_has_free(t, s, 0);
    lemma_free_letter_first(t, s, 0);
    let j = choose|j: int| #![trigger letter(j)] 0 <= j < 26 && free_letter_from(t, s, 0) == Some(letter(j))
        && lookup_type(t, s, seq![letter(j)]) is None
        && forall|i: int| 0 <= i < j ==> (#[trigger] lookup_type(t, s, seq![letter(i)])) is Some;
    let c = letter(j);
    assert forall|d: char| 'a' <= d < c implies (#[trigger] lookup_type(t, s, seq![d])) is Some by {
        let i = d as int - 97;
        assert(letter(i) == d);
        assert(lookup_type(t, s, seq![letter(i)]) is Some);
    }
}

/// The body of a loop sees the loop variable: where the loop scope can be
/// placed inside `s` and the variable defined in it, and the condition
/// binds, a body that uses the variable binds too, whatever `s` defines.
pub proof fn law_loop_body_sees_loop_variable(t: Seq<ScopeView>, s: ScopeRef, name: String, cond: AST, lscope: ScopeRef)
    requires
        s < t.len(),
        lscope < t.len(),
        ({
            let t1 = t.update(lscope as int, with_parent(t[lscope as int], Some(s)));
            &&& can_define(t1, lscope, name@, None)
            &&& bind_node(defined(t1, lscope, name@, None), s, cond) is Some
        }),
    ensures
        bind_node(t, s, AST::For(name, Box::new(cond), Box::new(AST::Identifier(name)), lscope)) is Some,
{
    let t1 = t.update(lscope as int, with_parent(t[lscope as int], Some(s)));
    let t2 = defined(t1, lscope, name@, None);
    law_bind_only_adds(t2, s, cond);
    let t3 = bind_node(t2, s, cond)->0;
    assert(t2[lscope as int].names.contains_key(name@));
    assert(t2[lscope as int].names.submap_of(t3[lscope as int].names));
    assert(t3[lscope as int].names.contains_key(name@));
    assert(walk(t3, Some(lscope), 0) == Some(lscope));
    assert(defined_on_chain(t3, lscope, name@));
    law_identifier_binds_when_defined_up_the_chain(t3, lscope, name, vstd::pervasive::arbitrary::<Vec<AST>>());
}

} // verus!
