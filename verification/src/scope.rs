use vstd::prelude::*;
use crate::assoc::{assoc_map, unique_keys, find_key, lemma_assoc_contains, lemma_assoc_index, lemma_assoc_update, lemma_assoc_push, lemma_assoc_same_views};
use crate::ast::{AST, ScopeRef};
use crate::types::{Type, TypeView, clone_type, Abi, types_view, lemma_types_view};
use crate::text::lit;
use std::rc::Rc;

verus! {

/// A value that the interpreter binds to a name.
#[derive(Debug, PartialEq, Eq)]
pub enum Value {
    Nil,
    Boolean(bool),
    Integer(i64),
    String(String),
}

impl Clone for Value {
    fn clone(&self) -> (r: Self)
        ensures
            r == *self,
    {
        match self {
            Value::Nil => Value::Nil,
            Value::Boolean(b) => Value::Boolean(*b),
            Value::Integer(n) => Value::Integer(*n),
            Value::String(s) => Value::String(s.clone()),
        }
    }
}

/// A named entity: its type and, once assigned, its value.
#[derive(Debug, PartialEq, Eq)]
pub struct Symbol {
    pub ttype: Type,
    pub value: Option<Value>,
}

/// What the contracts see of a `Symbol`.
pub struct SymbolView {
    pub ttype: TypeView,
    pub value: Option<Value>,
}

impl View for Symbol {
    type V = SymbolView;

    open spec fn view(&self) -> SymbolView {
        SymbolView { ttype: self.ttype@, value: self.value }
    }
}

impl Clone for Symbol {
    fn clone(&self) -> (r: Self)
        ensures
            r@ == self@,
    {
        let value = match &self.value {
            Some(v) => Some(v.clone()),
            None => None,
        };
        Symbol { ttype: clone_type(&self.ttype), value }
    }
}

/// One scope: the names and type names it defines and its enclosing scope.
#[derive(Debug, PartialEq, Eq)]
pub struct Scope {
    pub names: Vec<(String, Rc<Symbol>)>,
    pub types: Vec<(String, Type)>,
    pub parent: Option<ScopeRef>,
}

/// What the contracts see of a `Scope`.
pub struct ScopeView {
    pub names: Map<Seq<char>, SymbolView>,
    pub types: Map<Seq<char>, TypeView>,
    pub parent: Option<ScopeRef>,
}

impl View for Scope {
    type V = ScopeView;

    open spec fn view(&self) -> ScopeView {
        ScopeView { names: assoc_map(self.names@), types: assoc_map(self.types@), parent: self.parent }
    }
}

impl Scope {
    /// No name and no type name is defined twice.
    pub open spec fn wf(&self) -> bool {
        unique_keys(self.names@) && unique_keys(self.types@)
    }
}

impl Clone for Scope {
    fn clone(&self) -> (r: Self)
        ensures
            r@ == self@,
            r.wf() == self.wf(),
    {
        let mut names: Vec<(String, Rc<Symbol>)> = Vec::new();
        let mut i: usize = 0;
        while i < self.names.len()
            invariant
                i <= self.names.len(),
                names@.len() == i,
                forall|k: int| 0 <= k < i ==> (#[trigger] names@[k]).0@ == self.names@[k].0@ && names@[k].1@ == self.names@[k].1@,
            decreases self.names.len() - i,
        {
            names.push((self.names[i].0.clone(), Rc::clone(&self.names[i].1)));
            i = i + 1;
        }
        let mut types: Vec<(String, Type)> = Vec::new();
        let mut i: usize = 0;
        while i < self.types.len()
            invariant
                i <= self.types.len(),
                types@.len() == i,
                forall|k: int| 0 <= k < i ==> (#[trigger] types@[k]).0@ == self.types@[k].0@ && types@[k].1@ == self.types@[k].1@,
            decreases self.types.len() - i,
        {
            types.push((self.types[i].0.clone(), clone_type(&self.types[i].1)));
            i = i + 1;
        }
        proof {
            lemma_assoc_same_views(names@, self.names@);
            lemma_assoc_same_views(types@, self.types@);
        }
        Scope { names, types, parent: self.parent }
    }
}

/// All scopes of a program; a `ScopeRef` is an index into it.
pub struct ScopeTable {
    frames: Vec<Scope>,
}

impl View for ScopeTable {
    type V = Seq<ScopeView>;

    closed spec fn view(&self) -> Seq<ScopeView> {
        self.frames@.map_values(|f: Scope| f@)
    }
}

/// The scope the chain steps to from `cur`: its parent.
pub open spec fn step(t: Seq<ScopeView>, cur: Option<ScopeRef>) -> Option<ScopeRef> {
    match cur {
        None => None,
        Some(j) => if j < t.len() { t[j as int].parent } else { None },
    }
}

/// The scope `n` parent steps up from `start`.
pub open spec fn walk(t: Seq<ScopeView>, start: Option<ScopeRef>, n: nat) -> Option<ScopeRef>
    decreases n,
{
    if n == 0 {
        start
    } else {
        step(t, walk(t, start, (n - 1) as nat))
    }
}

/// A search for `key` stops at `cur`: the chain has ended there, or the
/// scope there holds `key` in its selected map.
pub open spec fn stops_at<X>(
    t: Seq<ScopeView>,
    cur: Option<ScopeRef>,
    key: Seq<char>,
    sel: spec_fn(ScopeView) -> Map<Seq<char>, X>,
) -> bool {
    match cur {
        None => true,
        Some(j) => j < t.len() && sel(t[j as int]).contains_key(key),
    }
}

/// The search for `key` up the chain of `s` stops: it reaches a scope that
/// holds `key`, or the end of the chain.
pub open spec fn search_ends<X>(
    t: Seq<ScopeView>,
    s: ScopeRef,
    key: Seq<char>,
    sel: spec_fn(ScopeView) -> Map<Seq<char>, X>,
) -> bool {
    exists|n: nat| stops_at(t, walk(t, Some(s), n), key, sel)
}

/// A number of steps after which the search for `key` from `s` stops.
pub open spec fn search_len<X>(
    t: Seq<ScopeView>,
    s: ScopeRef,
    key: Seq<char>,
    sel: spec_fn(ScopeView) -> Map<Seq<char>, X>,
) -> nat {
    choose|n: nat| stops_at(t, walk(t, Some(s), n), key, sel)
}

/// The search for the name `key` from `s` stops.
pub open spec fn name_search_ends(t: Seq<ScopeView>, s: ScopeRef, key: Seq<char>) -> bool {
    search_ends(t, s, key, names_sel())
}

/// The search for the type name `key` from `s` stops.
pub open spec fn type_search_ends(t: Seq<ScopeView>, s: ScopeRef, key: Seq<char>) -> bool {
    search_ends(t, s, key, types_sel())
}

/// The first scope from `cur` up whose selected map holds `key`, looking at
/// no more than `fuel` further scopes.
pub open spec fn owner_from<X>(
    t: Seq<ScopeView>,
    cur: Option<ScopeRef>,
    key: Seq<char>,
    fuel: nat,
    sel: spec_fn(ScopeView) -> Map<Seq<char>, X>,
) -> Option<ScopeRef>
    decreases fuel,
{
    match cur {
        None => None,
        Some(j) => if j < t.len() && sel(t[j as int]).contains_key(key) {
            Some(j)
        } else if fuel == 0 {
            None
        } else {
            owner_from(t, step(t, cur), key, (fuel - 1) as nat, sel)
        },
    }
}

/// Selects the names a scope defines.
pub open spec fn names_sel() -> spec_fn(ScopeView) -> Map<Seq<char>, SymbolView> {
    |f: ScopeView| f.names
}

/// Selects the type names a scope defines.
pub open spec fn types_sel() -> spec_fn(ScopeView) -> Map<Seq<char>, TypeView> {
    |f: ScopeView| f.types
}

/// The scope on the chain of `s` (nearest first) that defines the name `key`.
pub open spec fn name_owner(t: Seq<ScopeView>, s: ScopeRef, key: Seq<char>) -> Option<ScopeRef> {
    owner_from(t, Some(s), key, search_len(t, s, key, names_sel()), names_sel())
}

/// The scope on the chain of `s` (nearest first) that defines the type name `key`.
pub open spec fn type_owner(t: Seq<ScopeView>, s: ScopeRef, key: Seq<char>) -> Option<ScopeRef> {
    owner_from(t, Some(s), key, search_len(t, s, key, types_sel()), types_sel())
}

/// What looking up the name `key` from scope `s` finds.
pub open spec fn lookup_name(t: Seq<ScopeView>, s: ScopeRef, key: Seq<char>) -> Option<SymbolView> {
    match name_owner(t, s, key) {
        None => None,
        Some(j) => Some(t[j as int].names[key]),
    }
}

/// What looking up the type name `key` from scope `s` finds.
pub open spec fn lookup_type(t: Seq<ScopeView>, s: ScopeRef, key: Seq<char>) -> Option<TypeView> {
    match type_owner(t, s, key) {
        None => None,
        Some(j) => Some(t[j as int].types[key]),
    }
}

/// The search for `key` from `s` stops after `search_len` steps.
pub proof fn lemma_search_len<X>(t: Seq<ScopeView>, s: ScopeRef, key: Seq<char>, sel: spec_fn(ScopeView) -> Map<Seq<char>, X>)
    requires
        search_ends(t, s, key, sel),
    ensures
        stops_at(t, walk(t, Some(s), search_len(t, s, key, sel)), key, sel),
{
}

/// Walks that meet stay together: from equal places, equal numbers of
/// further steps lead to equal places.
proof fn lemma_walk_same_from(t: Seq<ScopeView>, start: Option<ScopeRef>, p: nat, q: nat, d: nat)
    requires
        walk(t, start, p) == walk(t, start, q),
    ensures
        walk(t, start, p + d) == walk(t, start, q + d),
    decreases d,
{
    if d > 0 {
        lemma_walk_same_from(t, start, p, q, (d - 1) as nat);
        assert(walk(t, start, p + d) == step(t, walk(t, start, (p + d - 1) as nat)));
        assert(walk(t, start, q + d) == step(t, walk(t, start, (q + d - 1) as nat)));
    }
}

/// In a table whose parents are all scopes of it, a walk from one of its
/// scopes stays in the table or has ended.
proof fn lemma_walk_in_table(t: Seq<ScopeView>, s: ScopeRef, k: nat)
    requires
        s < t.len(),
        forall|i: int| 0 <= i < t.len() ==> (#[trigger] t[i].parent matches Some(p) ==> p < t.len()),
    ensures
        walk(t, Some(s), k) matches Some(j) ==> j < t.len(),
    decreases k,
{
    if k > 0 {
        lemma_walk_in_table(t, s, (k - 1) as nat);
    }
}

/// A walk that stays in the table for its first `t.len() + 1` places visits
/// some scope twice among them.
proof fn lemma_walk_repeats(t: Seq<ScopeView>, s: ScopeRef)
    requires
        forall|k: nat| k <= t.len() ==> (#[trigger] walk(t, Some(s), k) matches Some(j) && j < t.len()),
    ensures
        exists|p: nat, q: nat| p < q <= t.len() && walk(t, Some(s), p) == walk(t, Some(s), q),
{
    let n = t.len();
    let w = Seq::new(n + 1, |k: int| walk(t, Some(s), k as nat)->0 as int);
    if !(exists|p: nat, q: nat| p < q <= t.len() && walk(t, Some(s), p) == walk(t, Some(s), q)) {
        assert forall|i: int, j: int| 0 <= i < w.len() && 0 <= j < w.len() && i != j implies w[i] != w[j] by {
            let wi = walk(t, Some(s), i as nat);
            let wj = walk(t, Some(s), j as nat);
            assert(wi is Some && wj is Some);
            if w[i] == w[j] {
                assert(wi == wj);
                if i < j {
                    assert(walk(t, Some(s), i as nat) == walk(t, Some(s), j as nat));
                } else {
                    assert(walk(t, Some(s), j as nat) == walk(t, Some(s), i as nat));
                }
            }
        }
        assert(w.no_duplicates());
        w.unique_seq_to_set();
        assert forall|x: int| w.to_set().contains(x) implies vstd::set_lib::set_int_range(0, n as int).contains(x) by {
            let i = choose|i: int| 0 <= i < w.len() && w[i] == x;
            assert(walk(t, Some(s), i as nat) is Some);
        }
        vstd::set_lib::lemma_int_range(0, n as int);
        vstd::set_lib::lemma_len_subset(w.to_set(), vstd::set_lib::set_int_range(0, n as int));
    }
}

/// Once a walk has visited a scope twice, every place it reaches is one of
/// the places it reached before the second visit.
proof fn lemma_walk_cycles(t: Seq<ScopeView>, start: Option<ScopeRef>, p: nat, q: nat, n: nat)
    requires
        p < q,
        walk(t, start, p) == walk(t, start, q),
    ensures
        exists|m: nat| m < q && walk(t, start, n) == #[trigger] walk(t, start, m),
    decreases n,
{
    if n < q {
        assert(walk(t, start, n) == walk(t, start, n));
    } else {
        let d = (n - q) as nat;
        lemma_walk_same_from(t, start, p, q, d);
        lemma_walk_cycles(t, start, p, q, p + d);
    }
}

/// A search that has not stopped within `t.len() + 1` places of a walk in
/// the table never stops: the walk goes round a cycle of scopes that do not
/// hold the key.
proof fn lemma_search_never_stops<X>(
    t: Seq<ScopeView>,
    s: ScopeRef,
    key: Seq<char>,
    sel: spec_fn(ScopeView) -> Map<Seq<char>, X>,
)
    requires
        s < t.len(),
        forall|i: int| 0 <= i < t.len() ==> (#[trigger] t[i].parent matches Some(p) ==> p < t.len()),
        forall|k: nat| k <= t.len() ==> !stops_at(t, #[trigger] walk(t, Some(s), k), key, sel),
    ensures
        !search_ends(t, s, key, sel),
{
    assert forall|k: nat| k <= t.len() implies (#[trigger] walk(t, Some(s), k) matches Some(j) && j < t.len()) by {
        lemma_walk_in_table(t, s, k);
        assert(!stops_at(t, walk(t, Some(s), k), key, sel));
    }
    lemma_walk_repeats(t, s);
    let (p, q) = choose|p: nat, q: nat| p < q <= t.len() && walk(t, Some(s), p) == walk(t, Some(s), q);
    if search_ends(t, s, key, sel) {
        let n = choose|n: nat| stops_at(t, walk(t, Some(s), n), key, sel);
        lemma_walk_cycles(t, Some(s), p, q, n);
        let m = choose|m: nat| m < q && walk(t, Some(s), n) == #[trigger] walk(t, Some(s), m);
        assert(!stops_at(t, walk(t, Some(s), m), key, sel));
    }
}

/// The search for `key` in the names (or, where `in_types`, the type names)
/// stops at `cur`.
pub open spec fn stops_in(t: Seq<ScopeView>, cur: Option<ScopeRef>, key: Seq<char>, in_types: bool) -> bool {
    if in_types {
        stops_at(t, cur, key, types_sel())
    } else {
        stops_at(t, cur, key, names_sel())
    }
}

/// The scope view with a different parent.
pub open spec fn with_parent(f: ScopeView, parent: Option<ScopeRef>) -> ScopeView {
    ScopeView { parent: parent, ..f }
}

/// An empty scope view with the given parent.
pub open spec fn empty_scope(parent: Option<ScopeRef>) -> ScopeView {
    ScopeView { names: Map::empty(), types: Map::empty(), parent: parent }
}

/// The view of an optional shared symbol.
pub open spec fn opt_symbol(o: Option<Rc<Symbol>>) -> Option<SymbolView> {
    match o {
        Some(s) => Some(s@),
        None => None,
    }
}

/// The view of an optional type.
pub open spec fn opt_type(o: Option<Type>) -> Option<TypeView> {
    match o {
        Some(t) => Some(t@),
        None => None,
    }
}

/// The scope view with `name` bound to `sym`.
pub open spec fn with_name(f: ScopeView, name: Seq<char>, sym: SymbolView) -> ScopeView {
    ScopeView { names: f.names.insert(name, sym), ..f }
}

/// The scope view with the type name `name` bound to `t`.
pub open spec fn with_type(f: ScopeView, name: Seq<char>, t: TypeView) -> ScopeView {
    ScopeView { types: f.types.insert(name, t), ..f }
}

/// The `k`-th lower-case letter.
pub open spec fn letter(k: int) -> char {
    (97 + k) as char
}

/// The first letter from the `k`-th on whose one-letter type name is not
/// visible from `s`.
pub open spec fn free_letter_from(t: Seq<ScopeView>, s: ScopeRef, k: nat) -> Option<char>
    decreases 26 - k,
{
    if k >= 26 {
        None
    } else if lookup_type(t, s, seq![letter(k as int)]) is None {
        Some(letter(k as int))
    } else {
        free_letter_from(t, s, k + 1)
    }
}

/// The first letter whose one-letter type name is not visible from `s`.
pub open spec fn free_letter(t: Seq<ScopeView>, s: ScopeRef) -> Option<char> {
    free_letter_from(t, s, 0)
}

/// Trying the letters from the `k`-th on, each search for a one-letter
/// type name stops, until one finds the name nowhere on the chain.
pub open spec fn letters_searchable(t: Seq<ScopeView>, s: ScopeRef, k: nat) -> bool
    decreases 26 - k,
{
    &&& k < 26
    &&& type_search_ends(t, s, seq![letter(k as int)])
    &&& (lookup_type(t, s, seq![letter(k as int)]) is None || letters_searchable(t, s, k + 1))
}

/// A fresh type variable can be made in `s`: trying the letters from `a` on,
/// each search stops, and some one-letter type name is free.
pub open spec fn can_make_typevar(t: Seq<ScopeView>, s: ScopeRef) -> bool {
    &&& s < t.len()
    &&& letters_searchable(t, s, 0)
}

/// The table after making a fresh type variable in `s`.
pub open spec fn with_typevar(t: Seq<ScopeView>, s: ScopeRef) -> Seq<ScopeView> {
    let c = free_letter(t, s)->0;
    t.update(s as int, with_type(t[s as int], seq![c], TypeView::Variable(seq![c])))
}

/// The fresh type variable made in `s`.
pub open spec fn typevar(t: Seq<ScopeView>, s: ScopeRef) -> TypeView {
    TypeView::Variable(seq![free_letter(t, s)->0])
}

/// `name` can be defined in `s` without a panic.
pub open spec fn can_define(t: Seq<ScopeView>, s: ScopeRef, name: Seq<char>, ttype: Option<TypeView>) -> bool {
    &&& s < t.len()
    &&& !t[s as int].names.contains_key(name)
    &&& ttype is None ==> can_make_typevar(t, s)
}

/// The table after defining `name` in `s` with the given type, or with a
/// fresh type variable when no type is given.
pub open spec fn defined(t: Seq<ScopeView>, s: ScopeRef, name: Seq<char>, ttype: Option<TypeView>) -> Seq<ScopeView> {
    match ttype {
        Some(tv) => t.update(s as int, with_name(t[s as int], name, SymbolView { ttype: tv, value: None })),
        None => {
            let t1 = with_typevar(t, s);
            t1.update(s as int, with_name(t1[s as int], name, SymbolView { ttype: typevar(t, s), value: None }))
        },
    }
}

/// The table after changing the nearest visible definition of the type name
/// `name` from `s`; unchanged where there is none.
pub open spec fn type_updated(t: Seq<ScopeView>, s: ScopeRef, name: Seq<char>, ttype: TypeView) -> Seq<ScopeView> {
    match type_owner(t, s, name) {
        Some(j) => t.update(j as int, with_type(t[j as int], name, ttype)),
        None => t,
    }
}

fn letter_str(k: u8) -> (r: &'static str)
    requires
        k < 26,
    ensures
        r@ == seq![letter(k as int)],
{
    match k {
        0 => { proof { reveal_strlit("a"); } "a" },
        1 => { proof { reveal_strlit("b"); } "b" },
        2 => { proof { reveal_strlit("c"); } "c" },
        3 => { proof { reveal_strlit("d"); } "d" },
        4 => { proof { reveal_strlit("e"); } "e" },
        5 => { proof { reveal_strlit("f"); } "f" },
        6 => { proof { reveal_strlit("g"); } "g" },
        7 => { proof { reveal_strlit("h"); } "h" },
        8 => { proof { reveal_strlit("i"); } "i" },
        9 => { proof { reveal_strlit("j"); } "j" },
        10 => { proof { reveal_strlit("k"); } "k" },
        11 => { proof { reveal_strlit("l"); } "l" },
        12 => { proof { reveal_strlit("m"); } "m" },
        13 => { proof { reveal_strlit("n"); } "n" },
        14 => { proof { reveal_strlit("o"); } "o" },
        15 => { proof { reveal_strlit("p"); } "p" },
        16 => { proof { reveal_strlit("q"); } "q" },
        17 => { proof { reveal_strlit("r"); } "r" },
        18 => { proof { reveal_strlit("s"); } "s" },
        19 => { proof { reveal_strlit("t"); } "t" },
        20 => { proof { reveal_strlit("u"); } "u" },
        21 => { proof { reveal_strlit("v"); } "v" },
        22 => { proof { reveal_strlit("w"); } "w" },
        23 => { proof { reveal_strlit("x"); } "x" },
        24 => { proof { reveal_strlit("y"); } "y" },
        _ => { proof { reveal_strlit("z"); } "z" },
    }
}

impl Clone for ScopeTable {
    fn clone(&self) -> (r: Self)
        ensures
            r@ == self@,
            r.wf() == self.wf(),
    {
        let mut frames: Vec<Scope> = Vec::new();
        let mut i: usize = 0;
        while i < self.frames.len()
            invariant
                i <= self.frames.len(),
                frames@.len() == i,
                forall|k: int| 0 <= k < i ==> (#[trigger] frames@[k])@ == self.frames@[k]@ && frames@[k].wf() == self.frames@[k].wf(),
            decreases self.frames.len() - i,
        {
            frames.push(self.frames[i].clone());
            i = i + 1;
        }
        let r = ScopeTable { frames };
        proof {
            assert(r@ =~= self@);
            assert(r.wf() == self.wf()) by {
                if r.wf() != self.wf() {
                    if r.wf() {
                        let k = choose|k: int| 0 <= k < self.frames@.len() && !({
                            &&& (#[trigger] self.frames@[k]).wf()
                            &&& (self.frames@[k].parent matches Some(p) ==> p < self.frames@.len())
                        });
                        assert(r.frames@[k]@.parent == self.frames@[k]@.parent);
                    } else {
                        let k = choose|k: int| 0 <= k < r.frames@.len() && !({
                            &&& (#[trigger] r.frames@[k]).wf()
                            &&& (r.frames@[k].parent matches Some(p) ==> p < r.frames@.len())
                        });
                        assert(r.frames@[k]@.parent == self.frames@[k]@.parent);
                    }
                }
            }
        }
        r
    }
}

/// A type name that the chain of `s` does not define is not defined by `s`.
proof fn lemma_type_owner_none(t: Seq<ScopeView>, s: ScopeRef, name: Seq<char>)
    requires
        s < t.len(),
        type_owner(t, s, name) is None,
    ensures
        !t[s as int].types.contains_key(name),
{
}

impl ScopeTable {
    /// Every scope is well formed and every parent is a scope of the table.
    pub closed spec fn wf(&self) -> bool {
        forall|i: int| 0 <= i < self.frames@.len() ==> {
            &&& (#[trigger] self.frames@[i]).wf()
            &&& (self.frames@[i].parent matches Some(p) ==> p < self.frames@.len())
        }
    }

    /// A table without scopes.
    pub fn new() -> (r: ScopeTable)
        ensures
            r.wf(),
            r@ == Seq::<ScopeView>::empty(),
    {
        let r = ScopeTable { frames: Vec::new() };
        proof {
            assert(r@ =~= Seq::<ScopeView>::empty());
        }
        r
    }

    /// The number of scopes.
    pub fn len(&self) -> (r: usize)
        ensures
            r == self@.len(),
    {
        self.frames.len()
    }

    /// Every parent of a well formed table is one of its scopes.
    pub proof fn lemma_parents(&self)
        requires
            self.wf(),
        ensures
            forall|i: int| 0 <= i < self@.len() ==> (#[trigger] self@[i].parent matches Some(p) ==> p < self@.len()),
    {
        assert forall|i: int| 0 <= i < self@.len() implies (#[trigger] self@[i].parent matches Some(p) ==> p < self@.len()) by {
            assert(self.frames@[i].wf());
        }
    }
}

impl Scope {
    /// An empty scope inside `parent`.
    pub fn new(parent: Option<ScopeRef>) -> (r: Scope)
        ensures
            r.wf(),
            r@ == empty_scope(parent),
    {
        let r = Scope { names: Vec::new(), types: Vec::new(), parent: parent };
        proof {
            assert(r@.names =~= Map::<Seq<char>, SymbolView>::empty());
            assert(r@.types =~= Map::<Seq<char>, TypeView>::empty());
        }
        r
    }

    /// Adds an empty scope inside `parent` to the table and returns it.
    pub fn new_ref(scopes: &mut ScopeTable, parent: Option<ScopeRef>) -> (r: ScopeRef)
        requires
            old(scopes).wf(),
            parent matches Some(p) ==> p < old(scopes)@.len(),
        ensures
            final(scopes).wf(),
            r == old(scopes)@.len(),
            final(scopes)@ == old(scopes)@.push(empty_scope(parent)),
    {
        let r = scopes.frames.len();
        let f = Scope::new(parent);
        scopes.frames.push(f);
        proof {
            assert(scopes@ =~= old(scopes)@.push(empty_scope(parent)));
        }
        r
    }

    /// Makes `parent` the enclosing scope of `scope`.
    pub fn set_parent(scopes: &mut ScopeTable, scope: ScopeRef, parent: ScopeRef)
        requires
            old(scopes).wf(),
            scope < old(scopes)@.len(),
            parent < old(scopes)@.len(),
        ensures
            final(scopes).wf(),
            final(scopes)@ == old(scopes)@.update(scope as int, with_parent(old(scopes)@[scope as int], Some(parent))),
    {
        let f = &mut scopes.frames[scope];
        f.parent = Some(parent);
        proof {
            assert(scopes@ =~= old(scopes)@.update(scope as int, with_parent(old(scopes)@[scope as int], Some(parent))));
        }
    }

    /// The symbol that `name` denotes in `scope`: its definition in the
    /// nearest scope of the chain from `scope` up that defines it. The
    /// result is a handle on the stored symbol itself, not a copy.
    pub fn find(scopes: &ScopeTable, scope: ScopeRef, name: &String) -> (r: Option<Rc<Symbol>>)
        requires
            scopes.wf(),
            scope < scopes@.len(),
            name_search_ends(scopes@, scope, name@),
        ensures
            opt_symbol(r) == lookup_name(scopes@, scope, name@),
    {
        let ghost t = scopes@;
        let ghost n0 = search_len(t, scope, name@, names_sel());
        proof {
            lemma_search_len(t, scope, name@, names_sel());
            scopes.lemma_parents();
        }
        let mut cur: Option<ScopeRef> = Some(scope);
        let ghost mut k: nat = 0;
        loop
            invariant
                t == scopes@,
                scopes.wf(),
                forall|i: int| 0 <= i < t.len() ==> (#[trigger] t[i].parent matches Some(p) ==> p < t.len()),
                k <= n0,
                cur == walk(t, Some(scope), k),
                stops_at(t, walk(t, Some(scope), n0), name@, names_sel()),
                name_owner(t, scope, name@) == owner_from(t, cur, name@, (n0 - k) as nat, names_sel()),
                cur matches Some(j) ==> j < t.len(),
            decreases n0 - k,
        {
            match cur {
                None => {
                    return None;
                },
                Some(j) => {
                    proof {
                        assert(scopes.frames@[j as int].wf());
                    }
                    let f = &scopes.frames[j];
                    match find_key(&f.names, name) {
                        Some(i) => {
                            proof {
                                lemma_assoc_index(f.names@, i as int);
                            }
                            return Some(Rc::clone(&f.names[i].1));
                        },
                        None => {
                            proof {
                                lemma_assoc_contains(f.names@, name@);
                                assert(k < n0);
                            }
                            cur = f.parent;
                            proof {
                                k = k + 1;
                            }
                        },
                    }
                },
            }
        }
    }

    /// Whether the search for `name` from `scope`, among the names or, where
    /// `in_types`, the type names, stops: it reaches a scope that defines
    /// `name` or the end of the chain, rather than going round a cycle; that
    /// is, whether `find` (or, where `in_types`, `find_type` and
    /// `update_type`) accepts it.
    pub fn search_stops(scopes: &ScopeTable, scope: ScopeRef, name: &String, in_types: bool) -> (r: bool)
        requires
            scopes.wf(),
            scope < scopes@.len(),
        ensures
            r == if in_types { type_search_ends(scopes@, scope, name@) } else { name_search_ends(scopes@, scope, name@) },
    {
        let ghost t = scopes@;
        proof {
            scopes.lemma_parents();
        }
        let len = scopes.frames.len();
        let mut cur: Option<ScopeRef> = Some(scope);
        let mut k: usize = 0;
        loop
            invariant
                t == scopes@,
                scopes.wf(),
                len == t.len(),
                scope < len,
                k <= len,
                forall|i: int| 0 <= i < t.len() ==> (#[trigger] t[i].parent matches Some(p) ==> p < t.len()),
                cur == walk(t, Some(scope), k as nat),
                cur matches Some(j) ==> j < len,
                forall|i: nat| i < k ==> !stops_in(t, #[trigger] walk(t, Some(scope), i), name@, in_types),
            decreases len - k,
        {
            match cur {
                None => {
                    proof {
                        assert(stops_at(t, walk(t, Some(scope), k as nat), name@, names_sel()));
                        assert(stops_at(t, walk(t, Some(scope), k as nat), name@, types_sel()));
                    }
                    return true;
                },
                Some(j) => {
                    let f = &scopes.frames[j];
                    let holds = if in_types {
                        proof {
                            lemma_assoc_contains(f.types@, name@);
                        }
                        find_key(&f.types, name).is_some()
                    } else {
                        proof {
                            lemma_assoc_contains(f.names@, name@);
                        }
                        find_key(&f.names, name).is_some()
                    };
                    proof {
                        assert(holds == stops_in(t, cur, name@, in_types));
                    }
                    if holds {
                        return true;
                    }
                    if k == len {
                        proof {
                            if in_types {
                                assert forall|i: nat| i <= t.len() implies !stops_at(t, #[trigger] walk(t, Some(scope), i), name@, types_sel()) by {
                                    assert(!stops_in(t, walk(t, Some(scope), i), name@, in_types));
                                }
                                lemma_search_never_stops(t, scope, name@, types_sel());
                            } else {
                                assert forall|i: nat| i <= t.len() implies !stops_at(t, #[trigger] walk(t, Some(scope), i), name@, names_sel()) by {
                                    assert(!stops_in(t, walk(t, Some(scope), i), name@, in_types));
                                }
                                lemma_search_never_stops(t, scope, name@, names_sel());
                            }
                        }
                        return false;
                    }
                    cur = f.parent;
                    k = k + 1;
                    proof {
                        assert(walk(t, Some(scope), k as nat) == step(t, walk(t, Some(scope), (k - 1) as nat)));
                    }
                },
            }
        }
    }

    /// The type that the type name `name` denotes in `scope`: its definition
    /// in the nearest scope of the chain from `scope` up that defines it.
    pub fn find_type(scopes: &ScopeTable, scope: ScopeRef, name: &String) -> (r: Option<Type>)
        requires
            scopes.wf(),
            scope < scopes@.len(),
            type_search_ends(scopes@, scope, name@),
        ensures
            opt_type(r) == lookup_type(scopes@, scope, name@),
    {
        let ghost t = scopes@;
        let ghost n0 = search_len(t, scope, name@, types_sel());
        proof {
            lemma_search_len(t, scope, name@, types_sel());
            scopes.lemma_parents();
        }
        let mut cur: Option<ScopeRef> = Some(scope);
        let ghost mut k: nat = 0;
        loop
            invariant
                t == scopes@,
                scopes.wf(),
                forall|i: int| 0 <= i < t.len() ==> (#[trigger] t[i].parent matches Some(p) ==> p < t.len()),
                k <= n0,
                cur == walk(t, Some(scope), k),
                stops_at(t, walk(t, Some(scope), n0), name@, types_sel()),
                type_owner(t, scope, name@) == owner_from(t, cur, name@, (n0 - k) as nat, types_sel()),
                cur matches Some(j) ==> j < t.len(),
            decreases n0 - k,
        {
            match cur {
                None => {
                    return None;
                },
                Some(j) => {
                    proof {
                        assert(scopes.frames@[j as int].wf());
                    }
                    let f = &scopes.frames[j];
                    match find_key(&f.types, name) {
                        Some(i) => {
                            proof {
                                lemma_assoc_index(f.types@, i as int);
                            }
                            return Some(clone_type(&f.types[i].1));
                        },
                        None => {
                            proof {
                                lemma_assoc_contains(f.types@, name@);
                                assert(k < n0);
                            }
                            cur = f.parent;
                            proof {
                                k = k + 1;
                            }
                        },
                    }
                },
            }
        }
    }

    /// Whether `scope` itself defines the type name `name`.
    pub fn contains_type(scopes: &ScopeTable, scope: ScopeRef, name: &String) -> (r: bool)
        requires
            scope < scopes@.len(),
        ensures
            r == scopes@[scope as int].types.contains_key(name@),
    {
        let f = &scopes.frames[scope];
        proof {
            lemma_assoc_contains(f.types@, name@);
        }
        find_key(&f.types, name).is_some()
    }

    /// Defines the type name `name` as `ttype` in `scope`, which does not
    /// define it yet.
    pub fn define_type(scopes: &mut ScopeTable, scope: ScopeRef, name: String, ttype: Type)
        requires
            old(scopes).wf(),
            scope < old(scopes)@.len(),
            !old(scopes)@[scope as int].types.contains_key(name@),
        ensures
            final(scopes).wf(),
            final(scopes)@ == old(scopes)@.update(scope as int, with_type(old(scopes)@[scope as int], name@, ttype@)),
    {
        proof {
            assert(old(scopes).frames@[scope as int].wf());
        }
        let f = &mut scopes.frames[scope];
        proof {
            lemma_assoc_push(f.types@, (name, ttype));
        }
        f.types.push((name, ttype));
        proof {
            assert(scopes@ =~= old(scopes)@.update(scope as int, with_type(old(scopes)@[scope as int], name@, ttype@)));
        }
    }

    /// Makes a fresh type variable in `scope`: the first one-letter type
    /// name from `a` to `z` not visible from `scope` is defined in `scope`
    /// as that type variable, which is returned.
    pub fn new_typevar(scopes: &mut ScopeTable, scope: ScopeRef) -> (r: Type)
        requires
            old(scopes).wf(),
            can_make_typevar(old(scopes)@, scope),
        ensures
            final(scopes).wf(),
            r@ == typevar(old(scopes)@, scope),
            final(scopes)@ == with_typevar(old(scopes)@, scope),
    {
        let ghost t = scopes@;
        let mut ch: u8 = 0;
        loop
            invariant
                t == scopes@,
                t == old(scopes)@,
                scopes.wf(),
                scope < t.len(),
                letters_searchable(t, scope, ch as nat),
                free_letter(t, scope) == free_letter_from(t, scope, ch as nat),
            decreases 26 - ch,
        {
            let name = String::from_str(letter_str(ch));
            let found = Scope::find_type(scopes, scope, &name);
            proof {
                assert(name@ == seq![letter(ch as int)]);
                if found is None {
                    assert(free_letter_from(t, scope, ch as nat) == Some(letter(ch as int)));
                } else {
                    assert(free_letter_from(t, scope, ch as nat) == free_letter_from(t, scope, (ch + 1) as nat));
                }
            }
            if found.is_none() {
                let ttype = Type::Variable(name.clone());
                proof {
                    lemma_type_owner_none(t, scope, name@);
                }
                Scope::define_type(scopes, scope, name, ttype);
                let r = Type::Variable(String::from_str(letter_str(ch)));
                proof {
                    assert(free_letter(t, scope) == Some(letter(ch as int)));
                    assert(r@ == TypeView::Variable(seq![letter(ch as int)]));
                    assert(ttype@ == TypeView::Variable(seq![letter(ch as int)]));
                }
                return r;
            }
            ch = ch + 1;
        }
    }

    /// Defines `name` in `scope`, which does not define it yet, with the
    /// given type or, where none is given, a fresh type variable.
    pub fn define(scopes: &mut ScopeTable, scope: ScopeRef, name: String, ttype: Option<Type>)
        requires
            old(scopes).wf(),
            can_define(old(scopes)@, scope, name@, opt_type(ttype)),
        ensures
            final(scopes).wf(),
            final(scopes)@ == defined(old(scopes)@, scope, name@, opt_type(ttype)),
    {
        let ghost given = opt_type(ttype);
        let ttype = match ttype {
            Some(ttype) => ttype,
            None => Scope::new_typevar(scopes, scope),
        };
        let sym = Rc::new(Symbol { ttype: ttype, value: None });
        proof {
            assert(scopes@.len() == old(scopes)@.len());
            assert(scopes.frames@.len() == scopes@.len());
            assert(scopes.frames@[scope as int].wf());
            assert(scopes@[scope as int] == scopes.frames@[scope as int]@);
            assert(scopes@[scope as int].names == old(scopes)@[scope as int].names);
        }
        let f = &mut scopes.frames[scope];
        proof {
            lemma_assoc_push(f.names@, (name, sym));
        }
        f.names.push((name, sym));
        proof {
            assert(scopes@ =~= defined(old(scopes)@, scope, name@, given));
        }
    }

    /// Assigns `value` to `name`, which `scope` defines. The scope gets a
    /// new symbol holding the change; a handle on the old one that `find`
    /// gave out keeps showing the old symbol.
    pub fn assign(scopes: &mut ScopeTable, scope: ScopeRef, name: &String, value: Value)
        requires
            old(scopes).wf(),
            scope < old(scopes)@.len(),
            old(scopes)@[scope as int].names.contains_key(name@),
        ensures
            final(scopes).wf(),
            final(scopes)@ == old(scopes)@.update(scope as int, with_name(old(scopes)@[scope as int], name@,
                SymbolView { value: Some(value), ..old(scopes)@[scope as int].names[name@] })),
    {
        proof {
            assert(scopes.frames@[scope as int].wf());
            lemma_assoc_contains(scopes.frames@[scope as int].names@, name@);
        }
        let f = &mut scopes.frames[scope];
        let i = find_key(&f.names, name).unwrap();
        let ttype = clone_type(&f.names[i].1.ttype);
        let key = f.names[i].0.clone();
        let sym = Rc::new(Symbol { ttype: ttype, value: Some(value) });
        proof {
            lemma_assoc_index(f.names@, i as int);
            lemma_assoc_update(f.names@, i as int, sym);
        }
        f.names.set(i, (key, sym));
        proof {
            assert(scopes@ =~= old(scopes)@.update(scope as int, with_name(old(scopes)@[scope as int], name@,
                SymbolView { value: Some(value), ..old(scopes)@[scope as int].names[name@] })));
        }
    }

    /// Gives `name`, which `scope` defines, the type `ttype`.
    pub fn update_variable_type(scopes: &mut ScopeTable, scope: ScopeRef, name: &String, ttype: Type)
        requires
            old(scopes).wf(),
            scope < old(scopes)@.len(),
            old(scopes)@[scope as int].names.contains_key(name@),
        ensures
            final(scopes).wf(),
            final(scopes)@ == old(scopes)@.update(scope as int, with_name(old(scopes)@[scope as int], name@,
                SymbolView { ttype: ttype@, ..old(scopes)@[scope as int].names[name@] })),
    {
        proof {
            assert(scopes.frames@[scope as int].wf());
            lemma_assoc_contains(scopes.frames@[scope as int].names@, name@);
        }
        let f = &mut scopes.frames[scope];
        let i = find_key(&f.names, name).unwrap();
        let value = match &f.names[i].1.value {
            Some(v) => Some(v.clone()),
            None => None,
        };
        let key = f.names[i].0.clone();
        let sym = Rc::new(Symbol { ttype: ttype, value: value });
        proof {
            lemma_assoc_index(f.names@, i as int);
            lemma_assoc_update(f.names@, i as int, sym);
        }
        f.names.set(i, (key, sym));
        proof {
            assert(scopes@ =~= old(scopes)@.update(scope as int, with_name(old(scopes)@[scope as int], name@,
                SymbolView { ttype: ttype@, ..old(scopes)@[scope as int].names[name@] })));
        }
    }

    /// Gives `name`, which `scope` defines, the type that `f` makes of its
    /// current type.
    pub fn swap_variable_type<F: Fn(Type) -> Type>(scopes: &mut ScopeTable, scope: ScopeRef, name: &String, f: &F)
        requires
            old(scopes).wf(),
            scope < old(scopes)@.len(),
            old(scopes)@[scope as int].names.contains_key(name@),
            forall|a: Type| call_requires(*f, (a,)),
        ensures
            final(scopes).wf(),
            exists|a: Type, b: Type| {
                &&& a@ == old(scopes)@[scope as int].names[name@].ttype
                &&& call_ensures(*f, (a,), b)
                &&& final(scopes)@ == old(scopes)@.update(scope as int, with_name(old(scopes)@[scope as int], name@,
                    SymbolView { ttype: b@, ..old(scopes)@[scope as int].names[name@] }))
            },
    {
        proof {
            assert(scopes.frames@[scope as int].wf());
            lemma_assoc_contains(scopes.frames@[scope as int].names@, name@);
        }
        let i = find_key(&scopes.frames[scope].names, name).unwrap();
        let a = clone_type(&scopes.frames[scope].names[i].1.ttype);
        proof {
            lemma_assoc_index(scopes.frames@[scope as int].names@, i as int);
        }
        let b = f(a);
        let ghost b0 = b;
        let frame = &mut scopes.frames[scope];
        let value = match &frame.names[i].1.value {
            Some(v) => Some(v.clone()),
            None => None,
        };
        let key = frame.names[i].0.clone();
        let sym = Rc::new(Symbol { ttype: b, value: value });
        proof {
            lemma_assoc_update(frame.names@, i as int, sym);
        }
        frame.names.set(i, (key, sym));
        proof {
            assert(scopes@ =~= old(scopes)@.update(scope as int, with_name(old(scopes)@[scope as int], name@,
                SymbolView { ttype: b0@, ..old(scopes)@[scope as int].names[name@] })));
        }
    }

    /// Gives the type name `name`, which `scope` defines, the type that `f`
    /// makes of its current type.
    pub fn swap_type<F: Fn(Type) -> Type>(scopes: &mut ScopeTable, scope: ScopeRef, name: &String, f: &F)
        requires
            old(scopes).wf(),
            scope < old(scopes)@.len(),
            old(scopes)@[scope as int].types.contains_key(name@),
            forall|a: Type| call_requires(*f, (a,)),
        ensures
            final(scopes).wf(),
            exists|a: Type, b: Type| {
                &&& a@ == old(scopes)@[scope as int].types[name@]
                &&& call_ensures(*f, (a,), b)
                &&& final(scopes)@ == old(scopes)@.update(scope as int, with_type(old(scopes)@[scope as int], name@, b@))
            },
    {
        proof {
            assert(scopes.frames@[scope as int].wf());
            lemma_assoc_contains(scopes.frames@[scope as int].types@, name@);
        }
        let i = find_key(&scopes.frames[scope].types, name).unwrap();
        let a = clone_type(&scopes.frames[scope].types[i].1);
        proof {
            lemma_assoc_index(scopes.frames@[scope as int].types@, i as int);
        }
        let b = f(a);
        let ghost b0 = b;
        let frame = &mut scopes.frames[scope];
        let key = frame.types[i].0.clone();
        proof {
            lemma_assoc_update(frame.types@, i as int, b);
        }
        frame.types.set(i, (key, b));
        proof {
            assert(scopes@ =~= old(scopes)@.update(scope as int, with_type(old(scopes)@[scope as int], name@, b0@)));
        }
    }

    /// Changes the nearest definition of the type name `name` visible from
    /// `scope` to `ttype`; nothing changes where none is visible.
    pub fn update_type(scopes: &mut ScopeTable, scope: ScopeRef, name: &String, ttype: Type)
        requires
            old(scopes).wf(),
            scope < old(scopes)@.len(),
            type_search_ends(old(scopes)@, scope, name@),
        ensures
            final(scopes).wf(),
            final(scopes)@ == type_updated(old(scopes)@, scope, name@, ttype@),
    {
        let ghost t = scopes@;
        let ghost n0 = search_len(t, scope, name@, types_sel());
        proof {
            lemma_search_len(t, scope, name@, types_sel());
            scopes.lemma_parents();
        }
        let mut cur: Option<ScopeRef> = Some(scope);
        let ghost mut k: nat = 0;
        loop
            invariant
                t == scopes@,
                t == old(scopes)@,
                scopes.wf(),
                forall|i: int| 0 <= i < t.len() ==> (#[trigger] t[i].parent matches Some(p) ==> p < t.len()),
                k <= n0,
                cur == walk(t, Some(scope), k),
                stops_at(t, walk(t, Some(scope), n0), name@, types_sel()),
                type_owner(t, scope, name@) == owner_from(t, cur, name@, (n0 - k) as nat, types_sel()),
                cur matches Some(j) ==> j < t.len(),
            decreases n0 - k,
        {
            match cur {
                None => {
                    return;
                },
                Some(j) => {
                    proof {
                        assert(scopes.frames@[j as int].wf());
                    }
                    match find_key(&scopes.frames[j].types, name) {
                        Some(i) => {
                            let f = &mut scopes.frames[j];
                            let key = f.types[i].0.clone();
                            let ghost tt = ttype;
                            proof {
                                lemma_assoc_index(f.types@, i as int);
                                lemma_assoc_update(f.types@, i as int, ttype);
                            }
                            f.types.set(i, (key, ttype));
                            proof {
                                assert(scopes@ =~= t.update(j as int, with_type(t[j as int], name@, tt@)));
                            }
                            return;
                        },
                        None => {
                            proof {
                                lemma_assoc_contains(scopes.frames@[j as int].types@, name@);
                                assert(k < n0);
                            }
                            cur = scopes.frames[j].parent;
                            proof {
                                k = k + 1;
                            }
                        },
                    }
                },
            }
        }
    }

    /// The enclosing scope of `scope`.
    pub fn get_parent(scopes: &ScopeTable, scope: ScopeRef) -> (r: Option<ScopeRef>)
        requires
            scope < scopes@.len(),
        ensures
            r == scopes@[scope as int].parent,
    {
        match scopes.frames[scope].parent {
            Some(parent) => Some(parent),
            None => None,
        }
    }
}

/// The type variable `'a`.
pub open spec fn var_a() -> TypeView {
    TypeView::Variable("a"@)
}

/// `('a, 'a) -> 'a`, the type of the arithmetic and bitwise operators.
pub open spec fn bin_op_view() -> TypeView {
    TypeView::Function(seq![var_a(), var_a()], Box::new(var_a()), Abi::Molten)
}

/// `('a, 'a) -> Bool`, the type of the comparison and logical operators.
pub open spec fn bool_op_view() -> TypeView {
    TypeView::Function(seq![var_a(), var_a()], Box::new(TypeView::Concrete("Bool"@)), Abi::Molten)
}

/// `(Int) -> ret`.
pub open spec fn int_fn_view(ret: TypeView) -> TypeView {
    TypeView::Function(seq![TypeView::Concrete("Int"@)], Box::new(ret), Abi::Molten)
}

/// The outermost scope of every program: the primitive types and the
/// operators.
pub open spec fn builtin_scope() -> ScopeView {
    ScopeView {
        names: Map::<Seq<char>, SymbolView>::empty()
            .insert("*"@, SymbolView { ttype: bin_op_view(), value: None })
            .insert("/"@, SymbolView { ttype: bin_op_view(), value: None })
            .insert("^"@, SymbolView { ttype: bin_op_view(), value: None })
            .insert("%"@, SymbolView { ttype: bin_op_view(), value: None })
            .insert("+"@, SymbolView { ttype: bin_op_view(), value: None })
            .insert("-"@, SymbolView { ttype: bin_op_view(), value: None })
            .insert("<<"@, SymbolView { ttype: bin_op_view(), value: None })
            .insert(">>"@, SymbolView { ttype: bin_op_view(), value: None })
            .insert("<"@, SymbolView { ttype: bool_op_view(), value: None })
            .insert(">"@, SymbolView { ttype: bool_op_view(), value: None })
            .insert("<="@, SymbolView { ttype: bool_op_view(), value: None })
            .insert(">="@, SymbolView { ttype: bool_op_view(), value: None })
            .insert("=="@, SymbolView { ttype: bool_op_view(), value: None })
            .insert("!="@, SymbolView { ttype: bool_op_view(), value: None })
            .insert("&"@, SymbolView { ttype: bin_op_view(), value: None })
            .insert("|"@, SymbolView { ttype: bin_op_view(), value: None })
            .insert("and"@, SymbolView { ttype: bool_op_view(), value: None })
            .insert("or"@, SymbolView { ttype: bool_op_view(), value: None })
            .insert("~"@, SymbolView { ttype: int_fn_view(TypeView::Concrete("Int"@)), value: None })
            .insert("not"@, SymbolView { ttype: int_fn_view(TypeView::Concrete("Bool"@)), value: None }),
        types: Map::<Seq<char>, TypeView>::empty()
            .insert("Int"@, TypeView::Concrete("Int"@))
            .insert("Real"@, TypeView::Concrete("Real"@))
            .insert("String"@, TypeView::Concrete("String"@))
            .insert("Bool"@, TypeView::Concrete("Bool"@))
            .insert("Class"@, TypeView::Concrete("Class"@)),
        parent: None,
    }
}

/// The table with the builtin scope and, inside it, an empty global scope added.
pub open spec fn with_globals(t: Seq<ScopeView>) -> Seq<ScopeView> {
    t.push(builtin_scope()).push(empty_scope(Some(t.len() as ScopeRef)))
}

fn type_var_a() -> (r: Type)
    ensures
        r@ == var_a(),
{
    Type::Variable(lit("a"))
}

fn function_type(a: Type, b: Option<Type>, ret: Type) -> (r: Type)
    ensures
        r@ == TypeView::Function(
            match b { Some(b) => seq![a@, b@], None => seq![a@] },
            Box::new(ret@),
            Abi::Molten,
        ),
{
    let mut args: Vec<Type> = Vec::new();
    args.push(a);
    match b {
        Some(b) => args.push(b),
        None => {},
    }
    proof {
        lemma_types_view(args@);
        assert(types_view(args@) =~= match b { Some(b) => seq![a@, b@], None => seq![a@] });
    }
    Type::Function(args, Box::new(ret), Abi::Molten)
}

/// The builtin scope before its operators are defined.
pub open spec fn builtin_types_scope() -> ScopeView {
    ScopeView { names: Map::empty(), ..builtin_scope() }
}

/// What the builtin type and operator names are made of: their lengths and
/// first characters, which tell any two of them apart.
pub(crate) proof fn lemma_builtin_literals()
    ensures
        "Int"@.len() == 3 && "Int"@[0] == 'I' && "Int"@[1] == 'n',
        "Real"@.len() == 4 && "Real"@[0] == 'R' && "Real"@[1] == 'e',
        "String"@.len() == 6 && "String"@[0] == 'S' && "String"@[1] == 't',
        "Bool"@.len() == 4 && "Bool"@[0] == 'B' && "Bool"@[1] == 'o',
        "Class"@.len() == 5 && "Class"@[0] == 'C' && "Class"@[1] == 'l',
        "*"@.len() == 1 && "*"@[0] == '*',
        "/"@.len() == 1 && "/"@[0] == '/',
        "^"@.len() == 1 && "^"@[0] == '^',
        "%"@.len() == 1 && "%"@[0] == '%',
        "+"@.len() == 1 && "+"@[0] == '+',
        "-"@.len() == 1 && "-"@[0] == '-',
        "<<"@.len() == 2 && "<<"@[0] == '<' && "<<"@[1] == '<',
        ">>"@.len() == 2 && ">>"@[0] == '>' && ">>"@[1] == '>',
        "<"@.len() == 1 && "<"@[0] == '<',
        ">"@.len() == 1 && ">"@[0] == '>',
        "<="@.len() == 2 && "<="@[0] == '<' && "<="@[1] == '=',
        ">="@.len() == 2 && ">="@[0] == '>' && ">="@[1] == '=',
        "=="@.len() == 2 && "=="@[0] == '=' && "=="@[1] == '=',
        "!="@.len() == 2 && "!="@[0] == '!' && "!="@[1] == '=',
        "&"@.len() == 1 && "&"@[0] == '&',
        "|"@.len() == 1 && "|"@[0] == '|',
        "and"@.len() == 3 && "and"@[0] == 'a' && "and"@[1] == 'n',
        "or"@.len() == 2 && "or"@[0] == 'o' && "or"@[1] == 'r',
        "~"@.len() == 1 && "~"@[0] == '~',
        "not"@.len() == 3 && "not"@[0] == 'n' && "not"@[1] == 'o',
{
    reveal_strlit("Int");
    reveal_strlit("Real");
    reveal_strlit("String");
    reveal_strlit("Bool");
    reveal_strlit("Class");
    reveal_strlit("*");
    reveal_strlit("/");
    reveal_strlit("^");
    reveal_strlit("%");
    reveal_strlit("+");
    reveal_strlit("-");
    reveal_strlit("<<");
    reveal_strlit(">>");
    reveal_strlit("<");
    reveal_strlit(">");
    reveal_strlit("<=");
    reveal_strlit(">=");
    reveal_strlit("==");
    reveal_strlit("!=");
    reveal_strlit("&");
    reveal_strlit("|");
    reveal_strlit("and");
    reveal_strlit("or");
    reveal_strlit("~");
    reveal_strlit("not");
}

fn define_builtin_types(scopes: &mut ScopeTable, scope: ScopeRef)
    requires
        old(scopes).wf(),
        scope < old(scopes)@.len(),
        old(scopes)@[scope as int] == empty_scope(None),
    ensures
        final(scopes).wf(),
        final(scopes)@ == old(scopes)@.update(scope as int, builtin_types_scope()),
{
    let ghost t0 = scopes@;
    let ghost mut frame = empty_scope(None);
    proof {
        lemma_builtin_literals();
    }
    Scope::define_type(scopes, scope, lit("Int"), Type::Concrete(lit("Int")));
    proof {
        frame = with_type(frame, "Int"@, TypeView::Concrete("Int"@));
        assert(scopes@ =~= t0.update(scope as int, frame));
    }
    Scope::define_type(scopes, scope, lit("Real"), Type::Concrete(lit("Real")));
    proof {
        frame = with_type(frame, "Real"@, TypeView::Concrete("Real"@));
        assert(scopes@ =~= t0.update(scope as int, frame));
    }
    Scope::define_type(scopes, scope, lit("String"), Type::Concrete(lit("String")));
    proof {
        frame = with_type(frame, "String"@, TypeView::Concrete("String"@));
        assert(scopes@ =~= t0.update(scope as int, frame));
    }
    Scope::define_type(scopes, scope, lit("Bool"), Type::Concrete(lit("Bool")));
    proof {
        frame = with_type(frame, "Bool"@, TypeView::Concrete("Bool"@));
        assert(scopes@ =~= t0.update(scope as int, frame));
    }
    Scope::define_type(scopes, scope, lit("Class"), Type::Concrete(lit("Class")));
    proof {
        frame = with_type(frame, "Class"@, TypeView::Concrete("Class"@));
        assert(scopes@ =~= t0.update(scope as int, frame));
    }
    proof {
        assert(frame.names =~= builtin_types_scope().names);
        assert(frame.types =~= builtin_types_scope().types);
    }
}

/// Defines the builtin `name` with type `ttype` in `scope`, whose view in
/// `t0` is replaced by `frame`, which does not define `name` yet; gives back
/// the scope's new view.
fn define_builtin(
    scopes: &mut ScopeTable,
    scope: ScopeRef,
    name: &str,
    ttype: Type,
    Ghost(t0): Ghost<Seq<ScopeView>>,
    Ghost(frame): Ghost<ScopeView>,
) -> (r: Ghost<ScopeView>)
    requires
        old(scopes).wf(),
        scope < t0.len(),
        old(scopes)@ == t0.update(scope as int, frame),
        !frame.names.contains_key(name@),
    ensures
        final(scopes).wf(),
        r@ == with_name(frame, name@, SymbolView { ttype: ttype@, value: None }),
        final(scopes)@ == t0.update(scope as int, r@),
{
    let ghost tv = ttype@;
    Scope::define(scopes, scope, lit(name), Some(ttype));
    let ghost f = with_name(frame, name@, SymbolView { ttype: tv, value: None });
    proof {
        assert(scopes@ =~= t0.update(scope as int, f));
    }
    Ghost(f)
}

fn define_operators(scopes: &mut ScopeTable, scope: ScopeRef)
    requires
        old(scopes).wf(),
        scope < old(scopes)@.len(),
        old(scopes)@[scope as int] == builtin_types_scope(),
    ensures
        final(scopes).wf(),
        final(scopes)@ == old(scopes)@.update(scope as int, builtin_scope()),
{
    let ghost t0 = scopes@;
    proof {
        lemma_builtin_literals();
        assert(t0 =~= t0.update(scope as int, builtin_types_scope()));
    }
    let bintype = function_type(type_var_a(), Some(type_var_a()), type_var_a());
    let booltype = function_type(type_var_a(), Some(type_var_a()), Type::Concrete(lit("Bool")));
    let Ghost(frame) = define_builtin(scopes, scope, "*", bintype.clone(), Ghost(t0), Ghost(builtin_types_scope()));
    let Ghost(frame) = define_builtin(scopes, scope, "/", bintype.clone(), Ghost(t0), Ghost(frame));
    let Ghost(frame) = define_builtin(scopes, scope, "^", bintype.clone(), Ghost(t0), Ghost(frame));
    let Ghost(frame) = define_builtin(scopes, scope, "%", bintype.clone(), Ghost(t0), Ghost(frame));
    let Ghost(frame) = define_builtin(scopes, scope, "+", bintype.clone(), Ghost(t0), Ghost(frame));
    let Ghost(frame) = define_builtin(scopes, scope, "-", bintype.clone(), Ghost(t0), Ghost(frame));
    let Ghost(frame) = define_builtin(scopes, scope, "<<", bintype.clone(), Ghost(t0), Ghost(frame));
    let Ghost(frame) = define_builtin(scopes, scope, ">>", bintype.clone(), Ghost(t0), Ghost(frame));
    let Ghost(frame) = define_builtin(scopes, scope, "<", booltype.clone(), Ghost(t0), Ghost(frame));
    let Ghost(frame) = define_builtin(scopes, scope, ">", booltype.clone(), Ghost(t0), Ghost(frame));
    let Ghost(frame) = define_builtin(scopes, scope, "<=", booltype.clone(), Ghost(t0), Ghost(frame));
    let Ghost(frame) = define_builtin(scopes, scope, ">=", booltype.clone(), Ghost(t0), Ghost(frame));
    let Ghost(frame) = define_builtin(scopes, scope, "==", booltype.clone(), Ghost(t0), Ghost(frame));
    let Ghost(frame) = define_builtin(scopes, scope, "!=", booltype.clone(), Ghost(t0), Ghost(frame));
    let Ghost(frame) = define_builtin(scopes, scope, "&", bintype.clone(), Ghost(t0), Ghost(frame));
    let Ghost(frame) = define_builtin(scopes, scope, "|", bintype.clone(), Ghost(t0), Ghost(frame));
    let Ghost(frame) = define_builtin(scopes, scope, "and", booltype.clone(), Ghost(t0), Ghost(frame));
    let Ghost(frame) = define_builtin(scopes, scope, "or", booltype.clone(), Ghost(t0), Ghost(frame));
    let Ghost(frame) = define_builtin(scopes, scope, "~", function_type(Type::Concrete(lit("Int")), None, Type::Concrete(lit("Int"))), Ghost(t0), Ghost(frame));
    let Ghost(frame) = define_builtin(scopes, scope, "not", function_type(Type::Concrete(lit("Int")), None, Type::Concrete(lit("Bool"))), Ghost(t0), Ghost(frame));
    proof {
        assert(frame.names =~= builtin_scope().names);
        assert(frame.types =~= builtin_scope().types);
    }
}

/// Adds the builtin scope and a global scope inside it; returns the global scope.
pub fn make_global(scopes: &mut ScopeTable) -> (r: ScopeRef)
    requires
        old(scopes).wf(),
    ensures
        final(scopes).wf(),
        r == old(scopes)@.len() + 1,
        final(scopes)@ == with_globals(old(scopes)@),
{
    let scope = Scope::new_ref(scopes, None);
    define_builtin_types(scopes, scope);
    define_operators(scopes, scope);
    let global = Scope::new_ref(scopes, Some(scope));
    proof {
        assert(scopes@ =~= with_globals(old(scopes)@));
    }
    global
}

/// The table after binding the names of `node` in scope `s`, or `None`
/// where binding panics or never ends: an identifier or a called name is not
/// visible, a name is defined twice in one scope, no fresh type variable is
/// left, a scope of the tree is not in the table, or a search for a name or
/// type name goes round a cycle of scopes without finding it.
pub open spec fn bind_node(t: Seq<ScopeView>, s: ScopeRef, node: AST) -> Option<Seq<ScopeView>>
    decreases node,
{
    match node {
        AST::Definition(_, name, ttype, code) => if can_define(t, s, name@, opt_type(ttype)) {
            bind_node(defined(t, s, name@, opt_type(ttype)), s, *code)
        } else {
            None
        },
        AST::Function(_, _, args, body, fscope, _) => if fscope < t.len() {
            let t1 = t.update(fscope as int, with_parent(t[fscope as int], Some(s)));
            match bind_args(t1, fscope, args@) {
                None => None,
                Some(t2) => bind_node(t2, fscope, *body),
            }
        } else {
            None
        },
        AST::Identifier(name) => if name_search_ends(t, s, name@) && lookup_name(t, s, name@) is Some {
            Some(t)
        } else {
            None
        },
        AST::List(code) => bind_list(t, s, code@),
        AST::Block(code) => bind_list(t, s, code@),
        AST::Index(base, index) => match bind_node(t, s, *base) {
            None => None,
            Some(t1) => bind_node(t1, s, *index),
        },
        AST::Accessor(left, _) => bind_node(t, s, *left),
        AST::Invoke(name, code) => if name_search_ends(t, s, name@) && lookup_name(t, s, name@) is Some {
            bind_list(t, s, code@)
        } else {
            None
        },
        AST::If(cond, texpr, fexpr) => match bind_node(t, s, *cond) {
            None => None,
            Some(t1) => match bind_node(t1, s, *texpr) {
                None => None,
                Some(t2) => bind_node(t2, s, *fexpr),
            },
        },
        AST::Raise(expr) => bind_node(t, s, *expr),
        AST::Try(cond, cases) => match bind_node(t, s, *cond) {
            None => None,
            Some(t1) => bind_cases(t1, s, cases@),
        },
        AST::Match(cond, cases) => match bind_node(t, s, *cond) {
            None => None,
            Some(t1) => bind_cases(t1, s, cases@),
        },
        AST::For(name, cond, body, lscope) => if lscope < t.len() {
            let t1 = t.update(lscope as int, with_parent(t[lscope as int], Some(s)));
            if can_define(t1, lscope, name@, None) {
                match bind_node(defined(t1, lscope, name@, None), s, *cond) {
                    None => None,
                    Some(t2) => bind_node(t2, lscope, *body),
                }
            } else {
                None
            }
        } else {
            None
        },
        AST::While(cond, body) => match bind_node(t, s, *cond) {
            None => None,
            Some(t1) => bind_node(t1, s, *body),
        },
        AST::Class(classspec, _, body, cscope) => {
            let ctype = Some(TypeView::Concrete("Class"@));
            if cscope < t.len() && can_define(t, s, classspec.name@, ctype) {
                let t1 = defined(t, s, classspec.name@, ctype);
                bind_list(t1.update(cscope as int, with_parent(t1[cscope as int], Some(s))), cscope, body@)
            } else {
                None
            }
        },
        _ => Some(t),
    }
}

/// Binding each node of `code` in turn.
pub open spec fn bind_list(t: Seq<ScopeView>, s: ScopeRef, code: Seq<AST>) -> Option<Seq<ScopeView>>
    decreases code,
{
    if code.len() == 0 {
        Some(t)
    } else {
        match bind_list(t, s, code.subrange(0, code.len() - 1)) {
            None => None,
            Some(t1) => bind_node(t1, s, code[code.len() - 1]),
        }
    }
}

/// Binding each arm of a `match` or `try`: its pattern, then its body.
pub open spec fn bind_cases(t: Seq<ScopeView>, s: ScopeRef, cases: Seq<(AST, AST)>) -> Option<Seq<ScopeView>>
    decreases cases,
{
    if cases.len() == 0 {
        Some(t)
    } else {
        match bind_cases(t, s, cases.subrange(0, cases.len() - 1)) {
            None => None,
            Some(t1) => match bind_node(t1, s, cases[cases.len() - 1].0) {
                None => None,
                Some(t2) => bind_node(t2, s, cases[cases.len() - 1].1),
            },
        }
    }
}

/// Defining each argument of a function in its scope `s`.
pub open spec fn bind_args(t: Seq<ScopeView>, s: ScopeRef, args: Seq<(String, Option<Type>, Option<AST>)>) -> Option<Seq<ScopeView>>
    decreases args.len(),
{
    if args.len() == 0 {
        Some(t)
    } else {
        match bind_args(t, s, args.drop_last()) {
            None => None,
            Some(t1) => if can_define(t1, s, args.last().0@, opt_type(args.last().1)) {
                Some(defined(t1, s, args.last().0@, opt_type(args.last().1)))
            } else {
                None
            },
        }
    }
}

proof fn lemma_bind_list_prefix(t: Seq<ScopeView>, s: ScopeRef, code: Seq<AST>, k: int)
    requires
        bind_list(t, s, code) is Some,
        0 <= k <= code.len(),
    ensures
        bind_list(t, s, code.take(k)) is Some,
    decreases code.len(),
{
    if k == code.len() {
        assert(code.take(k) =~= code);
    } else {
        let c1 = code.subrange(0, code.len() - 1);
        lemma_bind_list_prefix(t, s, c1, k);
        assert(c1.take(k) =~= code.take(k));
    }
}

proof fn lemma_bind_list_step(t: Seq<ScopeView>, s: ScopeRef, code: Seq<AST>, k: int)
    requires
        0 <= k < code.len(),
    ensures
        bind_list(t, s, code.take(k + 1)) == match bind_list(t, s, code.take(k)) {
            None => None,
            Some(t1) => bind_node(t1, s, code[k]),
        },
{
    assert(code.take(k + 1).subrange(0, k) =~= code.take(k));
}

proof fn lemma_bind_cases_prefix(t: Seq<ScopeView>, s: ScopeRef, cases: Seq<(AST, AST)>, k: int)
    requires
        bind_cases(t, s, cases) is Some,
        0 <= k <= cases.len(),
    ensures
        bind_cases(t, s, cases.take(k)) is Some,
    decreases cases.len(),
{
    if k == cases.len() {
        assert(cases.take(k) =~= cases);
    } else {
        let c1 = cases.subrange(0, cases.len() - 1);
        lemma_bind_cases_prefix(t, s, c1, k);
        assert(c1.take(k) =~= cases.take(k));
    }
}

proof fn lemma_bind_cases_step(t: Seq<ScopeView>, s: ScopeRef, cases: Seq<(AST, AST)>, k: int)
    requires
        0 <= k < cases.len(),
    ensures
        bind_cases(t, s, cases.take(k + 1)) == match bind_cases(t, s, cases.take(k)) {
            None => None,
            Some(t1) => match bind_node(t1, s, cases[k].0) {
                None => None,
                Some(t2) => bind_node(t2, s, cases[k].1),
            },
        },
{
    assert(cases.take(k + 1).subrange(0, k) =~= cases.take(k));
}

proof fn lemma_bind_args_prefix(t: Seq<ScopeView>, s: ScopeRef, args: Seq<(String, Option<Type>, Option<AST>)>, k: int)
    requires
        bind_args(t, s, args) is Some,
        0 <= k <= args.len(),
    ensures
        bind_args(t, s, args.take(k)) is Some,
    decreases args.len(),
{
    if k == args.len() {
        assert(args.take(k) =~= args);
    } else {
        let a1 = args.drop_last();
        lemma_bind_args_prefix(t, s, a1, k);
        assert(a1.take(k) =~= args.take(k));
    }
}

proof fn lemma_bind_args_step(t: Seq<ScopeView>, s: ScopeRef, args: Seq<(String, Option<Type>, Option<AST>)>, k: int)
    requires
        0 <= k < args.len(),
    ensures
        bind_args(t, s, args.take(k + 1)) == match bind_args(t, s, args.take(k)) {
            None => None,
            Some(t1) => if can_define(t1, s, args[k].0@, opt_type(args[k].1)) {
                Some(defined(t1, s, args[k].0@, opt_type(args[k].1)))
            } else {
                None
            },
        },
{
    assert(args.take(k + 1).drop_last() =~= args.take(k));
}

fn clone_opt_type(t: &Option<Type>) -> (r: Option<Type>)
    ensures
        opt_type(r) == opt_type(*t),
{
    match t {
        Some(t) => Some(clone_type(t)),
        None => None,
    }
}

/// Binds the names of a whole program: adds the builtin and global scopes
/// and binds each node of `code` in the global scope, which is returned.
pub fn bind_names(scopes: &mut ScopeTable, code: &mut Vec<AST>) -> (r: ScopeRef)
    requires
        old(scopes).wf(),
        bind_list(with_globals(old(scopes)@), (old(scopes)@.len() + 1) as ScopeRef, old(code)@) is Some,
    ensures
        final(scopes).wf(),
        *final(code) == *old(code),
        r == old(scopes)@.len() + 1,
        final(scopes)@.len() == old(scopes)@.len() + 2,
        bind_list(with_globals(old(scopes)@), r, old(code)@) == Some(final(scopes)@),
{
    let scope = make_global(scopes);
    bind_names_vec(scopes, scope, code);
    scope
}

/// Binds each node of `code` in `scope`, in order.
pub fn bind_names_vec(scopes: &mut ScopeTable, scope: ScopeRef, code: &mut Vec<AST>)
    requires
        old(scopes).wf(),
        scope < old(scopes)@.len(),
        bind_list(old(scopes)@, scope, old(code)@) is Some,
    ensures
        final(scopes).wf(),
        *final(code) == *old(code),
        final(scopes)@.len() == old(scopes)@.len(),
        bind_list(old(scopes)@, scope, old(code)@) == Some(final(scopes)@),
{
    let _ = bind_list_exec(scopes, scope, code);
}

/// Whether binding each node of `code` in `scope` succeeds, that is,
/// whether `bind_names_vec` accepts it; `scopes` is left as it is.
pub fn names_bind(scopes: &ScopeTable, scope: ScopeRef, code: &Vec<AST>) -> (r: bool)
    requires
        scopes.wf(),
        scope < scopes@.len(),
    ensures
        r == (bind_list(scopes@, scope, code@) is Some),
{
    let mut copy = scopes.clone();
    bind_list_exec(&mut copy, scope, code)
}

/// Whether `name` is visible from `scope`: its search stops and finds it.
fn name_visible(scopes: &ScopeTable, scope: ScopeRef, name: &String) -> (r: bool)
    requires
        scopes.wf(),
        scope < scopes@.len(),
    ensures
        r == (name_search_ends(scopes@, scope, name@) && lookup_name(scopes@, scope, name@) is Some),
{
    if !Scope::search_stops(scopes, scope, name, false) {
        return false;
    }
    Scope::find(scopes, scope, name).is_some()
}

/// Whether a fresh type variable can be made in `scope`, that is, whether
/// `new_typevar` accepts it.
pub fn typevar_possible(scopes: &ScopeTable, scope: ScopeRef) -> (r: bool)
    requires
        scopes.wf(),
        scope < scopes@.len(),
    ensures
        r == can_make_typevar(scopes@, scope),
{
    let ghost t = scopes@;
    let mut ch: u8 = 0;
    while ch < 26
        invariant
            t == scopes@,
            scopes.wf(),
            scope < t.len(),
            ch <= 26,
            letters_searchable(t, scope, 0) == letters_searchable(t, scope, ch as nat),
        decreases 26 - ch,
    {
        let name = String::from_str(letter_str(ch));
        proof {
            assert(name@ == seq![letter(ch as int)]);
        }
        if !Scope::search_stops(scopes, scope, &name, true) {
            return false;
        }
        if Scope::find_type(scopes, scope, &name).is_none() {
            return true;
        }
        ch = ch + 1;
    }
    false
}

/// Whether `name` can be defined in `scope` with the given type, that is,
/// whether `define` accepts it.
pub fn can_define_check(scopes: &ScopeTable, scope: ScopeRef, name: &String, ttype: &Option<Type>) -> (r: bool)
    requires
        scopes.wf(),
        scope < scopes@.len(),
    ensures
        r == can_define(scopes@, scope, name@, opt_type(*ttype)),
{
    let f = &scopes.frames[scope];
    proof {
        lemma_assoc_contains(f.names@, name@);
    }
    if find_key(&f.names, name).is_some() {
        return false;
    }
    match ttype {
        Some(_) => true,
        None => typevar_possible(scopes, scope),
    }
}

fn bind_list_exec(scopes: &mut ScopeTable, scope: ScopeRef, code: &Vec<AST>) -> (ok: bool)
    requires
        old(scopes).wf(),
        scope < old(scopes)@.len(),
    ensures
        final(scopes).wf(),
        final(scopes)@.len() == old(scopes)@.len(),
        ok == (bind_list(old(scopes)@, scope, code@) is Some),
        ok ==> bind_list(old(scopes)@, scope, code@) == Some(final(scopes)@),
    decreases code, 0nat,
{
    let ghost t0 = scopes@;
    let mut i: usize = 0;
    proof {
        assert(code@.take(0) =~= Seq::<AST>::empty());
    }
    while i < code.len()
        invariant
            i <= code.len(),
            t0 == old(scopes)@,
            scopes.wf(),
            scopes@.len() == t0.len(),
            scope < t0.len(),
            bind_list(t0, scope, code@.take(i as int)) == Some(scopes@),
        decreases code.len() - i,
    {
        proof {
            lemma_bind_list_step(t0, scope, code@, i as int);
        }
        if !bind_names_node(scopes, scope, &code[i]) {
            proof {
                if bind_list(t0, scope, code@) is Some {
                    lemma_bind_list_prefix(t0, scope, code@, i + 1);
                }
            }
            return false;
        }
        i = i + 1;
    }
    proof {
        assert(code@.take(code.len() as int) =~= code@);
    }
    true
}

fn bind_cases_exec(scopes: &mut ScopeTable, scope: ScopeRef, cases: &Vec<(AST, AST)>) -> (ok: bool)
    requires
        old(scopes).wf(),
        scope < old(scopes)@.len(),
    ensures
        final(scopes).wf(),
        final(scopes)@.len() == old(scopes)@.len(),
        ok == (bind_cases(old(scopes)@, scope, cases@) is Some),
        ok ==> bind_cases(old(scopes)@, scope, cases@) == Some(final(scopes)@),
    decreases cases, 0nat,
{
    let ghost t0 = scopes@;
    let mut i: usize = 0;
    proof {
        assert(cases@.take(0) =~= Seq::<(AST, AST)>::empty());
    }
    while i < cases.len()
        invariant
            i <= cases.len(),
            t0 == old(scopes)@,
            scopes.wf(),
            scopes@.len() == t0.len(),
            scope < t0.len(),
            bind_cases(t0, scope, cases@.take(i as int)) == Some(scopes@),
        decreases cases.len() - i,
    {
        proof {
            lemma_bind_cases_step(t0, scope, cases@, i as int);
        }
        if !bind_names_node(scopes, scope, &cases[i].0) || !bind_names_node(scopes, scope, &cases[i].1) {
            proof {
                if bind_cases(t0, scope, cases@) is Some {
                    lemma_bind_cases_prefix(t0, scope, cases@, i + 1);
                }
            }
            return false;
        }
        i = i + 1;
    }
    proof {
        assert(cases@.take(cases.len() as int) =~= cases@);
    }
    true
}

fn bind_args_exec(scopes: &mut ScopeTable, scope: ScopeRef, args: &Vec<(String, Option<Type>, Option<AST>)>) -> (ok: bool)
    requires
        old(scopes).wf(),
        scope < old(scopes)@.len(),
    ensures
        final(scopes).wf(),
        final(scopes)@.len() == old(scopes)@.len(),
        ok == (bind_args(old(scopes)@, scope, args@) is Some),
        ok ==> bind_args(old(scopes)@, scope, args@) == Some(final(scopes)@),
{
    let ghost t0 = scopes@;
    let mut i: usize = 0;
    proof {
        assert(args@.take(0) =~= Seq::<(String, Option<Type>, Option<AST>)>::empty());
    }
    while i < args.len()
        invariant
            i <= args.len(),
            t0 == old(scopes)@,
            scopes.wf(),
            scopes@.len() == t0.len(),
            scope < t0.len(),
            bind_args(t0, scope, args@.take(i as int)) == Some(scopes@),
        decreases args.len() - i,
    {
        proof {
            lemma_bind_args_step(t0, scope, args@, i as int);
        }
        if !can_define_check(scopes, scope, &args[i].0, &args[i].1) {
            proof {
                if bind_args(t0, scope, args@) is Some {
                    lemma_bind_args_prefix(t0, scope, args@, i + 1);
                }
            }
            return false;
        }
        Scope::define(scopes, scope, args[i].0.clone(), clone_opt_type(&args[i].1));
        i = i + 1;
    }
    proof {
        assert(args@.take(args.len() as int) =~= args@);
    }
    true
}

/// Binds the names of `node` in `scope`: definitions and arguments are
/// defined, function, loop and class scopes are placed inside the scope
/// they stand in, and every identifier and called name must be visible.
/// Tells whether binding succeeded; where it did not, the table holds
/// what was bound before the failure.
fn bind_names_node(scopes: &mut ScopeTable, scope: ScopeRef, node: &AST) -> (ok: bool)
    requires
        old(scopes).wf(),
        scope < old(scopes)@.len(),
    ensures
        final(scopes).wf(),
        final(scopes)@.len() == old(scopes)@.len(),
        ok == (bind_node(old(scopes)@, scope, *node) is Some),
        ok ==> bind_node(old(scopes)@, scope, *node) == Some(final(scopes)@),
    decreases node, 1nat,
{
    match node {
        AST::Definition(_, name, ttype, code) => {
            if !can_define_check(scopes, scope, name, ttype) {
                return false;
            }
            Scope::define(scopes, scope, name.clone(), clone_opt_type(ttype));
            bind_names_node(scopes, scope, &**code)
        },
        AST::Function(_, _, args, body, fscope, _) => {
            if *fscope >= scopes.len() {
                return false;
            }
            Scope::set_parent(scopes, *fscope, scope);
            if !bind_args_exec(scopes, *fscope, args) {
                return false;
            }
            bind_names_node(scopes, *fscope, &**body)
        },
        AST::Identifier(name) => name_visible(scopes, scope, name),
        AST::List(code) => bind_list_exec(scopes, scope, code),
        AST::Block(code) => bind_list_exec(scopes, scope, code),
        AST::Index(base, index) => {
            if !bind_names_node(scopes, scope, &**base) {
                return false;
            }
            bind_names_node(scopes, scope, &**index)
        },
        AST::Accessor(left, _) => bind_names_node(scopes, scope, &**left),
        AST::Invoke(name, code) => {
            if !name_visible(scopes, scope, name) {
                return false;
            }
            bind_list_exec(scopes, scope, code)
        },
        AST::If(cond, texpr, fexpr) => {
            if !bind_names_node(scopes, scope, &**cond) {
                return false;
            }
            if !bind_names_node(scopes, scope, &**texpr) {
                return false;
            }
            bind_names_node(scopes, scope, &**fexpr)
        },
        AST::Raise(expr) => bind_names_node(scopes, scope, &**expr),
        AST::Try(cond, cases) => {
            if !bind_names_node(scopes, scope, &**cond) {
                return false;
            }
            bind_cases_exec(scopes, scope, cases)
        },
        AST::Match(cond, cases) => {
            if !bind_names_node(scopes, scope, &**cond) {
                return false;
            }
            bind_cases_exec(scopes, scope, cases)
        },
        AST::For(name, cond, body, lscope) => {
            if *lscope >= scopes.len() {
                return false;
            }
            Scope::set_parent(scopes, *lscope, scope);
            if !can_define_check(scopes, *lscope, name, &None) {
                return false;
            }
            Scope::define(scopes, *lscope, name.clone(), None);
            if !bind_names_node(scopes, scope, &**cond) {
                return false;
            }
            bind_names_node(scopes, *lscope, &**body)
        },
        AST::While(cond, body) => {
            if !bind_names_node(scopes, scope, &**cond) {
                return false;
            }
            bind_names_node(scopes, scope, &**body)
        },
        AST::Class(classspec, _, body, cscope) => {
            let ctype = Some(Type::Concrete(lit("Class")));
            if *cscope >= scopes.len() || !can_define_check(scopes, scope, &classspec.name, &ctype) {
                return false;
            }
            Scope::define(scopes, scope, classspec.name.clone(), ctype);
            Scope::set_parent(scopes, *cscope, scope);
            bind_list_exec(scopes, *cscope, body)
        },
        _ => true,
    }
}

} // verus!
