use vstd::prelude::*;

verus! {

/// Calling convention of a function type.
#[derive(PartialEq, Eq, Structural, Clone, Copy, Debug)]
pub enum Abi {
    Molten,
    C,
}

/// A Molten type.
#[derive(Debug, PartialEq, Eq)]
pub enum Type {
    Concrete(String),
    Variable(String),
    Object(String, Vec<Type>),
    Tuple(Vec<Type>),
    Record(Vec<(String, Type)>),
    Function(Vec<Type>, Box<Type>, Abi),
    Ref(Box<Type>),
    Ambiguous(Vec<Type>),
}

/// The mathematical value of a `Type`: names as character sequences and
/// component lists as sequences.
pub enum TypeView {
    Concrete(Seq<char>),
    Variable(Seq<char>),
    Object(Seq<char>, Seq<TypeView>),
    Tuple(Seq<TypeView>),
    Record(Seq<(Seq<char>, TypeView)>),
    Function(Seq<TypeView>, Box<TypeView>, Abi),
    Ref(Box<TypeView>),
    Ambiguous(Seq<TypeView>),
}

pub open spec fn type_view(t: Type) -> TypeView
    decreases t,
{
    match t {
        Type::Concrete(n) => TypeView::Concrete(n@),
        Type::Variable(n) => TypeView::Variable(n@),
        Type::Object(n, ts) => TypeView::Object(n@, types_view(ts@)),
        Type::Tuple(ts) => TypeView::Tuple(types_view(ts@)),
        Type::Record(fs) => TypeView::Record(fields_view(fs@)),
        Type::Function(args, ret, abi) => TypeView::Function(types_view(args@), Box::new(type_view(*ret)), abi),
        Type::Ref(inner) => TypeView::Ref(Box::new(type_view(*inner))),
        Type::Ambiguous(ts) => TypeView::Ambiguous(types_view(ts@)),
    }
}

pub open spec fn types_view(s: Seq<Type>) -> Seq<TypeView>
    decreases s,
{
    if s.len() == 0 {
        Seq::empty()
    } else {
        types_view(s.subrange(0, s.len() - 1)).push(type_view(s[s.len() - 1]))
    }
}

pub open spec fn fields_view(s: Seq<(String, Type)>) -> Seq<(Seq<char>, TypeView)>
    decreases s,
{
    if s.len() == 0 {
        Seq::empty()
    } else {
        fields_view(s.subrange(0, s.len() - 1)).push((s[s.len() - 1].0@, type_view(s[s.len() - 1].1)))
    }
}

impl View for Type {
    type V = TypeView;

    open spec fn view(&self) -> TypeView {
        type_view(*self)
    }
}

pub proof fn lemma_types_view_push(s: Seq<Type>, t: Type)
    ensures
        types_view(s.push(t)) == types_view(s).push(type_view(t)),
{
    assert(s.push(t).subrange(0, s.len() as int) =~= s);
}

pub proof fn lemma_fields_view_push(s: Seq<(String, Type)>, f: (String, Type))
    ensures
        fields_view(s.push(f)) == fields_view(s).push((f.0@, type_view(f.1))),
{
    assert(s.push(f).subrange(0, s.len() as int) =~= s);
}

/// `types_view` maps each element to its view.
pub proof fn lemma_types_view(s: Seq<Type>)
    ensures
        types_view(s).len() == s.len(),
        forall|i: int| 0 <= i < s.len() ==> #[trigger] types_view(s)[i] == type_view(s[i]),
    decreases s.len(),
{
    if s.len() > 0 {
        lemma_types_view(s.subrange(0, s.len() - 1));
    }
}

/// `fields_view` maps each field to the view of its name and type.
pub proof fn lemma_fields_view(s: Seq<(String, Type)>)
    ensures
        fields_view(s).len() == s.len(),
        forall|i: int| 0 <= i < s.len() ==> #[trigger] fields_view(s)[i] == (s[i].0@, type_view(s[i].1)),
    decreases s.len(),
{
    if s.len() > 0 {
        lemma_fields_view(s.subrange(0, s.len() - 1));
    }
}

fn clone_types(v: &Vec<Type>) -> (r: Vec<Type>)
    ensures
        types_view(r@) == types_view(v@),
    decreases v, 0nat,
{
    let mut r: Vec<Type> = Vec::new();
    let mut i: usize = 0;
    while i < v.len()
        invariant
            i <= v.len(),
            types_view(r@) == types_view(v@.take(i as int)),
        decreases v.len() - i,
    {
        let c = clone_type(&v[i]);
        proof {
            lemma_types_view_push(r@, c);
            assert(v@.take(i + 1) =~= v@.take(i as int).push(v@[i as int]));
            lemma_types_view_push(v@.take(i as int), v@[i as int]);
        }
        r.push(c);
        i = i + 1;
    }
    proof {
        assert(v@.take(v.len() as int) =~= v@);
    }
    r
}

fn clone_fields(v: &Vec<(String, Type)>) -> (r: Vec<(String, Type)>)
    ensures
        fields_view(r@) == fields_view(v@),
    decreases v, 0nat,
{
    let mut r: Vec<(String, Type)> = Vec::new();
    let mut i: usize = 0;
    while i < v.len()
        invariant
            i <= v.len(),
            fields_view(r@) == fields_view(v@.take(i as int)),
        decreases v.len() - i,
    {
        let c = (v[i].0.clone(), clone_type(&v[i].1));
        proof {
            lemma_fields_view_push(r@, c);
            assert(v@.take(i + 1) =~= v@.take(i as int).push(v@[i as int]));
            lemma_fields_view_push(v@.take(i as int), v@[i as int]);
        }
        r.push(c);
        i = i + 1;
    }
    proof {
        assert(v@.take(v.len() as int) =~= v@);
    }
    r
}

/// A copy of `t` with the same view.
pub fn clone_type(t: &Type) -> (r: Type)
    ensures
        r@ == t@,
    decreases t, 1nat,
{
    match t {
        Type::Concrete(n) => Type::Concrete(n.clone()),
        Type::Variable(n) => Type::Variable(n.clone()),
        Type::Object(n, ts) => Type::Object(n.clone(), clone_types(ts)),
        Type::Tuple(ts) => Type::Tuple(clone_types(ts)),
        Type::Record(fs) => Type::Record(clone_fields(fs)),
        Type::Function(args, ret, abi) => Type::Function(clone_types(args), Box::new(clone_type(ret)), *abi),
        Type::Ref(inner) => Type::Ref(Box::new(clone_type(inner))),
        Type::Ambiguous(ts) => Type::Ambiguous(clone_types(ts)),
    }
}

impl Clone for Type {
    fn clone(&self) -> (r: Self)
        ensures
            r@ == self@,
    {
        clone_type(self)
    }
}

} // verus!
