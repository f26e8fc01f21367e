//! The raw and resolved type-expression tree: path types whose segments may
//! carry generic arguments, references, raw pointers, and an opaque
//! pass-through shape for everything the converter leaves untouched.
use vstd::prelude::*;

verus! {

/// One segment of a path type: its identifier and the generic arguments
/// attached to it (only ever legal on the final segment).
#[derive(Debug)]
pub struct PathSeg {
    pub name: String,
    pub args: Vec<TypeExpr>,
}

/// A type expression as the upstream scanner surfaces it and as the
/// converter returns it.
#[derive(Debug)]
pub enum TypeExpr {
    /// A (possibly generic) named path; a leading `root` segment marks the
    /// path as already fully qualified from the global root.
    Path(Vec<PathSeg>),
    /// A reference, mutable or not, to a referent.
    Reference(bool, Box<TypeExpr>),
    /// A raw pointer, mutable or not, to a pointee.
    Pointer(bool, Box<TypeExpr>),
    /// Any other shape; passed through conversion unmodified.
    Opaque,
}

/// Mathematical image of a [`PathSeg`].
pub ghost struct PathSegV {
    pub name: Seq<char>,
    pub args: Seq<TypeExprV>,
}

/// Mathematical image of a [`TypeExpr`].
pub ghost enum TypeExprV {
    Path(Seq<PathSegV>),
    Reference(bool, Box<TypeExprV>),
    Pointer(bool, Box<TypeExprV>),
    Opaque,
}

pub open spec fn type_view(t: TypeExpr) -> TypeExprV
    decreases t,
{
    match t {
        TypeExpr::Path(segs) => TypeExprV::Path(segs_view(segs@)),
        TypeExpr::Reference(m, inner) => TypeExprV::Reference(m, Box::new(type_view(*inner))),
        TypeExpr::Pointer(m, inner) => TypeExprV::Pointer(m, Box::new(type_view(*inner))),
        TypeExpr::Opaque => TypeExprV::Opaque,
    }
}

pub open spec fn seg_view(s: PathSeg) -> PathSegV
    decreases s,
{
    PathSegV { name: s.name@, args: args_view(s.args@) }
}

pub open spec fn segs_view(s: Seq<PathSeg>) -> Seq<PathSegV>
    decreases s,
{
    if s.len() == 0 {
        Seq::empty()
    } else {
        segs_view(s.drop_last()).push(seg_view(s.last()))
    }
}

pub open spec fn args_view(s: Seq<TypeExpr>) -> Seq<TypeExprV>
    decreases s,
{
    if s.len() == 0 {
        Seq::empty()
    } else {
        args_view(s.drop_last()).push(type_view(s.last()))
    }
}

impl View for TypeExpr {
    type V = TypeExprV;

    open spec fn view(&self) -> TypeExprV {
        type_view(*self)
    }
}

impl View for PathSeg {
    type V = PathSegV;

    open spec fn view(&self) -> PathSegV {
        seg_view(*self)
    }
}

pub broadcast proof fn lemma_segs_view_index(s: Seq<PathSeg>, i: int)
    requires
        0 <= i < s.len(),
    ensures
        (#[trigger] segs_view(s)[i]) == seg_view(s[i]),
        segs_view(s).len() == s.len(),
    decreases s.len(),
{
    lemma_segs_view_len(s);
    if i < s.len() - 1 {
        lemma_segs_view_index(s.drop_last(), i);
    }
}

pub broadcast proof fn lemma_segs_view_len(s: Seq<PathSeg>)
    ensures
        (#[trigger] segs_view(s)).len() == s.len(),
    decreases s.len(),
{
    if s.len() > 0 {
        lemma_segs_view_len(s.drop_last());
    }
}

pub broadcast proof fn lemma_args_view_index(s: Seq<TypeExpr>, i: int)
    requires
        0 <= i < s.len(),
    ensures
        (#[trigger] args_view(s)[i]) == type_view(s[i]),
        args_view(s).len() == s.len(),
    decreases s.len(),
{
    lemma_args_view_len(s);
    if i < s.len() - 1 {
        lemma_args_view_index(s.drop_last(), i);
    }
}

pub broadcast proof fn lemma_args_view_len(s: Seq<TypeExpr>)
    ensures
        (#[trigger] args_view(s)).len() == s.len(),
    decreases s.len(),
{
    if s.len() > 0 {
        lemma_args_view_len(s.drop_last());
    }
}

// ----- well-formedness -----

/// A type expression the upstream scanner can actually produce: every path
/// in it has at least one segment.
pub open spec fn type_wf(t: TypeExprV) -> bool
    decreases t,
{
    match t {
        TypeExprV::Path(segs) => segs.len() > 0 && segs_wf(segs),
        TypeExprV::Reference(_, inner) => type_wf(*inner),
        TypeExprV::Pointer(_, inner) => type_wf(*inner),
        TypeExprV::Opaque => true,
    }
}

pub open spec fn segs_wf(segs: Seq<PathSegV>) -> bool
    decreases segs,
{
    if segs.len() == 0 {
        true
    } else {
        args_wf(segs.last().args) && segs_wf(segs.drop_last())
    }
}

pub open spec fn args_wf(args: Seq<TypeExprV>) -> bool
    decreases args,
{
    if args.len() == 0 {
        true
    } else {
        type_wf(args.last()) && args_wf(args.drop_last())
    }
}

pub broadcast proof fn lemma_segs_wf_index(segs: Seq<PathSegV>, i: int)
    requires
        0 <= i < segs.len(),
        segs_wf(segs),
    ensures
        args_wf((#[trigger] segs[i]).args),
    decreases segs.len(),
{
    if i < segs.len() - 1 {
        lemma_segs_wf_index(segs.drop_last(), i);
    }
}

pub broadcast proof fn lemma_args_wf_index(args: Seq<TypeExprV>, i: int)
    requires
        0 <= i < args.len(),
        args_wf(args),
    ensures
        type_wf(#[trigger] args[i]),
    decreases args.len(),
{
    if i < args.len() - 1 {
        lemma_args_wf_index(args.drop_last(), i);
    }
}

/// The names of a path's segments, in order.
pub open spec fn seg_names(segs: Seq<PathSegV>) -> Seq<Seq<char>> {
    segs.map_values(|s: PathSegV| s.name)
}

/// The canonical name denoted by a path: its segment names, with the
/// absolute-path marker dropped when present.
pub open spec fn canonical_of(segs: Seq<PathSegV>) -> Seq<Seq<char>> {
    if segs.len() > 0 && segs[0].name == "root"@ {
        seg_names(segs.drop_first())
    } else {
        seg_names(segs)
    }
}

} // verus!
