//! Typedef/namespace type conversion: rewrites a raw, upstream-flattened
//! type expression into a form valid in the binding layer, given the
//! namespace the usage occurred in. Bare names not yet discovered are
//! qualified heuristically with the current namespace; simple typedef chains
//! are followed to their end; well-known library types are substituted by
//! their binding-layer equivalents; raw pointers become references; and the
//! borrowed-string marker becomes a borrowed string slice.
use vstd::prelude::*;

use crate::errors::{ConvertError, ErrorV};
use crate::known::{
    is_known_name, is_known_type, known_substitute_name, known_type_substitute, name_matches2,
    str_marker_name,
};
use crate::names::{join_seqs, Namespace, TypeName};
use crate::overload::str_eq;
use crate::typeexpr::{
    args_view, args_wf, canonical_of, lemma_args_view_index, lemma_args_view_len,
    lemma_args_wf_index, lemma_segs_view_index, lemma_segs_view_len, lemma_segs_wf_index,
    seg_names, seg_view, segs_view, segs_wf, type_view, type_wf, PathSeg, PathSegV, TypeExpr,
    TypeExprV,
};

verus! {

// ----- typedef targets -----

/// What a typedef resolves to: a simple alias of another named type, or a
/// shape (generic, function pointer, ...) that must not be substituted.
pub enum TypedefTarget {
    SimpleAlias(TypeName),
    Complex,
}

/// Mathematical image of a [`TypedefTarget`].
pub ghost enum TargetV {
    SimpleAlias(Seq<Seq<char>>),
    Complex,
}

impl View for TypedefTarget {
    type V = TargetV;

    open spec fn view(&self) -> TargetV {
        match self {
            TypedefTarget::SimpleAlias(t) => TargetV::SimpleAlias(t@),
            TypedefTarget::Complex => TargetV::Complex,
        }
    }
}

/// Every segment of the path carries an empty generic-argument list.
pub open spec fn all_args_empty(segs: Seq<PathSegV>) -> bool {
    forall|i: int| 0 <= i < segs.len() ==> (#[trigger] segs[i]).args.len() == 0
}

/// A typedef target is a simple alias only when it is a bare named path;
/// any other shape is complex and is never silently substituted.
pub open spec fn analyze_spec(t: TypeExprV) -> TargetV {
    match t {
        TypeExprV::Path(segs) => if segs.len() > 0 && all_args_empty(segs) {
            TargetV::SimpleAlias(canonical_of(segs))
        } else {
            TargetV::Complex
        },
        _ => TargetV::Complex,
    }
}

/// Classifies a raw typedef target.
#[verifier::loop_isolation(false)]
pub fn analyze_typedef_target(ty: &TypeExpr) -> (r: TypedefTarget)
    ensures
        r@ == analyze_spec(type_view(*ty)),
{
    match ty {
        TypeExpr::Path(segs) => {
            let n = segs.len();
            if n == 0 {
                proof {
                    crate::typeexpr::lemma_segs_view_len(segs@);
                }
                return TypedefTarget::Complex;
            }
            proof {
                lemma_segs_view_len(segs@);
            }
            let mut i: usize = 0;
            while i < n
                invariant
                    0 <= i <= n,
                    n == segs@.len(),
                    segs_view(segs@).len() == n,
                    forall|j: int| 0 <= j < i ==> (#[trigger] segs_view(segs@)[j]).args.len() == 0,
                decreases n - i,
            {
                proof {
                    lemma_segs_view_index(segs@, i as int);
                    lemma_args_view_len(segs@[i as int].args@);
                }
                if segs[i].args.len() > 0 {
                    proof {
                        assert(segs_view(segs@)[i as int].args.len() > 0);
                        assert(!all_args_empty(segs_view(segs@)));
                        assert(type_view(*ty) == TypeExprV::Path(segs_view(segs@)));
                    }
                    return TypedefTarget::Complex;
                }
                i = i + 1;
            }
            proof {
                lemma_segs_view_len(segs@);
            }
            TypedefTarget::SimpleAlias(canonical_name(segs))
        },
        _ => TypedefTarget::Complex,
    }
}

/// The canonical name of a path: its segment names with the absolute-path
/// marker dropped.
pub(crate) fn canonical_name(segs: &Vec<PathSeg>) -> (r: TypeName)
    requires
        segs@.len() > 0,
    ensures
        r@ == canonical_of(segs_view(segs@)),
{
    proof {
        lemma_segs_view_index(segs@, 0);
    }
    let start: usize = if str_eq(segs[0].name.as_str(), "root") {
        1
    } else {
        0
    };
    let n = segs.len();
    let mut names: Vec<String> = Vec::new();
    let mut i: usize = start;
    while i < n
        invariant
            start <= i <= n,
            n == segs@.len(),
            names@.len() == i - start,
            forall|j: int|
                start <= j < i ==> names.deep_view()[j - start] == (
                #[trigger] segs_view(segs@)[j]).name,
        decreases n - i,
    {
        proof {
            lemma_segs_view_index(segs@, i as int);
        }
        names.push(segs[i].name.clone());
        i = i + 1;
    }
    let r = TypeName::new(names);
    proof {
        let sv = segs_view(segs@);
        lemma_segs_view_len(segs@);
        if start == 1 {
            assert(r@ =~= seg_names(sv.drop_first()));
        } else {
            assert(r@ =~= seg_names(sv));
        }
    }
    r
}

// ----- the converter state -----

/// Mathematical state of a [`TypeConverter`]: the canonical names of the
/// types discovered so far, and the typedef table in insertion order (a
/// later entry for the same name shadows an earlier one).
pub ghost struct ConverterV {
    pub found: Seq<Seq<Seq<char>>>,
    pub typedefs: Seq<(Seq<Seq<char>>, TargetV)>,
}

pub open spec fn tds_view(s: Seq<(TypeName, TypedefTarget)>) -> Seq<(Seq<Seq<char>>, TargetV)>
    decreases s,
{
    if s.len() == 0 {
        Seq::empty()
    } else {
        tds_view(s.drop_last()).push((s.last().0@, s.last().1@))
    }
}

pub broadcast proof fn lemma_tds_view_index(s: Seq<(TypeName, TypedefTarget)>, i: int)
    requires
        0 <= i < s.len(),
    ensures
        (#[trigger] tds_view(s)[i]) == (s[i].0@, s[i].1@),
        tds_view(s).len() == s.len(),
    decreases s.len(),
{
    lemma_tds_view_len(s);
    if i < s.len() - 1 {
        lemma_tds_view_index(s.drop_last(), i);
    }
}

pub broadcast proof fn lemma_tds_view_len(s: Seq<(TypeName, TypedefTarget)>)
    ensures
        (#[trigger] tds_view(s)).len() == s.len(),
    decreases s.len(),
{
    if s.len() > 0 {
        lemma_tds_view_len(s.drop_last());
    }
}

/// The typedef entry for `k`: the latest one inserted, if any.
pub open spec fn lookup_td(tds: Seq<(Seq<Seq<char>>, TargetV)>, k: Seq<Seq<char>>) -> Option<
    TargetV,
>
    decreases tds.len(),
{
    if tds.len() == 0 {
        None
    } else if tds.last().0 == k {
        Some(tds.last().1)
    } else {
        lookup_td(tds.drop_last(), k)
    }
}

/// What following the typedef chain from `tn` yields.
pub ghost enum ResolutionV {
    /// `tn` is not a typedef at all.
    NotATypedef,
    /// `tn` is a chain of simple aliases ending at this name.
    ResolvesTo(Seq<Seq<char>>),
    /// The chain runs into this name, whose target is complex.
    ComplexAt(Seq<Seq<char>>),
    /// The chain did not end within the given fuel (a cyclic table).
    OutOfFuel,
}

pub open spec fn resolve_rec(
    tds: Seq<(Seq<Seq<char>>, TargetV)>,
    tn: Seq<Seq<char>>,
    fuel: nat,
) -> ResolutionV
    decreases fuel,
{
    match lookup_td(tds, tn) {
        None => ResolutionV::NotATypedef,
        Some(TargetV::Complex) => ResolutionV::ComplexAt(tn),
        Some(TargetV::SimpleAlias(t)) => if fuel == 0 {
            ResolutionV::OutOfFuel
        } else {
            match resolve_rec(tds, t, (fuel - 1) as nat) {
                ResolutionV::NotATypedef => ResolutionV::ResolvesTo(t),
                ResolutionV::ResolvesTo(u) => ResolutionV::ResolvesTo(u),
                ResolutionV::ComplexAt(n) => ResolutionV::ComplexAt(n),
                ResolutionV::OutOfFuel => ResolutionV::OutOfFuel,
            }
        },
    }
}

/// Following the chain from `tn`, with fuel that an acyclic table can never
/// exhaust: one more than the number of entries.
pub open spec fn resolve_name(tds: Seq<(Seq<Seq<char>>, TargetV)>, tn: Seq<Seq<char>>) -> ResolutionV {
    resolve_rec(tds, tn, (tds.len() + 1) as nat)
}

/// No typedef chain in the table is cyclic. Native headers cannot declare a
/// cyclic alias (each alias must name an already-declared type), so an
/// upstream scanner of real headers always hands the converter an acyclic
/// table.
pub open spec fn acyclic(tds: Seq<(Seq<Seq<char>>, TargetV)>) -> bool {
    forall|tn: Seq<Seq<char>>|
        (#[trigger] resolve_rec(tds, tn, (tds.len() + 1) as nat)) != ResolutionV::OutOfFuel
}

/// Composition of a partial chain walk with the alias found so far.
pub open spec fn chain_continue(r: ResolutionV, base: Option<Seq<Seq<char>>>) -> ResolutionV {
    match r {
        ResolutionV::NotATypedef => match base {
            None => ResolutionV::NotATypedef,
            Some(u) => ResolutionV::ResolvesTo(u),
        },
        other => other,
    }
}

// ----- conversion, specified -----

/// A path whose segments are the given names, with no generic arguments.
pub open spec fn plain_segs(name: Seq<Seq<char>>) -> Seq<PathSegV> {
    name.map_values(|n: Seq<char>| PathSegV { name: n, args: Seq::empty() })
}

/// The given canonical name as an absolute path.
pub open spec fn rooted_segs(name: Seq<Seq<char>>) -> Seq<PathSegV> {
    seq![PathSegV { name: "root"@, args: Seq::empty() }] + plain_segs(name)
}

/// Some segment before the last carries generic arguments: a shape the
/// upstream scanner never produces.
pub open spec fn has_nonfinal_args(segs: Seq<PathSegV>) -> bool {
    exists|i: int| 0 <= i < segs.len() - 1 && (#[trigger] segs[i]).args.len() > 0
}

/// Qualification: an absolute path, an already-discovered name, and a known
/// built-in stay as they are; any other bare name is assumed to live in the
/// namespace where it was used.
pub open spec fn qualify(cv: ConverterV, segs: Seq<PathSegV>, ns: Seq<Seq<char>>) -> Seq<PathSegV> {
    if segs[0].name == "root"@ {
        segs
    } else if cv.found.contains(seg_names(segs)) || is_known_name(seg_names(segs)) {
        segs
    } else {
        seq![PathSegV { name: "root"@, args: Seq::empty() }] + plain_segs(ns) + segs
    }
}

/// The path with its final segment's arguments replaced.
pub open spec fn with_final_args(path: Seq<PathSegV>, cargs: Seq<TypeExprV>) -> Seq<PathSegV> {
    path.update(path.len() - 1, PathSegV { name: path.last().name, args: cargs })
}

/// Built-in substitution, which discards any arguments the substituted
/// segment carried.
pub open spec fn substitute(path: Seq<PathSegV>) -> Seq<PathSegV> {
    match known_substitute_name(canonical_of(path)) {
        Some(s) => plain_segs(s),
        None => path,
    }
}

/// Conversion of a generic-argument list, left to right, first error wins.
pub open spec fn convert_args_spec(
    cv: ConverterV,
    args: Seq<TypeExprV>,
    ns: Seq<Seq<char>>,
) -> Result<Seq<TypeExprV>, ErrorV>
    decreases args,
{
    if args.len() == 0 {
        Ok(Seq::empty())
    } else {
        match convert_args_spec(cv, args.drop_last(), ns) {
            Err(e) => Err(e),
            Ok(front) => match convert_spec(cv, args.last(), ns) {
                Err(e) => Err(e),
                Ok(u) => Ok(front.push(u)),
            },
        }
    }
}

/// Conversion of a path type: reject non-final generic arguments, convert
/// the final segment's arguments, qualify the path, follow the typedef
/// chain, apply built-in substitution, and reattach the converted arguments.
pub open spec fn convert_path_spec(
    cv: ConverterV,
    segs: Seq<PathSegV>,
    ns: Seq<Seq<char>>,
) -> Result<Seq<PathSegV>, ErrorV>
    decreases segs,
{
    if segs.len() == 0 {
        arbitrary()
    } else if has_nonfinal_args(segs) {
        Err(ErrorV::GenericArgsOnNonFinalSegment)
    } else {
        match convert_args_spec(cv, segs[segs.len() - 1].args, ns) {
            Err(e) => Err(e),
            Ok(cargs) => {
                let q = qualify(cv, segs, ns);
                match resolve_name(cv.typedefs, canonical_of(q)) {
                    ResolutionV::NotATypedef => Ok(with_final_args(substitute(q), cargs)),
                    ResolutionV::ResolvesTo(u) => Ok(
                        with_final_args(substitute(rooted_segs(u)), cargs),
                    ),
                    ResolutionV::ComplexAt(n) => Err(
                        ErrorV::ComplexTypedefTarget(join_seqs(n, "::"@)),
                    ),
                    ResolutionV::OutOfFuel => arbitrary(),
                }
            },
        }
    }
}

/// Conversion of a type expression: paths are resolved as above (and the
/// borrowed-string marker becomes a borrowed string slice), references keep
/// their mutability around the converted referent, raw pointers become
/// references of the same mutability, and every other shape passes through.
pub open spec fn convert_spec(cv: ConverterV, t: TypeExprV, ns: Seq<Seq<char>>) -> Result<
    TypeExprV,
    ErrorV,
>
    decreases t,
{
    match t {
        TypeExprV::Path(segs) => match convert_path_spec(cv, segs, ns) {
            Ok(newsegs) => if str_marker_name(canonical_of(newsegs)) {
                Ok(
                    TypeExprV::Reference(
                        false,
                        Box::new(TypeExprV::Path(plain_segs(seq!["str"@]))),
                    ),
                )
            } else {
                Ok(TypeExprV::Path(newsegs))
            },
            Err(e) => Err(e),
        },
        TypeExprV::Reference(m, inner) => match convert_spec(cv, *inner, ns) {
            Ok(u) => Ok(TypeExprV::Reference(m, Box::new(u))),
            Err(e) => Err(e),
        },
        TypeExprV::Pointer(m, inner) => match convert_spec(cv, *inner, ns) {
            Ok(u) => Ok(TypeExprV::Reference(m, Box::new(u))),
            Err(e) => Err(e),
        },
        TypeExprV::Opaque => Ok(TypeExprV::Opaque),
    }
}

/// An error in a prefix of an argument list is the error of the whole list.
proof fn lemma_args_err_persists(cv: ConverterV, args: Seq<TypeExprV>, ns: Seq<Seq<char>>, l: int)
    requires
        0 <= l <= args.len(),
        convert_args_spec(cv, args.take(l), ns) is Err,
    ensures
        convert_args_spec(cv, args, ns) == convert_args_spec(cv, args.take(l), ns),
    decreases args.len() - l,
{
    if l == args.len() {
        assert(args.take(l) =~= args);
    } else {
        assert(args.take(l + 1).drop_last() =~= args.take(l));
        lemma_args_err_persists(cv, args, ns, l + 1);
    }
}

// ----- the converter -----

/// Accumulated knowledge for type resolution over one generation run: the
/// types positively discovered so far and the typedef table.
pub struct TypeConverter {
    types_found: Vec<TypeName>,
    typedefs: Vec<(TypeName, TypedefTarget)>,
}

impl View for TypeConverter {
    type V = ConverterV;

    closed spec fn view(&self) -> ConverterV {
        ConverterV { found: self.types_found.deep_view(), typedefs: tds_view(self.typedefs@) }
    }
}

impl TypeConverter {
    /// A fresh converter that knows of no types and no typedefs.
    pub fn new() -> (r: Self)
        ensures
            r@ == (ConverterV { found: Seq::empty(), typedefs: Seq::empty() }),
            acyclic(r@.typedefs),
    {
        let r = TypeConverter { types_found: Vec::new(), typedefs: Vec::new() };
        proof {
            assert(r@.found =~= Seq::<Seq<Seq<char>>>::empty());
            assert(r@ =~= (ConverterV { found: Seq::empty(), typedefs: Seq::empty() }));
            assert forall|tn: Seq<Seq<char>>|
                (#[trigger] resolve_rec(r@.typedefs, tn, (r@.typedefs.len() + 1) as nat))
                    != ResolutionV::OutOfFuel by {
                assert(lookup_td(r@.typedefs, tn) is None);
            }
        }
        r
    }

    /// Records that `ty` was positively discovered as a declared type; later
    /// bare usages of it will not be re-qualified.
    pub fn push(&mut self, ty: TypeName)
        ensures
            final(self)@.found == old(self)@.found.push(ty@),
            final(self)@.typedefs == old(self)@.typedefs,
    {
        let ghost prev = self@.found;
        self.types_found.push(ty);
        proof {
            assert(self@.found =~= prev.push(ty@));
        }
    }

    /// Analyzes and records a typedef; a later entry for the same name
    /// shadows an earlier one, as a redefinition would.
    pub fn insert_typedef(&mut self, id: TypeName, ty: &TypeExpr)
        ensures
            final(self)@.typedefs == old(self)@.typedefs.push((id@, analyze_spec(type_view(*ty)))),
            final(self)@.found == old(self)@.found,
    {
        let target = analyze_typedef_target(ty);
        let ghost idv = id@;
        let ghost tv = target@;
        let ghost prev = self.typedefs@;
        self.typedefs.push((id, target));
        proof {
            assert(self.typedefs@.drop_last() =~= prev);
            assert(self.typedefs@.last() == (self.typedefs@[prev.len() as int]));
        }
    }

    /// Whether this canonical name was already pushed.
    fn contains_type(&self, tn: &TypeName) -> (r: bool)
        ensures
            r == self@.found.contains(tn@),
    {
        let n = self.types_found.len();
        let mut i: usize = 0;
        while i < n
            invariant
                0 <= i <= n,
                n == self.types_found@.len(),
                forall|j: int| 0 <= j < i ==> self@.found[j] != tn@,
            decreases n - i,
        {
            if self.types_found[i] == *tn {
                assert(self@.found[i as int] == tn@);
                return true;
            }
            i = i + 1;
        }
        assert(!self@.found.contains(tn@));
        false
    }

    /// The index of the typedef entry governing `tn`, if any (the latest).
    fn lookup_typedef(&self, tn: &TypeName) -> (r: Option<usize>)
        ensures
            match r {
                Some(i) => 0 <= i < self.typedefs@.len() && lookup_td(self@.typedefs, tn@) == Some(
                    self.typedefs@[i as int].1@,
                ),
                None => lookup_td(self@.typedefs, tn@) is None,
            },
    {
        let ghost tds = self@.typedefs;
        let n = self.typedefs.len();
        let mut i = n;
        proof {
            lemma_tds_view_len(self.typedefs@);
            assert(tds.take(n as int) =~= tds);
        }
        while i > 0
            invariant
                0 <= i <= n,
                n == self.typedefs@.len(),
                tds == self@.typedefs,
                tds.len() == n,
                lookup_td(tds, tn@) == lookup_td(tds.take(i as int), tn@),
            decreases i,
        {
            proof {
                lemma_tds_view_index(self.typedefs@, i - 1);
            }
            if self.typedefs[i - 1].0 == *tn {
                proof {
                    assert(tds.take(i as int).last() == tds[i - 1]);
                }
                return Some(i - 1);
            }
            proof {
                assert(tds.take(i as int).last() == tds[i - 1]);
                assert(tds.take(i as int).drop_last() =~= tds.take(i - 1));
            }
            i = i - 1;
        }
        proof {
            assert(tds.take(0) =~= Seq::<(Seq<Seq<char>>, TargetV)>::empty());
        }
        None
    }

    /// Follows the typedef chain from `tn`: `Ok(None)` when `tn` is no
    /// typedef, `Ok(Some(end))` for a chain of simple aliases, and the
    /// recoverable error naming the offending entry when the chain runs into
    /// a complex target.
    pub fn resolve_typedef(&self, tn: &TypeName) -> (r: Result<Option<TypeName>, ConvertError>)
        requires
            acyclic(self@.typedefs),
        ensures
            match r {
                Ok(None) => resolve_name(self@.typedefs, tn@) is NotATypedef,
                Ok(Some(t)) => resolve_name(self@.typedefs, tn@) == ResolutionV::ResolvesTo(t@),
                Err(e) => resolve_name(self@.typedefs, tn@) matches ResolutionV::ComplexAt(n)
                    && e@ == ErrorV::ComplexTypedefTarget(join_seqs(n, "::"@)),
            },
    {
        let ghost tds = self@.typedefs;
        let mut cur: TypeName = tn.clone();
        let mut last: Option<TypeName> = None;
        let ghost mut fuel: nat = (tds.len() + 1) as nat;
        loop
            invariant
                tds == self@.typedefs,
                acyclic(tds),
                resolve_rec(tds, cur@, fuel) != ResolutionV::OutOfFuel,
                chain_continue(
                    resolve_rec(tds, cur@, fuel),
                    match last {
                        None => None,
                        Some(t) => Some(t@),
                    },
                ) == resolve_name(tds, tn@),
            decreases fuel,
        {
            let lk = self.lookup_typedef(&cur);
            match lk {
                None => {
                    return Ok(last);
                },
                Some(idx) => {
                    match &self.typedefs[idx].1 {
                        TypedefTarget::Complex => {
                            return Err(ConvertError::ComplexTypedefTarget(cur.to_cpp_name()));
                        },
                        TypedefTarget::SimpleAlias(t) => {
                            let t2 = t.clone();
                            proof {
                                assert(fuel > 0);
                                fuel = (fuel - 1) as nat;
                            }
                            last = Some(t2.clone());
                            cur = t2;
                        },
                    }
                },
            }
        }
    }
}

/// The name sequence with a leading absolute-path marker dropped.
pub open spec fn strip_root(names: Seq<Seq<char>>) -> Seq<Seq<char>> {
    if names.len() > 0 && names[0] == "root"@ {
        names.drop_first()
    } else {
        names
    }
}

/// The canonical name spelled by a list of segment names.
#[verifier::loop_isolation(false)]
fn canonical_from_names(names: &Vec<String>) -> (r: TypeName)
    requires
        names@.len() > 0,
    ensures
        r@ == strip_root(names.deep_view()),
{
    let start: usize = if str_eq(names[0].as_str(), "root") {
        1
    } else {
        0
    };
    let k = names.len();
    let mut v: Vec<String> = Vec::new();
    let mut i: usize = start;
    while i < k
        invariant
            start <= i <= k,
            v.deep_view() =~= names.deep_view().subrange(start as int, i as int),
        decreases k - i,
    {
        v.push(names[i].clone());
        proof {
            assert(v.deep_view() =~= names.deep_view().subrange(start as int, i + 1));
        }
        i = i + 1;
    }
    let r = TypeName::new(v);
    proof {
        if start == 1 {
            assert(r@ =~= names.deep_view().drop_first());
        } else {
            assert(r@ =~= names.deep_view());
        }
    }
    r
}

impl TypeConverter {
    /// Converts one generic-argument list, left to right; the first failing
    /// argument's error is the list's error.
    #[verifier::loop_isolation(false)]
    fn convert_arg_list(&self, args: &Vec<TypeExpr>, ns: &Namespace) -> (r: Result<
        Vec<TypeExpr>,
        ConvertError,
    >)
        requires
            args_wf(args_view(args@)),
            acyclic(self@.typedefs),
        ensures
            match r {
                Ok(out) => convert_args_spec(self@, args_view(args@), ns@) == Ok::<_, ErrorV>(
                    args_view(out@),
                ),
                Err(e) => convert_args_spec(self@, args_view(args@), ns@) == Err::<
                    Seq<TypeExprV>,
                    _,
                >(e@),
            },
        decreases *args,
    {
        let ghost av = args_view(args@);
        proof {
            lemma_args_view_len(args@);
        }
        let m = args.len();
        let mut out: Vec<TypeExpr> = Vec::new();
        let mut j: usize = 0;
        while j < m
            invariant
                0 <= j <= m,
                convert_args_spec(self@, av.take(j as int), ns@) == Ok::<Seq<TypeExprV>, ErrorV>(
                    args_view(out@),
                ),
            decreases m - j,
        {
            proof {
                lemma_args_view_index(args@, j as int);
                lemma_args_wf_index(av, j as int);
                assert(decreases_to!(*args => args@[j as int]));
            }
            let conv = self.convert_type(&args[j], ns);
            match conv {
                Ok(u) => {
                    let ghost prevseq = out@;
                    let ghost prev = args_view(out@);
                    let ghost uv = type_view(u);
                    out.push(u);
                    proof {
                        assert(out@.drop_last() =~= prevseq);
                        assert(type_view(out@.last()) == uv);
                        assert(args_view(out@) == prev.push(uv));
                        assert(av.take(j + 1).drop_last() =~= av.take(j as int));
                        assert(av.take(j + 1).last() == av[j as int]);
                    }
                    j = j + 1;
                },
                Err(e) => {
                    proof {
                        assert(av.take(j + 1).drop_last() =~= av.take(j as int));
                        assert(av.take(j + 1).last() == av[j as int]);
                        assert(convert_args_spec(self@, av.take(j + 1), ns@) == Err::<
                            Seq<TypeExprV>,
                            ErrorV,
                        >(e@));
                        lemma_args_err_persists(self@, av, ns@, j + 1);
                    }
                    return Err(e);
                },
            }
        }
        proof {
            assert(av.take(m as int) =~= av);
        }
        Ok(out)
    }

    /// Converts a path type: rejects non-final generic arguments, converts
    /// the final segment's arguments, qualifies the path, follows the
    /// typedef chain, substitutes well-known library types, and reattaches
    /// the converted arguments.
    #[verifier::loop_isolation(false)]
    #[verifier::rlimit(60)]
    pub fn convert_type_path(&self, segs: &Vec<PathSeg>, ns: &Namespace) -> (r: Result<
        Vec<PathSeg>,
        ConvertError,
    >)
        requires
            segs@.len() > 0,
            segs_wf(segs_view(segs@)),
            acyclic(self@.typedefs),
        ensures
            match r {
                Ok(out) => convert_path_spec(self@, segs_view(segs@), ns@) == Ok::<_, ErrorV>(
                    segs_view(out@),
                ) && out@.len() > 0,
                Err(e) => convert_path_spec(self@, segs_view(segs@), ns@) == Err::<
                    Seq<PathSegV>,
                    _,
                >(e@),
            },
        decreases *segs,
    {
        let ghost sv = segs_view(segs@);
        proof {
            lemma_segs_view_len(segs@);
        }
        let n = segs.len();
        // reject generic arguments on a non-final segment
        let mut i: usize = 0;
        while i < n - 1
            invariant
                0 <= i <= n - 1,
                forall|j: int| 0 <= j < i ==> (#[trigger] sv[j]).args.len() == 0,
            decreases n - 1 - i,
        {
            proof {
                lemma_segs_view_index(segs@, i as int);
                lemma_args_view_len(segs@[i as int].args@);
            }
            if segs[i].args.len() > 0 {
                proof {
                    assert(sv[i as int].args.len() > 0);
                    assert(has_nonfinal_args(sv));
                }
                return Err(ConvertError::GenericArgsOnNonFinalSegment);
            }
            i = i + 1;
        }
        proof {
            assert(!has_nonfinal_args(sv));
        }
        // convert the final segment's arguments
        proof {
            lemma_segs_view_index(segs@, n - 1);
            lemma_segs_wf_index(sv, n - 1);
            assert(decreases_to!(*segs => segs@[n - 1].args));
        }
        let cargs = match self.convert_arg_list(&segs[n - 1].args, ns) {
            Ok(c) => c,
            Err(e) => {
                return Err(e);
            },
        };
        let ghost cav = args_view(cargs@);
        proof {
            assert(sv[n - 1].args == args_view(segs@[n - 1].args@));
            assert(convert_args_spec(self@, sv[n - 1].args, ns@) == Ok::<Seq<TypeExprV>, ErrorV>(
                cav,
            ));
        }
        // qualify: compute the segment names of the qualified path
        proof {
            lemma_segs_view_index(segs@, 0);
        }
        let abs = str_eq(segs[0].name.as_str(), "root");
        let mut names: Vec<String> = Vec::new();
        if !abs {
            let bare = canonical_name(segs);
            proof {
                assert(bare@ =~= seg_names(sv));
            }
            let known = is_known_type(&bare);
            let found = self.contains_type(&bare);
            if !known && !found {
                names.push(String::from_str("root"));
                let k = ns.segments.len();
                let mut t: usize = 0;
                while t < k
                    invariant
                        0 <= t <= k,
                        names.deep_view() =~= seq!["root"@] + ns@.take(t as int),
                    decreases k - t,
                {
                    let ghost prevd = names.deep_view();
                    names.push(ns.segments[t].clone());
                    proof {
                        assert(names.deep_view() =~= prevd.push(ns@[t as int]));
                        assert(names.deep_view() =~= seq!["root"@] + ns@.take(t + 1));
                    }
                    t = t + 1;
                }
                proof {
                    assert(ns@.take(k as int) =~= ns@);
                }
            }
        }
        let ghost pre = names.deep_view();
        let ghost q = qualify(self@, sv, ns@);
        let base_len = names.len();
        let mut i2: usize = 0;
        while i2 < n
            invariant
                0 <= i2 <= n,
                names.deep_view() =~= pre + seg_names(sv).take(i2 as int),
            decreases n - i2,
        {
            proof {
                lemma_segs_view_index(segs@, i2 as int);
            }
            let ghost prevd = names.deep_view();
            names.push(segs[i2].name.clone());
            proof {
                assert(names.deep_view() =~= prevd.push(sv[i2 as int].name));
                assert(names.deep_view() =~= pre + seg_names(sv).take(i2 + 1));
            }
            i2 = i2 + 1;
        }
        proof {
            assert(seg_names(sv).take(n as int) =~= seg_names(sv));
            assert(names.deep_view() =~= seg_names(q));
        }
        // canonical name of the qualified path, then the typedef chain
        let canon2 = canonical_from_names(&names);
        proof {
            assert(canon2@ == canonical_of(q)) by {
                if q[0].name == "root"@ {
                    assert(seg_names(q).drop_first() =~= seg_names(q.drop_first()));
                }
            };
        }
        let resolved = self.resolve_typedef(&canon2);
        let mut base_names: Vec<String>;
        let ghost base_path: Seq<PathSegV>;
        match resolved {
            Err(e) => {
                return Err(e);
            },
            Ok(None) => {
                base_names = names;
                proof {
                    base_path = q;
                }
            },
            Ok(Some(target)) => {
                base_names = Vec::new();
                base_names.push(String::from_str("root"));
                let k2 = target.segments.len();
                let mut t2: usize = 0;
                while t2 < k2
                    invariant
                        0 <= t2 <= k2,
                        base_names.deep_view() =~= seq!["root"@] + target@.take(t2 as int),
                    decreases k2 - t2,
                {
                    let ghost prevd = base_names.deep_view();
                    base_names.push(target.segments[t2].clone());
                    proof {
                        assert(base_names.deep_view() =~= prevd.push(target@[t2 as int]));
                        assert(base_names.deep_view() =~= seq!["root"@] + target@.take(t2 + 1));
                    }
                    t2 = t2 + 1;
                }
                proof {
                    base_path = rooted_segs(target@);
                    assert(target@.take(k2 as int) =~= target@);
                    assert(base_names.deep_view() =~= seg_names(base_path));
                }
            },
        }
        // the base path's names are base_names; all its argument lists are
        // empty but possibly the final one, which is replaced below anyway
        proof {
            assert(base_names.deep_view() =~= seg_names(base_path));
            assert(base_names@.len() > 0);
            assert forall|j: int| 0 <= j < base_path.len() - 1 implies (
            #[trigger] base_path[j]).args.len() == 0 by {
                if base_path == q && q == sv {
                    assert(sv[j].args.len() == 0);
                }
            }
        }
        // built-in substitution
        let canon3 = canonical_from_names(&base_names);
        proof {
            assert(canon3@ == canonical_of(base_path)) by {
                if base_path[0].name == "root"@ {
                    assert(seg_names(base_path).drop_first() =~= seg_names(
                        base_path.drop_first(),
                    ));
                }
            };
        }
        let ghost subst_path = substitute(base_path);
        match known_type_substitute(&canon3) {
            Some(s) => {
                base_names = s.segments;
                proof {
                    assert(base_names.deep_view() =~= seg_names(subst_path));
                }
            },
            None => {
                proof {
                    assert(subst_path == base_path);
                }
            },
        }
        proof {
            assert(base_names.deep_view() =~= seg_names(subst_path));
            assert forall|j: int| 0 <= j < subst_path.len() - 1 implies (
            #[trigger] subst_path[j]).args.len() == 0 by {}
        }
        // rebuild the path with the converted arguments on the final segment
        let bl = base_names.len();
        assert(bl > 0);
        let mut out: Vec<PathSeg> = Vec::new();
        let mut i3: usize = 0;
        while i3 < bl - 1
            invariant
                0 <= i3 <= bl - 1,
                segs_view(out@).len() == i3,
                out@.len() == i3,
                forall|j: int|
                    0 <= j < i3 ==> (#[trigger] segs_view(out@)[j]) == (PathSegV {
                        name: base_names.deep_view()[j],
                        args: Seq::empty(),
                    }),
            decreases bl - 1 - i3,
        {
            let seg = PathSeg { name: base_names[i3].clone(), args: Vec::new() };
            proof {
                assert(seg_view(seg) == (PathSegV {
                    name: base_names.deep_view()[i3 as int],
                    args: Seq::empty(),
                })) by {
                    assert(args_view(seg.args@) =~= Seq::<TypeExprV>::empty());
                };
            }
            let ghost prevseq = out@;
            let ghost prevout = segs_view(out@);
            out.push(seg);
            proof {
                assert(out@.drop_last() =~= prevseq);
                assert(segs_view(out@) == prevout.push(seg_view(out@.last())));
                assert forall|j: int|
                    0 <= j < i3 + 1 implies (#[trigger] segs_view(out@)[j]) == (PathSegV {
                        name: base_names.deep_view()[j],
                        args: Seq::empty(),
                    }) by {
                    if j < i3 {
                        assert(segs_view(out@)[j] == prevout[j]);
                    }
                }
            }
            i3 = i3 + 1;
        }
        let lastseg = PathSeg { name: base_names[bl - 1].clone(), args: cargs };
        proof {
            assert(seg_view(lastseg) == (PathSegV {
                name: base_names.deep_view()[bl - 1],
                args: cav,
            }));
        }
        let ghost prevseq = out@;
        let ghost prevout = segs_view(out@);
        out.push(lastseg);
        proof {
            assert(out@.drop_last() =~= prevseq);
            assert(segs_view(out@) == prevout.push(seg_view(out@.last())));
            let expect = with_final_args(subst_path, cav);
            assert(segs_view(out@) =~= expect) by {
                assert(seg_names(subst_path).len() == subst_path.len());
                assert(expect.len() == subst_path.len());
                assert(segs_view(out@).len() == bl == subst_path.len());
                assert forall|j: int| 0 <= j < bl implies segs_view(out@)[j] == expect[j] by {
                    if j < bl - 1 {
                        assert(expect[j] == subst_path[j]);
                        assert(subst_path[j].name == seg_names(subst_path)[j]);
                        assert(subst_path[j].args =~= Seq::<TypeExprV>::empty());
                    } else {
                        assert(expect[j] == (PathSegV {
                            name: subst_path.last().name,
                            args: cav,
                        }));
                        assert(subst_path.last().name == seg_names(subst_path)[j]);
                    }
                }
            };
            assert(convert_path_spec(self@, sv, ns@) == Ok::<Seq<PathSegV>, ErrorV>(expect));
        }
        Ok(out)
    }

    /// Converts a raw type expression found in namespace `ns` into its
    /// binding-layer form.
    #[verifier::loop_isolation(false)]
    pub fn convert_type(&self, ty: &TypeExpr, ns: &Namespace) -> (r: Result<TypeExpr, ConvertError>)
        requires
            type_wf(type_view(*ty)),
            acyclic(self@.typedefs),
        ensures
            match r {
                Ok(out) => convert_spec(self@, type_view(*ty), ns@) == Ok::<_, ErrorV>(
                    type_view(out),
                ),
                Err(e) => convert_spec(self@, type_view(*ty), ns@) == Err::<TypeExprV, _>(e@),
            },
        decreases *ty,
    {
        match ty {
            TypeExpr::Path(segs) => {
                proof {
                    lemma_segs_view_len(segs@);
                    assert(type_view(*ty) == TypeExprV::Path(segs_view(segs@)));
                }
                match self.convert_type_path(segs, ns) {
                    Ok(out) => {
                        let canon = canonical_name(&out);
                        if name_matches2(&canon, "rust", "Str") {
                            let mut strsegs: Vec<PathSeg> = Vec::new();
                            strsegs.push(PathSeg { name: String::from_str("str"), args: Vec::new() });
                            proof {
                                lemma_segs_view_len(strsegs@);
                                lemma_segs_view_index(strsegs@, 0);
                                assert(segs_view(strsegs@) =~= plain_segs(seq!["str"@])) by {
                                    assert(segs_view(strsegs@).len() == 1);
                                    assert(args_view(strsegs@[0].args@) =~= Seq::<
                                        TypeExprV,
                                    >::empty());
                                    assert(segs_view(strsegs@)[0] == seg_view(strsegs@[0]));
                                };
                            }
                            let ghost ov = segs_view(out@);
                            let inner_expr = TypeExpr::Path(strsegs);
                            let ghost gv = type_view(inner_expr);
                            proof {
                                assert(gv == TypeExprV::Path(plain_segs(seq!["str"@])));
                            }
                            let res = TypeExpr::Reference(false, Box::new(inner_expr));
                            proof {
                                assert(str_marker_name(canonical_of(ov)));
                                assert(type_view(res) == TypeExprV::Reference(false, Box::new(gv)));
                            }
                            Ok(res)
                        } else {
                            let ghost ov = segs_view(out@);
                            let res = TypeExpr::Path(out);
                            proof {
                                assert(!str_marker_name(canonical_of(ov)));
                                assert(type_view(res) == TypeExprV::Path(ov));
                            }
                            Ok(res)
                        }
                    },
                    Err(e) => Err(e),
                }
            },
            TypeExpr::Reference(m, inner) => {
                proof {
                    assert(type_view(*ty) == TypeExprV::Reference(
                        *m,
                        Box::new(type_view(**inner)),
                    ));
                }
                match self.convert_type(&**inner, ns) {
                    Ok(u) => {
                        let ghost uv = type_view(u);
                        let res = TypeExpr::Reference(*m, Box::new(u));
                        proof {
                            assert(type_view(res) == TypeExprV::Reference(*m, Box::new(uv)));
                        }
                        Ok(res)
                    },
                    Err(e) => Err(e),
                }
            },
            TypeExpr::Pointer(m, inner) => {
                proof {
                    assert(type_view(*ty) == TypeExprV::Pointer(
                        *m,
                        Box::new(type_view(**inner)),
                    ));
                }
                match self.convert_type(&**inner, ns) {
                    Ok(u) => {
                        let ghost uv = type_view(u);
                        let res = TypeExpr::Reference(*m, Box::new(u));
                        proof {
                            assert(type_view(res) == TypeExprV::Reference(*m, Box::new(uv)));
                        }
                        Ok(res)
                    },
                    Err(e) => Err(e),
                }
            },
            TypeExpr::Opaque => Ok(TypeExpr::Opaque),
        }
    }
}

// ----- laws -----

/// A simple-alias chain is followed to its very end: a name that resolution
/// reports as the chain's end is itself no typedef.
pub proof fn lemma_resolution_reaches_chain_end(
    tds: Seq<(Seq<Seq<char>>, TargetV)>,
    tn: Seq<Seq<char>>,
    fuel: nat,
)
    requires
        resolve_rec(tds, tn, fuel) is ResolvesTo,
    ensures
        lookup_td(tds, resolve_rec(tds, tn, fuel)->ResolvesTo_0) is None,
    decreases fuel,
{
    match lookup_td(tds, tn) {
        Some(TargetV::SimpleAlias(t)) => {
            if fuel > 0 {
                let inner = resolve_rec(tds, t, (fuel - 1) as nat);
                if inner is ResolvesTo {
                    lemma_resolution_reaches_chain_end(tds, t, (fuel - 1) as nat);
                }
            }
        },
        _ => {},
    }
}

/// Converting a raw pointer yields a reference of the same mutability around
/// the converted pointee.
pub proof fn lemma_pointer_becomes_reference(
    cv: ConverterV,
    m: bool,
    inner: TypeExprV,
    ns: Seq<Seq<char>>,
)
    ensures
        convert_spec(cv, TypeExprV::Pointer(m, Box::new(inner)), ns) == (match convert_spec(
            cv,
            inner,
            ns,
        ) {
            Ok(u) => Ok::<TypeExprV, ErrorV>(TypeExprV::Reference(m, Box::new(u))),
            Err(e) => Err::<TypeExprV, ErrorV>(e),
        }),
{
}

/// An already-absolute, argument-free path is converted the same way in
/// every namespace: the converter never re-qualifies it.
pub proof fn lemma_absolute_path_namespace_independent(
    cv: ConverterV,
    segs: Seq<PathSegV>,
    ns1: Seq<Seq<char>>,
    ns2: Seq<Seq<char>>,
)
    requires
        segs.len() > 0,
        segs[0].name == "root"@,
        segs[segs.len() - 1].args.len() == 0,
    ensures
        convert_path_spec(cv, segs, ns1) == convert_path_spec(cv, segs, ns2),
{
    assert(convert_args_spec(cv, segs[segs.len() - 1].args, ns1) == Ok::<
        Seq<TypeExprV>,
        ErrorV,
    >(Seq::empty()));
    assert(convert_args_spec(cv, segs[segs.len() - 1].args, ns2) == Ok::<
        Seq<TypeExprV>,
        ErrorV,
    >(Seq::empty()));
    assert(qualify(cv, segs, ns1) == segs);
    assert(qualify(cv, segs, ns2) == segs);
}

} // verus!
