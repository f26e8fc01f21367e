//! The type metadata registry: nested-type renames, plain-old-data
//! requests, the exposure allowlist, and the renderer that turns a resolved
//! type expression back into native source text.
use vstd::prelude::*;

use crate::converter::canonical_name;
use crate::errors::{ConvertError, ErrorV};
use crate::names::{join_seqs, join_strings, TypeName};
use crate::typeexpr::{
    args_view, canonical_of, lemma_args_view_index, lemma_args_view_len, lemma_args_wf_index,
    lemma_segs_view_index, lemma_segs_view_len, lemma_segs_wf_index, segs_view, type_view, type_wf,
    TypeExpr, TypeExprV,
};

verus! {

/// Mathematical state of a [`TypeDatabase`]: the nested-type rename table
/// in insertion order (a later entry for the same name shadows an earlier
/// one), the set of plain-old-data requests, and the exposure allowlist.
pub ghost struct DatabaseV {
    pub nested: Seq<(Seq<Seq<char>>, Seq<Seq<char>>)>,
    pub pods: Seq<Seq<Seq<char>>>,
    pub allow: Seq<Seq<char>>,
}

pub open spec fn pairs_view(s: Seq<(TypeName, TypeName)>) -> Seq<
    (Seq<Seq<char>>, Seq<Seq<char>>),
>
    decreases s,
{
    if s.len() == 0 {
        Seq::empty()
    } else {
        pairs_view(s.drop_last()).push((s.last().0@, s.last().1@))
    }
}

pub broadcast proof fn lemma_pairs_view_len(s: Seq<(TypeName, TypeName)>)
    ensures
        (#[trigger] pairs_view(s)).len() == s.len(),
    decreases s.len(),
{
    if s.len() > 0 {
        lemma_pairs_view_len(s.drop_last());
    }
}

/// The rename recorded for `k`: the latest one, if any.
pub open spec fn lookup_name(
    m: Seq<(Seq<Seq<char>>, Seq<Seq<char>>)>,
    k: Seq<Seq<char>>,
) -> Option<Seq<Seq<char>>>
    decreases m.len(),
{
    if m.len() == 0 {
        None
    } else if m.last().0 == k {
        Some(m.last().1)
    } else {
        lookup_name(m.drop_last(), k)
    }
}

/// Native-source rendering of a resolved type: `Name` or `Name<Args, ...>`
/// for a named type (after resolving any nested-type rename), `const T&` or
/// `T&` for a reference. Any other shape reaching the renderer is an
/// internal invariant violation.
pub open spec fn render_spec(
    nested: Seq<(Seq<Seq<char>>, Seq<Seq<char>>)>,
    t: TypeExprV,
) -> Result<Seq<char>, ErrorV>
    decreases t,
{
    match t {
        TypeExprV::Path(segs) => if segs.len() == 0 {
            arbitrary()
        } else {
            let root = canonical_of(segs);
            let eff = match lookup_name(nested, root) {
                Some(r) => r,
                None => root,
            };
            let rootname = join_seqs(eff, "::"@);
            if segs[segs.len() - 1].args.len() == 0 {
                Ok(rootname)
            } else {
                match render_args_spec(nested, segs[segs.len() - 1].args) {
                    Err(e) => Err(e),
                    Ok(parts) => Ok(rootname + "<"@ + join_seqs(parts, ", "@) + ">"@),
                }
            }
        },
        TypeExprV::Reference(m, inner) => match render_spec(nested, *inner) {
            Err(e) => Err(e),
            Ok(s) => Ok(
                if m {
                    s + "&"@
                } else {
                    "const "@ + s + "&"@
                },
            ),
        },
        _ => Err(ErrorV::UnrenderableShape),
    }
}

/// Rendering of a generic-argument list, left to right, first error wins.
pub open spec fn render_args_spec(
    nested: Seq<(Seq<Seq<char>>, Seq<Seq<char>>)>,
    args: Seq<TypeExprV>,
) -> Result<Seq<Seq<char>>, ErrorV>
    decreases args,
{
    if args.len() == 0 {
        Ok(Seq::empty())
    } else {
        match render_args_spec(nested, args.drop_last()) {
            Err(e) => Err(e),
            Ok(front) => match render_spec(nested, args.last()) {
                Err(e) => Err(e),
                Ok(s) => Ok(front.push(s)),
            },
        }
    }
}

/// An error in a prefix of an argument list is the error of the whole list.
proof fn lemma_render_args_err_persists(
    nested: Seq<(Seq<Seq<char>>, Seq<Seq<char>>)>,
    args: Seq<TypeExprV>,
    l: int,
)
    requires
        0 <= l <= args.len(),
        render_args_spec(nested, args.take(l)) is Err,
    ensures
        render_args_spec(nested, args) == render_args_spec(nested, args.take(l)),
    decreases args.len() - l,
{
    if l == args.len() {
        assert(args.take(l) =~= args);
    } else {
        assert(args.take(l + 1).drop_last() =~= args.take(l));
        lemma_render_args_err_persists(nested, args, l + 1);
    }
}

/// Central registry of cross-cutting facts about types, populated from user
/// configuration and nested-type discovery.
pub struct TypeDatabase {
    nested_types: Vec<(TypeName, TypeName)>,
    pod_requests: Vec<TypeName>,
    allowlist: Vec<String>,
}

impl View for TypeDatabase {
    type V = DatabaseV;

    closed spec fn view(&self) -> DatabaseV {
        DatabaseV {
            nested: pairs_view(self.nested_types@),
            pods: self.pod_requests.deep_view(),
            allow: self.allowlist.deep_view(),
        }
    }
}

impl TypeDatabase {
    /// An empty registry.
    pub fn new() -> (r: Self)
        ensures
            r@ == (DatabaseV { nested: Seq::empty(), pods: Seq::empty(), allow: Seq::empty() }),
    {
        let r = TypeDatabase {
            nested_types: Vec::new(),
            pod_requests: Vec::new(),
            allowlist: Vec::new(),
        };
        proof {
            assert(r@.pods =~= Seq::<Seq<Seq<char>>>::empty());
            assert(r@.allow =~= Seq::<Seq<char>>::empty());
            assert(r@ =~= (DatabaseV {
                nested: Seq::empty(),
                pods: Seq::empty(),
                allow: Seq::empty(),
            }));
        }
        r
    }

    /// Records that `original` should be spoken of as `replacement`.
    pub fn note_nested_type(&mut self, original: TypeName, replacement: TypeName)
        ensures
            final(self)@.nested == old(self)@.nested.push((original@, replacement@)),
            final(self)@.pods == old(self)@.pods,
            final(self)@.allow == old(self)@.allow,
    {
        let ghost prev = self.nested_types@;
        self.nested_types.push((original, replacement));
        proof {
            assert(self.nested_types@.drop_last() =~= prev);
        }
    }

    /// The recorded replacement for `original`, if any.
    #[verifier::loop_isolation(false)]
    pub fn get_effective_type<'a>(&'a self, original: &TypeName) -> (r: Option<&'a TypeName>)
        ensures
            match r {
                Some(t) => lookup_name(self@.nested, original@) == Some(t@),
                None => lookup_name(self@.nested, original@) is None,
            },
    {
        let ghost m = self@.nested;
        let n = self.nested_types.len();
        let mut i = n;
        proof {
            lemma_pairs_view_len(self.nested_types@);
            assert(m.take(n as int) =~= m);
        }
        while i > 0
            invariant
                0 <= i <= n,
                lookup_name(m, original@) == lookup_name(m.take(i as int), original@),
            decreases i,
        {
            proof {
                lemma_pairs_view_index(self.nested_types@, i - 1);
            }
            if self.nested_types[i - 1].0 == *original {
                proof {
                    assert(m.take(i as int).last() == m[i - 1]);
                }
                return Some(&self.nested_types[i - 1].1);
            }
            proof {
                assert(m.take(i as int).last() == m[i - 1]);
                assert(m.take(i as int).drop_last() =~= m.take(i - 1));
            }
            i = i - 1;
        }
        proof {
            assert(m.take(0) =~= Seq::<(Seq<Seq<char>>, Seq<Seq<char>>)>::empty());
        }
        None
    }

    /// Asks for `tn` to be treated as a flat, directly representable value;
    /// recording the same name twice keeps a single entry.
    #[verifier::loop_isolation(false)]
    pub fn note_pod_request(&mut self, tn: TypeName)
        ensures
            final(self)@.pods == (if old(self)@.pods.contains(tn@) {
                old(self)@.pods
            } else {
                old(self)@.pods.push(tn@)
            }),
            final(self)@.nested == old(self)@.nested,
            final(self)@.allow == old(self)@.allow,
    {
        let k = self.pod_requests.len();
        let mut i: usize = 0;
        while i < k
            invariant
                0 <= i <= k,
                forall|j: int| 0 <= j < i ==> self@.pods[j] != tn@,
            decreases k - i,
        {
            if self.pod_requests[i] == tn {
                assert(self@.pods[i as int] == tn@);
                assert(self@.pods.contains(tn@));
                return ;
            }
            i = i + 1;
        }
        let ghost prev = self@.pods;
        proof {
            if prev.contains(tn@) {
                let w = choose|w: int| 0 <= w < prev.len() && prev[w] == tn@;
                assert(false);
            }
        }
        self.pod_requests.push(tn);
        proof {
            assert(self@.pods =~= prev.push(tn@));
        }
    }

    /// The set of plain-old-data requests recorded so far.
    pub fn get_pod_requests(&self) -> (r: &Vec<TypeName>)
        ensures
            r.deep_view() == self@.pods,
    {
        &self.pod_requests
    }

    /// Allows the named symbol to be exposed; adding the same name twice
    /// keeps a single entry.
    #[verifier::loop_isolation(false)]
    pub fn add_to_allowlist(&mut self, item: String)
        ensures
            final(self)@.allow == (if old(self)@.allow.contains(item@) {
                old(self)@.allow
            } else {
                old(self)@.allow.push(item@)
            }),
            final(self)@.nested == old(self)@.nested,
            final(self)@.pods == old(self)@.pods,
    {
        let k = self.allowlist.len();
        let mut i: usize = 0;
        while i < k
            invariant
                0 <= i <= k,
                forall|j: int| 0 <= j < i ==> self@.allow[j] != item@,
            decreases k - i,
        {
            if self.allowlist[i] == item {
                assert(self@.allow[i as int] == item@);
                assert(self@.allow.contains(item@));
                return ;
            }
            i = i + 1;
        }
        let ghost prev = self@.allow;
        let ghost iv = item@;
        proof {
            if prev.contains(iv) {
                let w = choose|w: int| 0 <= w < prev.len() && prev[w] == iv;
                assert(false);
            }
        }
        self.allowlist.push(item);
        proof {
            assert(self@.allow =~= prev.push(iv));
        }
    }

    /// The allowlisted symbols, in insertion order.
    pub fn allowlist(&self) -> (r: &Vec<String>)
        ensures
            r.deep_view() == self@.allow,
    {
        &self.allowlist
    }

    /// Whether no allowlist entry was ever configured; callers use this to
    /// skip filtering entirely.
    pub fn allowlist_is_empty(&self) -> (r: bool)
        ensures
            r == (self@.allow.len() == 0),
    {
        self.allowlist.len() == 0
    }

    /// Whether the native spelling of `tn` is on the allowlist.
    #[verifier::loop_isolation(false)]
    pub fn is_on_allowlist(&self, tn: &TypeName) -> (r: bool)
        ensures
            r == self@.allow.contains(join_seqs(tn@, "::"@)),
    {
        let s = tn.to_cpp_name();
        let k = self.allowlist.len();
        let mut i: usize = 0;
        while i < k
            invariant
                0 <= i <= k,
                forall|j: int| 0 <= j < i ==> self@.allow[j] != s@,
            decreases k - i,
        {
            if self.allowlist[i] == s {
                assert(self@.allow[i as int] == s@);
                assert(self@.allow.contains(s@));
                return true;
            }
            i = i + 1;
        }
        assert(!self@.allow.contains(s@));
        false
    }

    /// Renders a resolved type back to native source text, resolving
    /// nested-type renames on the way; only named paths and references are
    /// renderable.
    #[verifier::loop_isolation(false)]
    #[verifier::rlimit(60)]
    pub fn type_to_cpp(&self, ty: &TypeExpr) -> (r: Result<String, ConvertError>)
        requires
            type_wf(type_view(*ty)),
        ensures
            match r {
                Ok(out) => render_spec(self@.nested, type_view(*ty)) == Ok::<_, ErrorV>(out@),
                Err(e) => render_spec(self@.nested, type_view(*ty)) == Err::<Seq<char>, _>(e@),
            },
        decreases *ty,
    {
        match ty {
            TypeExpr::Path(segs) => {
                proof {
                    lemma_segs_view_len(segs@);
                    assert(type_view(*ty) == TypeExprV::Path(segs_view(segs@)));
                }
                let ghost sv = segs_view(segs@);
                let n = segs.len();
                let canon = canonical_name(segs);
                let eff: TypeName = match self.get_effective_type(&canon) {
                    Some(t) => t.clone(),
                    None => canon,
                };
                let rootname = eff.to_cpp_name();
                proof {
                    lemma_segs_view_index(segs@, n - 1);
                    lemma_segs_wf_index(sv, n - 1);
                    lemma_args_view_len(segs@[n - 1].args@);
                }
                let args = &segs[n - 1].args;
                if args.len() == 0 {
                    return Ok(rootname);
                }
                let ghost av = args_view(args@);
                let m = args.len();
                let mut parts: Vec<String> = Vec::new();
                proof {
                    assert(parts.deep_view() =~= Seq::<Seq<char>>::empty());
                    assert(av.take(0) =~= Seq::<TypeExprV>::empty());
                }
                let mut j: usize = 0;
                while j < m
                    invariant
                        0 <= j <= m,
                        render_args_spec(self@.nested, av.take(j as int)) == Ok::<
                            Seq<Seq<char>>,
                            ErrorV,
                        >(parts.deep_view()),
                    decreases m - j,
                {
                    proof {
                        lemma_args_view_index(args@, j as int);
                        lemma_args_wf_index(av, j as int);
                        assert(decreases_to!(*ty => args@[j as int]));
                    }
                    match self.type_to_cpp(&args[j]) {
                        Ok(p) => {
                            let ghost prevd = parts.deep_view();
                            let ghost pv = p@;
                            parts.push(p);
                            proof {
                                assert(parts.deep_view() =~= prevd.push(pv));
                                assert(av.take(j + 1).drop_last() =~= av.take(j as int));
                                assert(av.take(j + 1).last() == av[j as int]);
                            }
                            j = j + 1;
                        },
                        Err(e) => {
                            proof {
                                assert(av.take(j + 1).drop_last() =~= av.take(j as int));
                                assert(av.take(j + 1).last() == av[j as int]);
                                lemma_render_args_err_persists(self@.nested, av, j + 1);
                            }
                            return Err(e);
                        },
                    }
                }
                proof {
                    assert(av.take(m as int) =~= av);
                }
                let joined = join_strings(&parts, ", ");
                let out = rootname.concat("<").concat(joined.as_str()).concat(">");
                Ok(out)
            },
            TypeExpr::Reference(mt, inner) => {
                proof {
                    assert(type_view(*ty) == TypeExprV::Reference(
                        *mt,
                        Box::new(type_view(**inner)),
                    ));
                }
                match self.type_to_cpp(&**inner) {
                    Ok(s) => {
                        if *mt {
                            Ok(s.concat("&"))
                        } else {
                            let out = String::from_str("const ").concat(s.as_str()).concat("&");
                            Ok(out)
                        }
                    },
                    Err(e) => Err(e),
                }
            },
            TypeExpr::Pointer(_, _) => {
                proof {
                    assert(type_view(*ty) is Pointer);
                }
                Err(ConvertError::UnrenderableShape)
            },
            TypeExpr::Opaque => Err(ConvertError::UnrenderableShape),
        }
    }
}

pub broadcast proof fn lemma_pairs_view_index(s: Seq<(TypeName, TypeName)>, i: int)
    requires
        0 <= i < s.len(),
    ensures
        (#[trigger] pairs_view(s)[i]) == (s[i].0@, s[i].1@),
        pairs_view(s).len() == s.len(),
    decreases s.len(),
{
    lemma_pairs_view_len(s);
    if i < s.len() - 1 {
        lemma_pairs_view_index(s.drop_last(), i);
    }
}

} // verus!
