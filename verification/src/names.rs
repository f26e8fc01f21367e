//! Identifier model: canonical type names and namespace paths, both plain
//! sequences of path segments, plus their rendering to native source syntax.
use vstd::prelude::*;
use itertools::Itertools;

verus! {

/// The characters of `parts` in order, separated by `sep`.
pub open spec fn join_seqs(parts: Seq<Seq<char>>, sep: Seq<char>) -> Seq<char>
    decreases parts.len(),
{
    if parts.len() == 0 {
        Seq::empty()
    } else if parts.len() == 1 {
        parts[0]
    } else {
        parts[0] + sep + join_seqs(parts.drop_first(), sep)
    }
}

/// Relies on itertools' `Itertools::join`: concatenates the items' `Display`
/// renderings (a `String` displays as its own characters) separated by `sep`.
#[verifier::external_body]
pub(crate) fn join_strings(parts: &Vec<String>, sep: &str) -> (r: String)
    ensures
        r@ == join_seqs(parts.deep_view(), sep@),
{
    parts.iter().join(sep)
}

/// A canonical, namespace-qualified native type identity: its path segments
/// in order, outermost namespace first, without the absolute-path marker.
/// Two names denote the same type exactly when their segment sequences are
/// equal.
#[derive(Debug)]
pub struct TypeName {
    pub segments: Vec<String>,
}

impl View for TypeName {
    type V = Seq<Seq<char>>;

    open spec fn view(&self) -> Seq<Seq<char>> {
        self.segments.deep_view()
    }
}

impl DeepView for TypeName {
    type V = Seq<Seq<char>>;

    open spec fn deep_view(&self) -> Seq<Seq<char>> {
        self.view()
    }
}

impl PartialEq for TypeName {
    /// Equality is by the fully qualified path.
    fn eq(&self, other: &Self) -> (r: bool) {
        let n = self.segments.len();
        if n != other.segments.len() {
            assert(self@.len() != other@.len());
            return false;
        }
        let mut i: usize = 0;
        while i < n
            invariant
                0 <= i <= n,
                n == self.segments@.len() == other.segments@.len(),
                forall|j: int| 0 <= j < i ==> self@[j] == other@[j],
            decreases n - i,
        {
            if !crate::overload::str_eq(self.segments[i].as_str(), other.segments[i].as_str()) {
                proof {
                    assert(self@[i as int] != other@[i as int]);
                }
                return false;
            }
            i = i + 1;
        }
        proof {
            assert(self@ =~= other@);
        }
        true
    }
}

impl vstd::std_specs::cmp::PartialEqSpecImpl for TypeName {
    open spec fn obeys_eq_spec() -> bool {
        true
    }

    open spec fn eq_spec(&self, other: &Self) -> bool {
        self@ == other@
    }
}

impl Clone for TypeName {
    fn clone(&self) -> (r: Self)
        ensures
            r@ == self@,
    {
        let n = self.segments.len();
        let mut segments: Vec<String> = Vec::new();
        let mut i: usize = 0;
        while i < n
            invariant
                0 <= i <= n,
                n == self.segments@.len(),
                segments@.len() == i,
                forall|j: int| 0 <= j < i ==> segments.deep_view()[j] == self@[j],
            decreases n - i,
        {
            segments.push(self.segments[i].clone());
            i = i + 1;
        }
        let r = TypeName { segments };
        proof {
            assert(r@ =~= self@);
        }
        r
    }
}

impl TypeName {
    pub fn new(segments: Vec<String>) -> (r: Self)
        ensures
            r@ == segments.deep_view(),
    {
        TypeName { segments }
    }

    /// The native-source spelling of the name: its segments joined by the
    /// scope separator.
    pub fn to_cpp_name(&self) -> (r: String)
        ensures
            r@ == join_seqs(self@, "::"@),
    {
        join_strings(&self.segments, "::")
    }
}

/// An ordered namespace path, outermost segment first, in which a usage of a
/// type was found.
#[derive(Debug)]
pub struct Namespace {
    pub segments: Vec<String>,
}

impl View for Namespace {
    type V = Seq<Seq<char>>;

    open spec fn view(&self) -> Seq<Seq<char>> {
        self.segments.deep_view()
    }
}

impl Namespace {
    pub fn new(segments: Vec<String>) -> (r: Self)
        ensures
            r@ == segments.deep_view(),
    {
        Namespace { segments }
    }
}

} // verus!
