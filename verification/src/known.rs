//! The built-in type table: names the converter recognizes without a `push`,
//! and the substitutions from native library types onto their binding-layer
//! equivalents.
use vstd::prelude::*;

use crate::names::TypeName;
use crate::overload::str_eq;

verus! {

/// The binding-layer replacement for a well-known native library type, if
/// the name denotes one: the native string, ownership-wrapper and sequence
/// containers map onto the bridge crate's equivalents.
pub open spec fn known_substitute_name(name: Seq<Seq<char>>) -> Option<Seq<Seq<char>>> {
    if name == seq!["std"@, "string"@] {
        Some(seq!["cxx"@, "CxxString"@])
    } else if name == seq!["std"@, "unique_ptr"@] {
        Some(seq!["cxx"@, "UniquePtr"@])
    } else if name == seq!["std"@, "shared_ptr"@] {
        Some(seq!["cxx"@, "SharedPtr"@])
    } else if name == seq!["std"@, "vector"@] {
        Some(seq!["cxx"@, "CxxVector"@])
    } else {
        None
    }
}

/// The marker type the upstream scanner uses for a native string-view-like
/// value passed by value; it always denotes a borrowed string slice.
pub open spec fn str_marker_name(name: Seq<Seq<char>>) -> bool {
    name == seq!["rust"@, "Str"@]
}

/// A built-in scalar or slice name that needs no namespace qualification.
pub open spec fn is_primitive_name(name: Seq<Seq<char>>) -> bool {
    ||| name == seq!["u8"@]
    ||| name == seq!["u16"@]
    ||| name == seq!["u32"@]
    ||| name == seq!["u64"@]
    ||| name == seq!["usize"@]
    ||| name == seq!["i8"@]
    ||| name == seq!["i16"@]
    ||| name == seq!["i32"@]
    ||| name == seq!["i64"@]
    ||| name == seq!["isize"@]
    ||| name == seq!["bool"@]
    ||| name == seq!["char"@]
    ||| name == seq!["str"@]
}

/// A name the converter treats as already resolved: a primitive, the
/// borrowed-string marker, a substitutable library type, or one of the
/// substitution targets themselves.
pub open spec fn is_known_name(name: Seq<Seq<char>>) -> bool {
    ||| is_primitive_name(name)
    ||| str_marker_name(name)
    ||| known_substitute_name(name) is Some
    ||| name == seq!["cxx"@, "CxxString"@]
    ||| name == seq!["cxx"@, "UniquePtr"@]
    ||| name == seq!["cxx"@, "SharedPtr"@]
    ||| name == seq!["cxx"@, "CxxVector"@]
}

/// True exactly when the name is the single segment `a`.
pub(crate) fn name_matches1(tn: &TypeName, a: &str) -> (r: bool)
    ensures
        r == (tn@ == seq![a@]),
{
    if tn.segments.len() != 1 {
        assert(tn@.len() != 1 && seq![a@].len() == 1);
        return false;
    }
    let r = str_eq(tn.segments[0].as_str(), a);
    proof {
        if r {
            assert(tn@ =~= seq![a@]);
        } else {
            assert(tn@[0] != seq![a@][0]);
        }
    }
    r
}

/// True exactly when the name is the two segments `a::b`.
pub(crate) fn name_matches2(tn: &TypeName, a: &str, b: &str) -> (r: bool)
    ensures
        r == (tn@ == seq![a@, b@]),
{
    if tn.segments.len() != 2 {
        assert(tn@.len() != 2 && seq![a@, b@].len() == 2);
        return false;
    }
    let r = str_eq(tn.segments[0].as_str(), a) && str_eq(tn.segments[1].as_str(), b);
    proof {
        if r {
            assert(tn@ =~= seq![a@, b@]);
        } else {
            assert(tn@[0] != seq![a@, b@][0] || tn@[1] != seq![a@, b@][1]);
        }
    }
    r
}

/// Builds the two-segment name `a::b`.
pub(crate) fn make_name2(a: &str, b: &str) -> (r: TypeName)
    ensures
        r@ == seq![a@, b@],
{
    let mut segments: Vec<String> = Vec::new();
    segments.push(a.to_owned());
    segments.push(b.to_owned());
    let r = TypeName::new(segments);
    proof {
        assert(r@ =~= seq![a@, b@]);
    }
    r
}

/// Whether the converter already knows this canonical name and must not
/// qualify it with the current namespace.
pub fn is_known_type(tn: &TypeName) -> (r: bool)
    ensures
        r == is_known_name(tn@),
{
    name_matches1(tn, "u8") || name_matches1(tn, "u16") || name_matches1(tn, "u32")
        || name_matches1(tn, "u64") || name_matches1(tn, "usize") || name_matches1(tn, "i8")
        || name_matches1(tn, "i16") || name_matches1(tn, "i32") || name_matches1(tn, "i64")
        || name_matches1(tn, "isize") || name_matches1(tn, "bool") || name_matches1(tn, "char")
        || name_matches1(tn, "str") || name_matches2(tn, "rust", "Str")
        || name_matches2(tn, "std", "string") || name_matches2(tn, "std", "unique_ptr")
        || name_matches2(tn, "std", "shared_ptr") || name_matches2(tn, "std", "vector")
        || name_matches2(tn, "cxx", "CxxString") || name_matches2(tn, "cxx", "UniquePtr")
        || name_matches2(tn, "cxx", "SharedPtr") || name_matches2(tn, "cxx", "CxxVector")
}

/// The binding-layer substitute for a well-known library type, if any.
pub fn known_type_substitute(tn: &TypeName) -> (r: Option<TypeName>)
    ensures
        match r {
            Some(t) => known_substitute_name(tn@) == Some(t@),
            None => known_substitute_name(tn@) is None,
        },
{
    if name_matches2(tn, "std", "string") {
        Some(make_name2("cxx", "CxxString"))
    } else if name_matches2(tn, "std", "unique_ptr") {
        Some(make_name2("cxx", "UniquePtr"))
    } else if name_matches2(tn, "std", "shared_ptr") {
        Some(make_name2("cxx", "SharedPtr"))
    } else if name_matches2(tn, "std", "vector") {
        Some(make_name2("cxx", "CxxVector"))
    } else {
        None
    }
}

} // verus!
