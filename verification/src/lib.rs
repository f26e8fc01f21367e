//! Core of a cross-language binding generator: recovers per-scope overload
//! numbering from globally numbered identifiers, resolves raw type
//! expressions (namespace qualification, typedef chains, built-in
//! substitution, pointer normalization), and keeps a registry of type
//! metadata with a renderer back to native source syntax.
pub mod converter;
pub mod database;
pub mod errors;
pub mod known;
pub mod names;
pub mod overload;
pub mod typeexpr;

pub use converter::{TypeConverter, TypedefTarget};
pub use database::TypeDatabase;
pub use errors::ConvertError;
pub use names::{Namespace, TypeName};
pub use overload::{MethodOverload, OverloadTracker, split_name};
pub use typeexpr::{PathSeg, TypeExpr};
