use typebridge::{ConvertError, PathSeg, TypeDatabase, TypeExpr, TypeName};

fn tname(parts: &[&str]) -> TypeName {
    TypeName::new(parts.iter().map(|s| s.to_string()).collect())
}

fn plain(parts: &[&str]) -> TypeExpr {
    TypeExpr::Path(
        parts
            .iter()
            .map(|s| PathSeg { name: s.to_string(), args: Vec::new() })
            .collect(),
    )
}

#[test]
fn renders_generic_type_with_two_arguments() {
    let db = TypeDatabase::new();
    let ty = TypeExpr::Path(vec![PathSeg {
        name: "Name".to_string(),
        args: vec![plain(&["Arg1"]), plain(&["Arg2"])],
    }]);
    assert_eq!(db.type_to_cpp(&ty).unwrap(), "Name<Arg1, Arg2>");
}

#[test]
fn renders_const_reference() {
    let db = TypeDatabase::new();
    let ty = TypeExpr::Reference(false, Box::new(plain(&["Name"])));
    assert_eq!(db.type_to_cpp(&ty).unwrap(), "const Name&");
}

#[test]
fn renders_mutable_reference() {
    let db = TypeDatabase::new();
    let ty = TypeExpr::Reference(true, Box::new(plain(&["Name"])));
    assert_eq!(db.type_to_cpp(&ty).unwrap(), "Name&");
}

#[test]
fn renders_qualified_name_with_scope_separator() {
    let db = TypeDatabase::new();
    assert_eq!(db.type_to_cpp(&plain(&["root", "ns", "Foo"])).unwrap(), "ns::Foo");
}

#[test]
fn renderer_rejects_raw_pointers() {
    let db = TypeDatabase::new();
    let ty = TypeExpr::Pointer(true, Box::new(plain(&["T"])));
    let err = db.type_to_cpp(&ty).unwrap_err();
    assert_eq!(err, ConvertError::UnrenderableShape);
    assert!(err.is_fatal());
}

#[test]
fn renderer_rejects_opaque_shapes() {
    let db = TypeDatabase::new();
    assert_eq!(
        db.type_to_cpp(&TypeExpr::Opaque),
        Err(ConvertError::UnrenderableShape)
    );
}

#[test]
fn nested_type_rename_is_applied_when_rendering() {
    let mut db = TypeDatabase::new();
    db.note_nested_type(tname(&["A", "B_nested"]), tname(&["A", "B"]));
    assert_eq!(db.type_to_cpp(&plain(&["A", "B_nested"])).unwrap(), "A::B");
}

#[test]
fn effective_type_lookup() {
    let mut db = TypeDatabase::new();
    assert!(db.get_effective_type(&tname(&["X"])).is_none());
    db.note_nested_type(tname(&["X"]), tname(&["Y"]));
    assert_eq!(db.get_effective_type(&tname(&["X"])), Some(&tname(&["Y"])));
    // a later note shadows the earlier one
    db.note_nested_type(tname(&["X"]), tname(&["Z"]));
    assert_eq!(db.get_effective_type(&tname(&["X"])), Some(&tname(&["Z"])));
}

#[test]
fn pod_requests_deduplicate() {
    let mut db = TypeDatabase::new();
    db.note_pod_request(tname(&["P"]));
    db.note_pod_request(tname(&["Q"]));
    db.note_pod_request(tname(&["P"]));
    assert_eq!(db.get_pod_requests().len(), 2);
    assert!(db.get_pod_requests().contains(&tname(&["P"])));
    assert!(db.get_pod_requests().contains(&tname(&["Q"])));
}

#[test]
fn empty_allowlist_is_distinguishable() {
    let mut db = TypeDatabase::new();
    assert!(db.allowlist_is_empty());
    db.add_to_allowlist("ns::Foo".to_string());
    assert!(!db.allowlist_is_empty());
}

#[test]
fn allowlist_matches_native_spelling() {
    let mut db = TypeDatabase::new();
    db.add_to_allowlist("ns::Foo".to_string());
    db.add_to_allowlist("ns::Foo".to_string());
    assert_eq!(db.allowlist().len(), 1);
    assert!(db.is_on_allowlist(&tname(&["ns", "Foo"])));
    assert!(!db.is_on_allowlist(&tname(&["ns", "Bar"])));
}

#[test]
fn type_name_renders_with_scope_separator() {
    assert_eq!(tname(&["a", "b", "c"]).to_cpp_name(), "a::b::c");
    assert_eq!(tname(&["solo"]).to_cpp_name(), "solo");
}
