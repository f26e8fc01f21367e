use typebridge::{ConvertError, Namespace, PathSeg, TypeConverter, TypeExpr, TypeName};

fn name(parts: &[&str]) -> TypeName {
    TypeName::new(parts.iter().map(|s| s.to_string()).collect())
}

fn namespace(parts: &[&str]) -> Namespace {
    Namespace::new(parts.iter().map(|s| s.to_string()).collect())
}

fn path(parts: &[&str]) -> TypeExpr {
    TypeExpr::Path(
        parts
            .iter()
            .map(|s| PathSeg { name: s.to_string(), args: Vec::new() })
            .collect(),
    )
}

fn seg_names(t: &TypeExpr) -> Vec<String> {
    match t {
        TypeExpr::Path(segs) => segs.iter().map(|s| s.name.clone()).collect(),
        _ => panic!("expected a path"),
    }
}

#[test]
fn absolute_path_is_not_requalified() {
    let tc = TypeConverter::new();
    let got = tc.convert_type(&path(&["root", "A"]), &namespace(&["ns1"])).unwrap();
    assert_eq!(seg_names(&got), vec!["root".to_string(), "A".to_string()]);
    let other_ns = tc.convert_type(&path(&["root", "A"]), &namespace(&["x", "y"])).unwrap();
    assert_eq!(seg_names(&other_ns), vec!["root".to_string(), "A".to_string()]);
}

#[test]
fn unqualified_name_is_qualified_with_namespace() {
    let tc = TypeConverter::new();
    let ns = namespace(&["outer", "inner"]);
    let first = tc.convert_type(&path(&["B"]), &ns).unwrap();
    let second = tc.convert_type(&path(&["B"]), &ns).unwrap();
    let expect: Vec<String> =
        ["root", "outer", "inner", "B"].iter().map(|s| s.to_string()).collect();
    assert_eq!(seg_names(&first), expect);
    assert_eq!(seg_names(&second), expect);
}

#[test]
fn pushed_name_stays_unqualified() {
    // push before the conversion: the bare usage is already known
    let mut tc = TypeConverter::new();
    tc.push(name(&["B"]));
    let got = tc.convert_type(&path(&["B"]), &namespace(&["outer"])).unwrap();
    assert_eq!(seg_names(&got), vec!["B".to_string()]);
}

#[test]
fn push_after_first_conversion_changes_second() {
    // push between two conversions: the first is qualified, the second not
    let mut tc = TypeConverter::new();
    let ns = namespace(&["outer"]);
    let first = tc.convert_type(&path(&["B"]), &ns).unwrap();
    assert_eq!(
        seg_names(&first),
        vec!["root".to_string(), "outer".to_string(), "B".to_string()]
    );
    tc.push(name(&["B"]));
    let second = tc.convert_type(&path(&["B"]), &ns).unwrap();
    assert_eq!(seg_names(&second), vec!["B".to_string()]);
}

#[test]
fn typedef_chain_resolves_to_the_end() {
    let mut tc = TypeConverter::new();
    tc.insert_typedef(name(&["A"]), &path(&["B"]));
    tc.insert_typedef(name(&["B"]), &path(&["C"]));
    let r = tc.resolve_typedef(&name(&["A"])).unwrap();
    assert_eq!(r, Some(name(&["C"])));
    // a usage of A in the empty namespace lands on C, as an absolute path
    let got = tc.convert_type(&path(&["A"]), &namespace(&[])).unwrap();
    assert_eq!(seg_names(&got), vec!["root".to_string(), "C".to_string()]);
}

#[test]
fn complex_typedef_is_a_recoverable_error() {
    let mut tc = TypeConverter::new();
    let generic_target = TypeExpr::Path(vec![PathSeg {
        name: "E".to_string(),
        args: vec![path(&["F"])],
    }]);
    tc.insert_typedef(name(&["D"]), &generic_target);
    let err = tc.convert_type(&path(&["D"]), &namespace(&[])).unwrap_err();
    assert_eq!(err, ConvertError::ComplexTypedefTarget("D".to_string()));
    assert!(!err.is_fatal());
}

#[test]
fn mutable_pointer_becomes_mutable_reference() {
    let tc = TypeConverter::new();
    let ptr = TypeExpr::Pointer(true, Box::new(path(&["root", "T"])));
    let got = tc.convert_type(&ptr, &namespace(&[])).unwrap();
    match got {
        TypeExpr::Reference(true, inner) => {
            assert_eq!(seg_names(&inner), vec!["root".to_string(), "T".to_string()]);
        }
        _ => panic!("expected a mutable reference"),
    }
}

#[test]
fn const_pointer_becomes_shared_reference() {
    let tc = TypeConverter::new();
    let ptr = TypeExpr::Pointer(false, Box::new(path(&["root", "T"])));
    let got = tc.convert_type(&ptr, &namespace(&[])).unwrap();
    match got {
        TypeExpr::Reference(false, inner) => {
            assert_eq!(seg_names(&inner), vec!["root".to_string(), "T".to_string()]);
        }
        _ => panic!("expected an immutable reference"),
    }
}

#[test]
fn string_view_marker_becomes_borrowed_slice() {
    let tc = TypeConverter::new();
    let got = tc.convert_type(&path(&["root", "rust", "Str"]), &namespace(&[])).unwrap();
    match got {
        TypeExpr::Reference(false, inner) => {
            assert_eq!(seg_names(&inner), vec!["str".to_string()]);
        }
        _ => panic!("expected &str"),
    }
}

#[test]
fn known_library_type_is_substituted() {
    let tc = TypeConverter::new();
    let raw = TypeExpr::Path(vec![
        PathSeg { name: "std".to_string(), args: Vec::new() },
        PathSeg { name: "unique_ptr".to_string(), args: vec![path(&["root", "T"])] },
    ]);
    let got = tc.convert_type(&raw, &namespace(&["ns"])).unwrap();
    match got {
        TypeExpr::Path(segs) => {
            assert_eq!(segs[0].name, "cxx");
            assert_eq!(segs[1].name, "UniquePtr");
            assert_eq!(
                seg_names(&segs[1].args[0]),
                vec!["root".to_string(), "T".to_string()]
            );
        }
        _ => panic!("expected a path"),
    }
}

#[test]
fn nonfinal_generic_args_are_fatal() {
    let tc = TypeConverter::new();
    let raw = TypeExpr::Path(vec![
        PathSeg { name: "root".to_string(), args: Vec::new() },
        PathSeg { name: "A".to_string(), args: vec![path(&["root", "T"])] },
        PathSeg { name: "B".to_string(), args: Vec::new() },
    ]);
    let err = tc.convert_type(&raw, &namespace(&[])).unwrap_err();
    assert_eq!(err, ConvertError::GenericArgsOnNonFinalSegment);
    assert!(err.is_fatal());
}

#[test]
fn opaque_shapes_pass_through() {
    let tc = TypeConverter::new();
    let got = tc.convert_type(&TypeExpr::Opaque, &namespace(&["ns"])).unwrap();
    assert!(matches!(got, TypeExpr::Opaque));
}

#[test]
fn converter_determinism_repeated_runs() {
    let run = || {
        let mut tc = TypeConverter::new();
        tc.push(name(&["Known"]));
        tc.insert_typedef(name(&["Alias"]), &path(&["Known"]));
        let ns = namespace(&["outer"]);
        let a = tc.convert_type(&path(&["Alias"]), &ns).unwrap();
        let b = tc.convert_type(&path(&["Fresh"]), &ns).unwrap();
        (seg_names(&a), seg_names(&b))
    };
    assert_eq!(run(), run());
}
