use typebridge::{ConvertError, MethodOverload, OverloadTracker, split_name};

#[test]
fn test_by_function() {
    let mut ot = OverloadTracker::new();
    assert_eq!(
        ot.get_function_real_name("job"),
        MethodOverload::new("job".into(), "job".into())
    );
    assert_eq!(
        ot.get_function_real_name("job1"),
        MethodOverload::new("job".into(), "job1".into())
    );
    assert_eq!(
        ot.get_function_real_name("job2"),
        MethodOverload::new("job".into(), "job2".into())
    );
    assert_eq!(
        ot.get_function_real_name("job24"),
        MethodOverload::new("job24".into(), "job24".into())
    );
    assert_eq!(
        ot.get_function_real_name("fish1"),
        MethodOverload::new("fish1".into(), "fish1".into())
    );
    assert_eq!(
        ot.get_function_real_name("fish2"),
        MethodOverload::new("fish2".into(), "fish2".into())
    );
}

#[test]
fn test_by_method() {
    let mut ot = OverloadTracker::new();
    assert_eq!(
        ot.get_method_real_name("A", "do"),
        MethodOverload::new("do".into(), "do".into())
    );
    assert_eq!(
        ot.get_method_real_name("A", "do1"),
        MethodOverload::new("do".into(), "do1".into())
    );
    assert_eq!(
        ot.get_method_real_name("A", "dog"),
        MethodOverload::new("dog".into(), "dog".into())
    );
    assert_eq!(
        ot.get_method_real_name("A", "dog1"),
        MethodOverload::new("dog".into(), "dog1".into())
    );
    assert_eq!(
        ot.get_method_real_name("B", "do2"),
        MethodOverload::new("do".into(), "do".into())
    );
    assert_eq!(
        ot.get_method_real_name("B", "do3"),
        MethodOverload::new("do".into(), "do1".into())
    );
    assert_eq!(
        ot.get_method_real_name("C", "do2"),
        MethodOverload::new("do2".into(), "do2".into())
    );
    assert_eq!(
        ot.get_function_real_name("C_do2"),
        MethodOverload::new("C_do2".into(), "C_do2".into())
    );
}

#[test]
fn split_no_suffix() {
    assert_eq!(split_name("job").unwrap(), ("job".to_string(), 0));
}

#[test]
fn split_single_digit_suffix() {
    assert_eq!(split_name("job1").unwrap(), ("job".to_string(), 1));
}

#[test]
fn split_multi_digit_suffix() {
    assert_eq!(split_name("job24").unwrap(), ("job".to_string(), 24));
}

#[test]
fn split_all_digits_is_fatal() {
    let r = split_name("123");
    assert_eq!(r, Err(ConvertError::AllNumericIdentifier));
    assert!(r.unwrap_err().is_fatal());
}

#[test]
fn split_counter_at_usize_limit() {
    let raw = format!("x{}", usize::MAX);
    let (prefix, counter) = split_name(&raw).unwrap();
    assert_eq!(prefix, "x");
    assert_eq!(counter, usize::MAX);
}

#[test]
fn split_empty_is_fatal() {
    assert_eq!(split_name(""), Err(ConvertError::AllNumericIdentifier));
}

#[test]
fn tracker_determinism_repeated_runs() {
    let run = || {
        let mut ot = OverloadTracker::new();
        let mut outputs: Vec<MethodOverload> = Vec::new();
        outputs.push(ot.get_function_real_name("get"));
        outputs.push(ot.get_function_real_name("get1"));
        outputs.push(ot.get_method_real_name("A", "get2"));
        outputs.push(ot.get_method_real_name("B", "get3"));
        outputs.push(ot.get_function_real_name("put7"));
        outputs
    };
    assert_eq!(run(), run());
}
