use codegen::Error;

#[test]
fn error_messages() {
    assert_eq!(Error::NoMainFn.describe(), "no main function");
    assert_eq!(Error::InvalidMainFn.describe(), "invalid main function signature");
    assert_eq!(
        Error::StaticRedefined("f".to_string()).describe(),
        "static `f` already defined"
    );
    assert_eq!(
        Error::VariableNotFound("x".to_string()).describe(),
        "variable `x` not found"
    );
    assert_eq!(Error::Type("mismatched types".to_string()).describe(), "mismatched types");
}
