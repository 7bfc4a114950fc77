use codegen::ir::{FnType, Type};
use codegen::native::{to_prototype, NativeType};

// Each source type maps to zero or one native parameter; unmapped types
// are omitted, so typed and native arity may differ.
#[test]
fn parameters_are_mapped_and_filtered() {
    let params = vec![Type::I32, Type::Void, Type::Bool, Type::Never, Type::I32];
    let sig = to_prototype(&Type::I32, &params);
    assert_eq!(sig.params, vec![NativeType::I32, NativeType::I1, NativeType::I32]);
    assert_eq!(sig.ret, Some(NativeType::I32));
}

#[test]
fn void_and_never_returns_are_void() {
    let sig = to_prototype(&Type::Void, &vec![]);
    assert_eq!(sig.ret, None);
    assert_eq!(sig.params.len(), 0);
    let sig = to_prototype(&Type::Never, &vec![Type::Bool]);
    assert_eq!(sig.ret, None);
    assert_eq!(sig.params, vec![NativeType::I1]);
}

#[test]
fn function_types_map_to_pointers() {
    let fty = Type::Func(FnType { params: vec![Type::I32], ret: Box::new(Type::Void) });
    let sig = to_prototype(&Type::Bool, &vec![fty]);
    assert_eq!(sig.params, vec![NativeType::Ptr]);
    assert_eq!(sig.ret, Some(NativeType::I1));
}
