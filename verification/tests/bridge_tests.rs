use codegen::bridge::HostFnDesc;
use codegen::eval::{eval_function, RtVal};
use codegen::ir::{Block, ConstLiteral, FnType, FuncId, Function, Statement, TmpId, Type};
use codegen::modgen::ModuleGen;
use codegen::native::{Inst, Terminator};
use codegen::Error;

fn host_fn_ty(params: Vec<Type>, ret: Type) -> Type {
    Type::Func(FnType { params, ret: Box::new(ret) })
}

// Registering the same name twice fails with StaticRedefined on the
// second call and leaves the first registration intact.
#[test]
fn scenario_redefined_static() {
    let mut mg = ModuleGen::new();
    let r1 = mg.add_host("f", HostFnDesc { addr: 0x1000, ret: Type::I32, params: vec![Type::I32] });
    assert!(r1.is_ok());
    let r2 = mg.add_host("f", HostFnDesc { addr: 0x2000, ret: Type::I32, params: vec![] });
    match r2 {
        Err(Error::StaticRedefined(n)) => assert_eq!(n, "f"),
        _ => panic!("second registration must be refused"),
    }
    // the first registration is untouched: one name, one typed function,
    // one thunk, still pointing at the first address
    assert_eq!(mg.names.len(), 1);
    assert_eq!(mg.types.functions.len(), 1);
    assert_eq!(mg.native.defs.len(), 1);
    match &mg.native.defs[0].body.blocks[0].instrs[0] {
        Inst::CallPtr { addr, .. } => assert_eq!(*addr, 0x1000),
        _ => panic!("thunk body must be a single indirect call"),
    }
    // a different name is fine
    assert!(mg.add_host("g", HostFnDesc { addr: 0x2000, ret: Type::Void, params: vec![] }).is_ok());
    assert_eq!(mg.names.len(), 2);
}

// The plain thunk forwards its own parameters unchanged to the raw host
// address and returns the host's reply: registering f(x: i32) -> i32 and
// calling it with 41 performs exactly one host call with argument 41, and
// the caller observes the reply 42.
#[test]
fn bridge_transparency() {
    let mut mg = ModuleGen::new();
    mg.add_host("inc", HostFnDesc { addr: 0x1000, ret: Type::I32, params: vec![Type::I32] })
        .unwrap();
    mg.add_host("check", HostFnDesc { addr: 0x2000, ret: Type::Void, params: vec![Type::I32] })
        .unwrap();
    // thunk shape: one indirect call forwarding parameter 0, returning
    // its result
    let thunk = &mg.native.defs[0].body;
    assert_eq!(thunk.blocks.len(), 1);
    assert_eq!(thunk.blocks[0].instrs.len(), 1);
    match &thunk.blocks[0].instrs[0] {
        Inst::CallPtr { dst, addr, args, .. } => {
            assert_eq!(*addr, 0x1000);
            assert_eq!(args, &vec![0]);
            assert_eq!(*dst, 1);
        },
        _ => panic!("expected an indirect call"),
    }
    assert!(matches!(thunk.blocks[0].term, Some(Terminator::Ret { val: 1 })));

    let f = Function {
        params: vec![],
        ret: Type::Void,
        is_host: false,
        variables: vec![],
        temporaries: vec![
            host_fn_ty(vec![Type::I32], Type::I32),
            Type::I32,
            Type::I32,
            host_fn_ty(vec![Type::I32], Type::Void),
            Type::Void,
        ],
        blocks: vec![Block {
            stmts: vec![
                Statement::Host { dst: TmpId(0), src: FuncId(0) },
                Statement::Const { dst: TmpId(1), src: ConstLiteral::I32(41) },
                Statement::Call { dst: TmpId(2), func: TmpId(0), args: vec![TmpId(1)] },
                Statement::Host { dst: TmpId(3), src: FuncId(1) },
                Statement::Call { dst: TmpId(4), func: TmpId(3), args: vec![TmpId(2)] },
                Statement::ReturnVoid,
            ],
        }],
    };
    mg.add(vec![f], FuncId(2)).unwrap();
    assert!(mg.native.verify());
    // the host replies 42 to the first call and Unit to the second
    let replies = vec![RtVal::Int(42), RtVal::Unit];
    let out = eval_function(&mg.native, 2, &vec![], &replies, 1000).unwrap();
    assert_eq!(out.calls.len(), 2);
    assert_eq!(out.calls[0].addr, 0x1000);
    assert_eq!(out.calls[0].args, vec![RtVal::Int(41)]);
    // the generated caller observed exactly the host's reply
    assert_eq!(out.calls[1].addr, 0x2000);
    assert_eq!(out.calls[1].args, vec![RtVal::Int(42)]);
}

// Two userdata bindings over the same raw address but distinct userdata
// words are independently callable, each forwarding only its own word.
#[test]
fn userdata_isolation() {
    let mut mg = ModuleGen::new();
    mg.add_host_userdata("c1", 0x3000, 11, Type::I32, vec![]).unwrap();
    mg.add_host_userdata("c2", 0x3000, 22, Type::I32, vec![]).unwrap();
    // each thunk embeds its own word as a constant
    for (d, u) in [(0usize, 11usize), (1, 22)] {
        let body = &mg.native.defs[d].body;
        assert_eq!(body.blocks[0].instrs.len(), 2);
        match &body.blocks[0].instrs[0] {
            Inst::ConstWord { val, .. } => assert_eq!(*val, u),
            _ => panic!("expected the embedded userdata constant"),
        }
        match &body.blocks[0].instrs[1] {
            Inst::CallPtr { addr, args, .. } => {
                assert_eq!(*addr, 0x3000);
                assert_eq!(args, &vec![0]);
            },
            _ => panic!("expected an indirect call"),
        }
    }
    let f = Function {
        params: vec![],
        ret: Type::Void,
        is_host: false,
        variables: vec![],
        temporaries: vec![
            host_fn_ty(vec![], Type::I32),
            Type::I32,
            host_fn_ty(vec![], Type::I32),
            Type::I32,
        ],
        blocks: vec![Block {
            stmts: vec![
                Statement::Host { dst: TmpId(0), src: FuncId(0) },
                Statement::Call { dst: TmpId(1), func: TmpId(0), args: vec![] },
                Statement::Host { dst: TmpId(2), src: FuncId(1) },
                Statement::Call { dst: TmpId(3), func: TmpId(2), args: vec![] },
                Statement::ReturnVoid,
            ],
        }],
    };
    mg.add(vec![f], FuncId(2)).unwrap();
    assert!(mg.native.verify());
    let replies = vec![RtVal::Int(1), RtVal::Int(2)];
    let out = eval_function(&mg.native, 2, &vec![], &replies, 1000).unwrap();
    assert_eq!(out.calls.len(), 2);
    assert_eq!(out.calls[0].addr, 0x3000);
    assert_eq!(out.calls[0].args, vec![RtVal::Word(11)]);
    assert_eq!(out.calls[1].addr, 0x3000);
    assert_eq!(out.calls[1].args, vec![RtVal::Word(22)]);
}

// A void host function's thunk ends in a void return.
#[test]
fn void_thunk_returns_nothing() {
    let mut mg = ModuleGen::new();
    mg.add_host("log", HostFnDesc { addr: 0x4000, ret: Type::Void, params: vec![Type::I32] })
        .unwrap();
    let body = &mg.native.defs[0].body;
    assert!(matches!(body.blocks[0].term, Some(Terminator::RetVoid)));
    assert!(mg.native.verify());
}
