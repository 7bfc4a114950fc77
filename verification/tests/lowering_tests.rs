use codegen::bridge::HostFnDesc;
use codegen::eval::{eval_function, RtVal};
use codegen::lower::SlotValue;
use codegen::ir::{
    BinaryOp, Block, BlockId, ConstLiteral, FnType, FuncId, Function, Statement, TmpId, Type, VarId,
};
use codegen::modgen::ModuleGen;
use codegen::native::{
    Inst, NativeBlock, NativeDef, NativeFunction, NativeModule, NativeOp, NativeSig, Terminator,
};

fn fn_ty(params: Vec<Type>, ret: Type) -> Type {
    Type::Func(FnType { params, ret: Box::new(ret) })
}

// One block: t0 = 5; t1 = 7; t2 = t0 + t1; return.  Lowers without error
// and the whole module passes structural verification; the result is
// discarded, since value returns have no lowering yet.
#[test]
fn scenario_one_block_add() {
    let f = Function {
        params: vec![],
        ret: Type::Void,
        is_host: false,
        variables: vec![],
        temporaries: vec![Type::I32, Type::I32, Type::I32],
        blocks: vec![Block {
            stmts: vec![
                Statement::Const { dst: TmpId(0), src: ConstLiteral::I32(5) },
                Statement::Const { dst: TmpId(1), src: ConstLiteral::I32(7) },
                Statement::BinExpr {
                    dst: TmpId(2),
                    lhs: TmpId(0),
                    op: BinaryOp::Add,
                    rhs: TmpId(1),
                },
                Statement::ReturnVoid,
            ],
        }],
    };
    let mut mg = ModuleGen::new();
    let r = mg.add(vec![f], FuncId(0));
    assert!(matches!(r, Ok(FuncId(0))));
    assert!(mg.native.verify());
    let body = &mg.native.defs[0].body;
    // prologue plus the one lowered block
    assert_eq!(body.blocks.len(), 2);
    assert!(matches!(body.blocks[0].term, Some(Terminator::Br { to: 1 })));
    assert_eq!(body.blocks[0].instrs.len(), 0);
    assert_eq!(body.blocks[1].instrs.len(), 3);
    assert!(matches!(body.blocks[1].instrs[0], Inst::ConstI32 { dst: 0, val: 5 }));
    assert!(matches!(body.blocks[1].instrs[1], Inst::ConstI32 { dst: 1, val: 7 }));
    assert!(matches!(
        body.blocks[1].instrs[2],
        Inst::Bin { dst: 2, op: NativeOp::Add, lhs: 0, rhs: 1 }
    ));
    assert!(matches!(body.blocks[1].term, Some(Terminator::RetVoid)));
    // and it runs to completion under the reference semantics
    let out = eval_function(&mg.native, 0, &vec![], &vec![], 100).unwrap();
    assert_eq!(out.calls.len(), 0);
    assert_eq!(out.ret, None);
}

// Builds `t2 = a op b` and reports the value through a host probe, so the
// computed result is observable.
fn run_arith(a: i32, b: i32, op: BinaryOp) -> Option<RtVal> {
    let mut mg = ModuleGen::new();
    let arith = matches!(
        op,
        BinaryOp::Add | BinaryOp::Sub | BinaryOp::Mul | BinaryOp::Div | BinaryOp::Rem
    );
    // the probe's parameter type follows the operator's result type
    let probe_param = || if arith { Type::I32 } else { Type::Bool };
    let result_ty = if arith { Type::I32 } else { Type::Bool };
    mg.add_host("probe", HostFnDesc { addr: 0xbeef, ret: Type::Void, params: vec![probe_param()] })
        .unwrap();
    let f = Function {
        params: vec![],
        ret: Type::Void,
        is_host: false,
        variables: vec![],
        temporaries: vec![
            Type::I32,
            Type::I32,
            result_ty,
            fn_ty(vec![probe_param()], Type::Void),
            Type::Void,
        ],
        blocks: vec![Block {
            stmts: vec![
                Statement::Const { dst: TmpId(0), src: ConstLiteral::I32(a) },
                Statement::Const { dst: TmpId(1), src: ConstLiteral::I32(b) },
                Statement::BinExpr { dst: TmpId(2), lhs: TmpId(0), op, rhs: TmpId(1) },
                Statement::Host { dst: TmpId(3), src: FuncId(0) },
                Statement::Call { dst: TmpId(4), func: TmpId(3), args: vec![TmpId(2)] },
                Statement::ReturnVoid,
            ],
        }],
    };
    mg.add(vec![f], FuncId(1)).unwrap();
    assert!(mg.native.verify());
    let out = eval_function(&mg.native, 1, &vec![], &vec![RtVal::Unit], 1000)?;
    assert_eq!(out.calls.len(), 1);
    assert_eq!(out.calls[0].addr, 0xbeef);
    assert_eq!(out.calls[0].args.len(), 1);
    Some(out.calls[0].args[0])
}

// Round-trip arithmetic: lowering two constants and one operation and
// executing yields native signed 32-bit arithmetic.
#[test]
fn arithmetic_round_trip() {
    assert_eq!(run_arith(5, 7, BinaryOp::Add), Some(RtVal::Int(12)));
    assert_eq!(run_arith(i32::MAX, 1, BinaryOp::Add), Some(RtVal::Int(i32::MIN)));
    assert_eq!(run_arith(5, 7, BinaryOp::Sub), Some(RtVal::Int(-2)));
    assert_eq!(run_arith(-4, 6, BinaryOp::Mul), Some(RtVal::Int(-24)));
    assert_eq!(run_arith(-8, 3, BinaryOp::Div), Some(RtVal::Int(-2)));
    assert_eq!(run_arith(7, -2, BinaryOp::Div), Some(RtVal::Int(-3)));
    assert_eq!(run_arith(-8, 3, BinaryOp::Rem), Some(RtVal::Int(-2)));
    assert_eq!(run_arith(7, 3, BinaryOp::Rem), Some(RtVal::Int(1)));
    // native signed division traps on a zero divisor and on the one
    // overflowing pair; the reference semantics has no result there
    assert_eq!(run_arith(7, 0, BinaryOp::Div), None);
    assert_eq!(run_arith(7, 0, BinaryOp::Rem), None);
    assert_eq!(run_arith(i32::MIN, -1, BinaryOp::Div), None);
}

#[test]
fn comparison_operators() {
    assert_eq!(run_arith(3, 5, BinaryOp::Lt), Some(RtVal::Bit(true)));
    assert_eq!(run_arith(5, 3, BinaryOp::Lt), Some(RtVal::Bit(false)));
    assert_eq!(run_arith(3, 3, BinaryOp::Le), Some(RtVal::Bit(true)));
    assert_eq!(run_arith(3, 3, BinaryOp::Ge), Some(RtVal::Bit(true)));
    assert_eq!(run_arith(2, 3, BinaryOp::Ge), Some(RtVal::Bit(false)));
    assert_eq!(run_arith(3, 3, BinaryOp::Eq), Some(RtVal::Bit(true)));
    assert_eq!(run_arith(3, 4, BinaryOp::Neq), Some(RtVal::Bit(true)));
}

// The operator table lowers `Gt` with the same predicate as `Lt`; this
// pins that long-standing behaviour so any change to it is deliberate.
#[test]
fn gt_lowers_like_lt() {
    assert_eq!(run_arith(3, 5, BinaryOp::Gt), Some(RtVal::Bit(true)));
    assert_eq!(run_arith(5, 3, BinaryOp::Gt), Some(RtVal::Bit(false)));
}

// Two blocks joined by a conditional jump on `true && false`: execution
// must take the else branch.
#[test]
fn scenario_conditional_jump_takes_else() {
    let mut mg = ModuleGen::new();
    mg.add_host("mark", HostFnDesc { addr: 0x77, ret: Type::Void, params: vec![Type::I32] })
        .unwrap();
    let mark = fn_ty(vec![Type::I32], Type::Void);
    let f = Function {
        params: vec![],
        ret: Type::Void,
        is_host: false,
        variables: vec![],
        temporaries: vec![
            Type::Bool,
            Type::Bool,
            Type::Bool,
            mark,
            Type::I32,
            Type::Void,
            fn_ty(vec![Type::I32], Type::Void),
            Type::I32,
            Type::Void,
        ],
        blocks: vec![
            Block {
                stmts: vec![
                    Statement::Const { dst: TmpId(0), src: ConstLiteral::Bool(true) },
                    Statement::Const { dst: TmpId(1), src: ConstLiteral::Bool(false) },
                    Statement::BinExpr {
                        dst: TmpId(2),
                        lhs: TmpId(0),
                        op: BinaryOp::And,
                        rhs: TmpId(1),
                    },
                    Statement::ConditionalJump {
                        cond: TmpId(2),
                        then_block: BlockId(1),
                        else_block: BlockId(2),
                    },
                ],
            },
            Block {
                stmts: vec![
                    Statement::Host { dst: TmpId(3), src: FuncId(0) },
                    Statement::Const { dst: TmpId(4), src: ConstLiteral::I32(1) },
                    Statement::Call { dst: TmpId(5), func: TmpId(3), args: vec![TmpId(4)] },
                    Statement::UnconditionalJump { id: BlockId(3) },
                ],
            },
            Block {
                stmts: vec![
                    Statement::Host { dst: TmpId(6), src: FuncId(0) },
                    Statement::Const { dst: TmpId(7), src: ConstLiteral::I32(2) },
                    Statement::Call { dst: TmpId(8), func: TmpId(6), args: vec![TmpId(7)] },
                    Statement::UnconditionalJump { id: BlockId(3) },
                ],
            },
            Block { stmts: vec![Statement::ReturnVoid] },
        ],
    };
    mg.add(vec![f], FuncId(1)).unwrap();
    assert!(mg.native.verify());
    let out = eval_function(&mg.native, 1, &vec![], &vec![RtVal::Unit], 1000).unwrap();
    assert_eq!(out.calls.len(), 1);
    assert_eq!(out.calls[0].addr, 0x77);
    assert_eq!(out.calls[0].args, vec![RtVal::Int(2)]);
}

// A stack slot written by Let, overwritten by Store, read back by Load:
// the last stored value is what the probe sees, and every allocation
// stands in the prologue block.
#[test]
fn let_store_load() {
    let mut mg = ModuleGen::new();
    mg.add_host("probe2", HostFnDesc { addr: 0xaa, ret: Type::Void, params: vec![Type::I32] })
        .unwrap();
    let f = Function {
        params: vec![],
        ret: Type::Void,
        is_host: false,
        variables: vec![Type::I32],
        temporaries: vec![
            Type::I32,
            Type::I32,
            Type::I32,
            fn_ty(vec![Type::I32], Type::Void),
            Type::Void,
        ],
        blocks: vec![Block {
            stmts: vec![
                Statement::Const { dst: TmpId(0), src: ConstLiteral::I32(5) },
                Statement::Let { dst: VarId(0), src: TmpId(0) },
                Statement::Const { dst: TmpId(1), src: ConstLiteral::I32(9) },
                Statement::Store { dst: VarId(0), src: TmpId(1) },
                Statement::Load { dst: TmpId(2), src: VarId(0) },
                Statement::Host { dst: TmpId(3), src: FuncId(0) },
                Statement::Call { dst: TmpId(4), func: TmpId(3), args: vec![TmpId(2)] },
                Statement::ReturnVoid,
            ],
        }],
    };
    mg.add(vec![f], FuncId(1)).unwrap();
    assert!(mg.native.verify());
    let body = &mg.native.defs[1].body;
    // the stack allocation lives in the prologue; nothing else does
    assert_eq!(body.blocks[0].instrs.len(), 1);
    assert!(matches!(body.blocks[0].instrs[0], Inst::Alloca { .. }));
    for b in 1..body.blocks.len() {
        for inst in &body.blocks[b].instrs {
            assert!(!matches!(inst, Inst::Alloca { .. }));
        }
    }
    let out = eval_function(&mg.native, 1, &vec![], &vec![RtVal::Unit], 1000).unwrap();
    assert_eq!(out.calls.len(), 1);
    assert_eq!(out.calls[0].args, vec![RtVal::Int(9)]);
}

// A defined function bound as a value by `Func` and called: forward
// resolution through the function table.
#[test]
fn call_defined_function() {
    let callee = Function {
        params: vec![],
        ret: Type::Void,
        is_host: false,
        variables: vec![],
        temporaries: vec![],
        blocks: vec![Block { stmts: vec![Statement::ReturnVoid] }],
    };
    let main = Function {
        params: vec![],
        ret: Type::Void,
        is_host: false,
        variables: vec![],
        temporaries: vec![fn_ty(vec![], Type::Void), Type::Void],
        blocks: vec![Block {
            stmts: vec![
                Statement::Func { dst: TmpId(0), src: FuncId(0) },
                Statement::Call { dst: TmpId(1), func: TmpId(0), args: vec![] },
                Statement::ReturnVoid,
            ],
        }],
    };
    let mut mg = ModuleGen::new();
    mg.add(vec![callee, main], FuncId(1)).unwrap();
    assert!(mg.native.verify());
    let out = eval_function(&mg.native, 1, &vec![], &vec![], 1000).unwrap();
    assert_eq!(out.calls.len(), 0);
    assert_eq!(out.ret, None);
}

// Structural verification rejects a module with an unterminated block.
#[test]
fn verify_rejects_unterminated_block() {
    let m = NativeModule {
        defs: vec![NativeDef {
            sig: NativeSig { params: vec![], ret: None },
            body: NativeFunction {
                n_params: 0,
                vals: vec![],
                blocks: vec![NativeBlock { instrs: vec![], term: None }],
            },
        }],
    };
    assert!(!m.verify());
}

// The compiled representation of a binding follows its static type: a
// function-typed temporary is always a function reference, any other is
// always a materialized value.
#[test]
fn function_identity_purity() {
    let callee = Function {
        params: vec![],
        ret: Type::Void,
        is_host: false,
        variables: vec![],
        temporaries: vec![],
        blocks: vec![Block { stmts: vec![Statement::ReturnVoid] }],
    };
    let main = Function {
        params: vec![],
        ret: Type::Void,
        is_host: false,
        variables: vec![fn_ty(vec![], Type::Void)],
        temporaries: vec![fn_ty(vec![], Type::Void), Type::I32, fn_ty(vec![], Type::Void)],
        blocks: vec![Block {
            stmts: vec![
                Statement::Func { dst: TmpId(0), src: FuncId(0) },
                Statement::Const { dst: TmpId(1), src: ConstLiteral::I32(3) },
                // binding a function-typed temporary allocates no slot
                Statement::Let { dst: VarId(0), src: TmpId(0) },
                Statement::Load { dst: TmpId(2), src: VarId(0) },
                Statement::ReturnVoid,
            ],
        }],
    };
    let mut mg = ModuleGen::new();
    mg.add(vec![callee, main], FuncId(1)).unwrap();
    assert!(mg.native.verify());
    // the per-function maps still hold the last function's bindings
    assert!(matches!(mg.lowerer.tmp_map.get(TmpId(0)), SlotValue::FunctionRef(0)));
    assert!(matches!(mg.lowerer.tmp_map.get(TmpId(1)), SlotValue::Value(_)));
    assert!(matches!(mg.lowerer.tmp_map.get(TmpId(2)), SlotValue::FunctionRef(0)));
    assert!(matches!(mg.lowerer.var_map.get(VarId(0)), SlotValue::FunctionRef(0)));
    // and no stack slot was allocated for the function binding
    assert_eq!(mg.native.defs[1].body.blocks[0].instrs.len(), 0);
}

// Functions from a later `add` call can call functions from an earlier
// one through the persistent function table.
#[test]
fn add_accumulates_across_calls() {
    let first = Function {
        params: vec![],
        ret: Type::Void,
        is_host: false,
        variables: vec![],
        temporaries: vec![],
        blocks: vec![Block { stmts: vec![Statement::ReturnVoid] }],
    };
    let second = Function {
        params: vec![],
        ret: Type::Void,
        is_host: false,
        variables: vec![],
        temporaries: vec![fn_ty(vec![], Type::Void), Type::Void],
        blocks: vec![Block {
            stmts: vec![
                Statement::Func { dst: TmpId(0), src: FuncId(0) },
                Statement::Call { dst: TmpId(1), func: TmpId(0), args: vec![] },
                Statement::ReturnVoid,
            ],
        }],
    };
    let mut mg = ModuleGen::new();
    mg.add(vec![first], FuncId(0)).unwrap();
    assert_eq!(mg.native.defs.len(), 1);
    mg.add(vec![second], FuncId(1)).unwrap();
    assert_eq!(mg.native.defs.len(), 2);
    assert!(mg.native.verify());
    let out = eval_function(&mg.native, 1, &vec![], &vec![], 1000).unwrap();
    assert_eq!(out.ret, None);
    assert_eq!(out.calls.len(), 0);
}

// Structural verification rejects a call whose arity does not match the
// callee's signature.
#[test]
fn verify_rejects_bad_call_arity() {
    let m = NativeModule {
        defs: vec![
            NativeDef {
                sig: NativeSig { params: vec![codegen::native::NativeType::I32], ret: None },
                body: NativeFunction {
                    n_params: 1,
                    vals: vec![codegen::native::NativeType::I32],
                    blocks: vec![NativeBlock { instrs: vec![], term: Some(Terminator::RetVoid) }],
                },
            },
            NativeDef {
                sig: NativeSig { params: vec![], ret: None },
                body: NativeFunction {
                    n_params: 0,
                    vals: vec![codegen::native::NativeType::Unit],
                    blocks: vec![NativeBlock {
                        // the callee takes one argument; none is passed
                        instrs: vec![Inst::Call { dst: 0, callee: 0, args: vec![] }],
                        term: Some(Terminator::RetVoid),
                    }],
                },
            },
        ],
    };
    assert!(!m.verify());
}

// An unconditional self-loop never returns; the reference evaluator runs
// out of fuel instead of hanging.
#[test]
fn loop_exhausts_fuel() {
    let f = Function {
        params: vec![],
        ret: Type::Void,
        is_host: false,
        variables: vec![],
        temporaries: vec![],
        blocks: vec![Block { stmts: vec![Statement::UnconditionalJump { id: BlockId(0) }] }],
    };
    let mut mg = ModuleGen::new();
    mg.add(vec![f], FuncId(0)).unwrap();
    assert!(mg.verify_module());
    assert!(eval_function(&mg.native, 0, &vec![], &vec![], 50).is_none());
}
