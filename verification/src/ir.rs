//! The typed intermediate representation this backend consumes.
//!
//! An upstream type checker produces a module of functions, each a list of
//! basic blocks of statements over dense, zero-based ids.  The backend
//! trusts that input completely: the well-formedness conditions spelled
//! out here (`wf_module` and friends) are the exact contract it relies on,
//! and every lowering precondition is stated in terms of them.

use vstd::prelude::*;

use crate::idmap::IndexOf;

verus! {

/// A mutable slot backed by native stack storage (or a function identity).
#[derive(Debug, Clone, Copy, PartialEq, Eq, Structural)]
pub struct VarId(pub usize);

/// A single-assignment slot holding one computed value or function
/// identity within a function's lowering.
#[derive(Debug, Clone, Copy, PartialEq, Eq, Structural)]
pub struct TmpId(pub usize);

/// A function of the typed module.
#[derive(Debug, Clone, Copy, PartialEq, Eq, Structural)]
pub struct FuncId(pub usize);

/// A basic block of one function.
#[derive(Debug, Clone, Copy, PartialEq, Eq, Structural)]
pub struct BlockId(pub usize);

impl IndexOf for VarId {
    open spec fn key(self) -> nat {
        self.0 as nat
    }

    fn index(self) -> usize {
        self.0
    }
}

impl IndexOf for TmpId {
    open spec fn key(self) -> nat {
        self.0 as nat
    }

    fn index(self) -> usize {
        self.0
    }
}

impl IndexOf for FuncId {
    open spec fn key(self) -> nat {
        self.0 as nat
    }

    fn index(self) -> usize {
        self.0
    }
}

impl IndexOf for BlockId {
    open spec fn key(self) -> nat {
        self.0 as nat
    }

    fn index(self) -> usize {
        self.0
    }
}

/// The closed set of source types the type checker resolves to.
#[derive(Debug)]
pub enum Type {
    I32,
    Bool,
    Void,
    Never,
    Func(FnType),
}

/// The signature carried by a function type.
#[derive(Debug)]
pub struct FnType {
    pub params: Vec<Type>,
    pub ret: Box<Type>,
}

/// A compile-time literal.
#[derive(Debug, Clone, Copy, PartialEq, Eq, Structural)]
pub enum ConstLiteral {
    I32(i32),
    Bool(bool),
}

/// The static type of a literal.
pub open spec fn literal_type(l: ConstLiteral) -> Type {
    match l {
        ConstLiteral::I32(_) => Type::I32,
        ConstLiteral::Bool(_) => Type::Bool,
    }
}

/// Binary operators of the source language.
#[derive(Debug, Clone, Copy, PartialEq, Eq, Structural)]
pub enum BinaryOp {
    Add,
    Sub,
    Mul,
    Div,
    Rem,
    Lt,
    Le,
    Gt,
    Ge,
    Eq,
    Neq,
    And,
    Or,
}

/// The operator table's domain and result type: which (operand type,
/// operator) pairs the backend lowers, and the type of the result.  Any
/// pair outside this table is an internal error the backend refuses by
/// precondition.
pub open spec fn op_result_type(ty: Type, op: BinaryOp) -> Option<Type> {
    match ty {
        Type::I32 => match op {
            BinaryOp::Add
            | BinaryOp::Sub
            | BinaryOp::Mul
            | BinaryOp::Div
            | BinaryOp::Rem => Some(Type::I32),
            BinaryOp::Lt
            | BinaryOp::Le
            | BinaryOp::Gt
            | BinaryOp::Ge
            | BinaryOp::Eq
            | BinaryOp::Neq => Some(Type::Bool),
            _ => None,
        },
        Type::Bool => match op {
            BinaryOp::And | BinaryOp::Or => Some(Type::Bool),
            _ => None,
        },
        _ => None,
    }
}

/// One statement of a basic block.  Each carries exactly one
/// producer/consumer contract, spelled out in `wf_stmt`.
#[derive(Debug)]
pub enum Statement {
    /// Materializes temporary `src` into a fresh stack slot bound to
    /// `dst`, or, if `src` denotes a function value, binds `dst` directly
    /// to that function identity.
    Let { dst: VarId, src: TmpId },
    /// Overwrites the value at `dst`'s existing stack slot.
    Store { dst: VarId, src: TmpId },
    /// Reads `src`'s slot into `dst`, or copies its function identity.
    Load { dst: TmpId, src: VarId },
    /// Binds `dst` to the bridge thunk already registered for the host
    /// function `src`.
    Host { dst: TmpId, src: FuncId },
    /// Binds `dst` to the native function already registered for `src`.
    Func { dst: TmpId, src: FuncId },
    /// Binds `dst` to a compile-time literal.
    Const { dst: TmpId, src: ConstLiteral },
    /// Binds `dst` to `lhs op rhs` under the type of `lhs`.
    BinExpr { dst: TmpId, lhs: TmpId, op: BinaryOp, rhs: TmpId },
    /// Calls the function identity held by `func` and binds `dst` to the
    /// result (a zero-sized unit value if the callee returns void).
    Call { dst: TmpId, func: TmpId, args: Vec<TmpId> },
    /// Terminator: return with a value.  Its lowering has no defined
    /// behaviour yet, a known gap; `wf_stmt` refuses it.
    Return { value: TmpId },
    /// Terminator: return from a void function.
    ReturnVoid,
    /// Terminator: branch to `id`.
    UnconditionalJump { id: BlockId },
    /// Terminator: branch on a boolean temporary.
    ConditionalJump { cond: TmpId, then_block: BlockId, else_block: BlockId },
}

/// A straight-line sequence of statements ending in one terminator.
#[derive(Debug)]
pub struct Block {
    pub stmts: Vec<Statement>,
}

/// One typed function: parameter and return types, typed slot tables for
/// variables and temporaries, and the body blocks (empty for host
/// functions, which exist only as bridge registrations).
#[derive(Debug)]
pub struct Function {
    pub params: Vec<Type>,
    pub ret: Type,
    pub is_host: bool,
    pub variables: Vec<Type>,
    pub temporaries: Vec<Type>,
    pub blocks: Vec<Block>,
}

impl Function {
    /// The static type of a variable slot.
    pub fn var(&self, id: VarId) -> (t: &Type)
        requires
            id.0 < self.variables@.len(),
        ensures
            *t == self.variables@[id.0 as int],
    {
        &self.variables[id.0]
    }

    /// The static type of a temporary slot.
    pub fn tmp(&self, id: TmpId) -> (t: &Type)
        requires
            id.0 < self.temporaries@.len(),
        ensures
            *t == self.temporaries@[id.0 as int],
    {
        &self.temporaries[id.0]
    }
}

/// The function type a `Host` or `Func` statement binds: the target
/// function's own signature.
pub open spec fn fn_sig_type(g: Function) -> Type {
    Type::Func(FnType { params: g.params, ret: Box::new(g.ret) })
}

/// The typed module: owner of all functions, host registrations kept
/// alongside lowered ones under one dense id space.
#[derive(Debug)]
pub struct TypedModule {
    pub functions: Vec<Function>,
}

impl TypedModule {
    /// An empty module.
    pub fn new() -> (m: Self)
        ensures
            m.functions@.len() == 0,
    {
        TypedModule { functions: Vec::new() }
    }

    /// All functions, indexed by `FuncId`.
    pub fn functions(&self) -> (r: &Vec<Function>)
        ensures
            r == &self.functions,
    {
        &self.functions
    }

    /// Registers a host function's typed signature and returns its fresh
    /// dense id.
    pub fn add_host(&mut self, ret: Type, params: Vec<Type>) -> (id: FuncId)
        ensures
            id.0 == old(self).functions@.len(),
            final(self).functions@.len() == old(self).functions@.len() + 1,
            final(self).functions@.drop_last() == old(self).functions@,
            final(self).functions@.last().params == params,
            final(self).functions@.last().ret == ret,
            final(self).functions@.last().is_host,
            final(self).functions@.last().variables@.len() == 0,
            final(self).functions@.last().temporaries@.len() == 0,
            final(self).functions@.last().blocks@.len() == 0,
    {
        let id = FuncId(self.functions.len());
        self.functions.push(
            Function {
                params: params,
                ret: ret,
                is_host: true,
                variables: Vec::new(),
                temporaries: Vec::new(),
                blocks: Vec::new(),
            },
        );
        id
    }
}

/// Whether a statement is a control-transfer statement.
pub open spec fn is_terminator(s: Statement) -> bool {
    match s {
        Statement::Return { .. } => true,
        Statement::ReturnVoid => true,
        Statement::UnconditionalJump { .. } => true,
        Statement::ConditionalJump { .. } => true,
        _ => false,
    }
}

/// Whether `s` binds temporary `t`.
pub open spec fn writes_tmp(s: Statement, t: int) -> bool {
    match s {
        Statement::Load { dst, .. } => dst.0 == t,
        Statement::Host { dst, .. } => dst.0 == t,
        Statement::Func { dst, .. } => dst.0 == t,
        Statement::Const { dst, .. } => dst.0 == t,
        Statement::BinExpr { dst, .. } => dst.0 == t,
        Statement::Call { dst, .. } => dst.0 == t,
        _ => false,
    }
}

/// Whether `s` binds variable `v`.
pub open spec fn writes_var(s: Statement, v: int) -> bool {
    match s {
        Statement::Let { dst, .. } => dst.0 == v,
        _ => false,
    }
}

/// Whether some statement of `stmts` binds temporary `t`.
pub open spec fn tmp_def_seq(stmts: Seq<Statement>, t: int) -> bool
    decreases stmts.len(),
{
    stmts.len() > 0 && (writes_tmp(stmts.last(), t) || tmp_def_seq(stmts.drop_last(), t))
}

/// Whether some statement of the first `b` blocks binds temporary `t`.
pub open spec fn tmp_def_blocks(blocks: Seq<Block>, b: int, t: int) -> bool
    decreases b,
{
    b > 0 && (tmp_def_seq(blocks[b - 1].stmts@, t) || tmp_def_blocks(blocks, b - 1, t))
}

/// Whether temporary `t` is bound before position `i` of block `b`, in
/// the order the backend walks statements (blocks in ascending id order,
/// statements in order within each block).
pub open spec fn tmp_def_at(f: Function, b: int, i: int, t: int) -> bool {
    tmp_def_blocks(f.blocks@, b, t) || tmp_def_seq(f.blocks@[b].stmts@.take(i), t)
}

/// Whether some statement of `stmts` binds variable `v`.
pub open spec fn var_def_seq(stmts: Seq<Statement>, v: int) -> bool
    decreases stmts.len(),
{
    stmts.len() > 0 && (writes_var(stmts.last(), v) || var_def_seq(stmts.drop_last(), v))
}

/// Whether some statement of the first `b` blocks binds variable `v`.
pub open spec fn var_def_blocks(blocks: Seq<Block>, b: int, v: int) -> bool
    decreases b,
{
    b > 0 && (var_def_seq(blocks[b - 1].stmts@, v) || var_def_blocks(blocks, b - 1, v))
}

/// Whether variable `v` is bound before position `i` of block `b`.
pub open spec fn var_def_at(f: Function, b: int, i: int, v: int) -> bool {
    var_def_blocks(f.blocks@, b, v) || var_def_seq(f.blocks@[b].stmts@.take(i), v)
}

/// The per-statement producer/consumer contract: ids in range, slot types
/// consistent, operator pairs inside the table, functions never stored,
/// passed as plain arguments, returned from calls, or branched on.
pub open spec fn wf_stmt(funcs: Seq<Function>, f: Function, s: Statement) -> bool {
    match s {
        Statement::Let { dst, src } => {
            &&& dst.0 < f.variables@.len()
            &&& src.0 < f.temporaries@.len()
            &&& f.variables@[dst.0 as int] == f.temporaries@[src.0 as int]
        },
        Statement::Store { dst, src } => {
            &&& dst.0 < f.variables@.len()
            &&& src.0 < f.temporaries@.len()
            &&& !(f.variables@[dst.0 as int] is Func)
            &&& f.variables@[dst.0 as int] == f.temporaries@[src.0 as int]
        },
        Statement::Load { dst, src } => {
            &&& dst.0 < f.temporaries@.len()
            &&& src.0 < f.variables@.len()
            &&& f.temporaries@[dst.0 as int] == f.variables@[src.0 as int]
        },
        Statement::Host { dst, src } => {
            &&& dst.0 < f.temporaries@.len()
            &&& src.0 < funcs.len()
            &&& funcs[src.0 as int].is_host
            &&& f.temporaries@[dst.0 as int] == fn_sig_type(funcs[src.0 as int])
        },
        Statement::Func { dst, src } => {
            &&& dst.0 < f.temporaries@.len()
            &&& src.0 < funcs.len()
            &&& !funcs[src.0 as int].is_host
            &&& f.temporaries@[dst.0 as int] == fn_sig_type(funcs[src.0 as int])
        },
        Statement::Const { dst, src } => {
            &&& dst.0 < f.temporaries@.len()
            &&& f.temporaries@[dst.0 as int] == literal_type(src)
        },
        Statement::BinExpr { dst, lhs, op, rhs } => {
            &&& dst.0 < f.temporaries@.len()
            &&& lhs.0 < f.temporaries@.len()
            &&& rhs.0 < f.temporaries@.len()
            &&& f.temporaries@[lhs.0 as int] == f.temporaries@[rhs.0 as int]
            &&& op_result_type(f.temporaries@[lhs.0 as int], op) is Some
            &&& Some(f.temporaries@[dst.0 as int]) == op_result_type(
                f.temporaries@[lhs.0 as int],
                op,
            )
        },
        Statement::Call { dst, func, args } => {
            &&& dst.0 < f.temporaries@.len()
            &&& func.0 < f.temporaries@.len()
            &&& match f.temporaries@[func.0 as int] {
                Type::Func(ft) => {
                    &&& args@.len() == ft.params@.len()
                    &&& forall|j: int|
                        0 <= j < args@.len() ==> {
                            &&& (#[trigger] args@[j]).0 < f.temporaries@.len()
                            &&& f.temporaries@[args@[j].0 as int] == ft.params@[j]
                            &&& !(ft.params@[j] is Func)
                            &&& !(ft.params@[j] is Void)
                            &&& !(ft.params@[j] is Never)
                        }
                    &&& f.temporaries@[dst.0 as int] == *ft.ret
                    &&& !(*ft.ret is Func)
                },
                _ => false,
            }
        },
        Statement::Return { .. } => false,
        Statement::ReturnVoid => f.ret is Void || f.ret is Never,
        Statement::UnconditionalJump { id } => id.0 < f.blocks@.len(),
        Statement::ConditionalJump { cond, then_block, else_block } => {
            &&& cond.0 < f.temporaries@.len()
            &&& f.temporaries@[cond.0 as int] is Bool
            &&& then_block.0 < f.blocks@.len()
            &&& else_block.0 < f.blocks@.len()
        },
    }
}

/// Every slot a statement reads is bound earlier in walking order, so the
/// backend's dense maps never see a read of an unset slot.
pub open spec fn stmt_reads_ok(f: Function, b: int, i: int) -> bool {
    match f.blocks@[b].stmts@[i] {
        Statement::Let { src, .. } => tmp_def_at(f, b, i, src.0 as int),
        Statement::Store { dst, src } => {
            &&& var_def_at(f, b, i, dst.0 as int)
            &&& tmp_def_at(f, b, i, src.0 as int)
        },
        Statement::Load { src, .. } => var_def_at(f, b, i, src.0 as int),
        Statement::BinExpr { lhs, rhs, .. } => {
            &&& tmp_def_at(f, b, i, lhs.0 as int)
            &&& tmp_def_at(f, b, i, rhs.0 as int)
        },
        Statement::Call { func, args, .. } => {
            &&& tmp_def_at(f, b, i, func.0 as int)
            &&& forall|j: int|
                0 <= j < args@.len() ==> tmp_def_at(f, b, i, (#[trigger] args@[j]).0 as int)
        },
        Statement::ConditionalJump { cond, .. } => tmp_def_at(f, b, i, cond.0 as int),
        _ => true,
    }
}

/// A well-formed block: non-empty, ends in exactly one terminator, no
/// terminator anywhere before the end, every statement well formed.
pub open spec fn wf_block(funcs: Seq<Function>, f: Function, b: Block) -> bool {
    &&& b.stmts@.len() > 0
    &&& is_terminator(b.stmts@.last())
    &&& forall|i: int| 0 <= i < b.stmts@.len() - 1 ==> !is_terminator(#[trigger] b.stmts@[i])
    &&& forall|i: int| 0 <= i < b.stmts@.len() ==> wf_stmt(funcs, f, #[trigger] b.stmts@[i])
}

/// A well-formed function body: at least the entry block (block 0), every
/// block well formed, every read preceded by a binding.
pub open spec fn wf_function(funcs: Seq<Function>, f: Function) -> bool {
    &&& f.blocks@.len() > 0
    &&& forall|b: int| 0 <= b < f.blocks@.len() ==> wf_block(funcs, f, #[trigger] f.blocks@[b])
    &&& forall|b: int, i: int|
        0 <= b < f.blocks@.len() && 0 <= i < f.blocks@[b].stmts@.len() ==> #[trigger] stmt_reads_ok(
            f,
            b,
            i,
        )
}

/// A well-formed module: every non-host function has a well-formed body.
pub open spec fn wf_module(funcs: Seq<Function>) -> bool {
    forall|k: int|
        0 <= k < funcs.len() && !funcs[k].is_host ==> wf_function(funcs, #[trigger] funcs[k])
}

} // verus!
