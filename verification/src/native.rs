//! The native-instruction program the lowering produces.
//!
//! Instead of opaque backend handles, the compiled form of a module is
//! explicit data: functions of numbered value slots and blocks of
//! instructions.  An embedding host replays this program through its
//! machine-code backend; everything stated about it here is checked.

use vstd::prelude::*;

use crate::ir::Type;

verus! {

/// A native value type: 32-bit integer, 1-bit integer, pointer-sized
/// integer word, pointer, or the zero-sized unit aggregate.
#[derive(Debug, Clone, Copy, PartialEq, Eq, Structural)]
pub enum NativeType {
    I32,
    I1,
    Word,
    Ptr,
    Unit,
}

/// A native calling-convention signature.  `ret` of `None` is a void
/// function.
#[derive(Debug)]
pub struct NativeSig {
    pub params: Vec<NativeType>,
    pub ret: Option<NativeType>,
}

/// The native parameter a source type maps to, if any: a source type that
/// maps to no native parameter is omitted from native parameter lists.
pub open spec fn native_param_of(t: Type) -> Option<NativeType> {
    match t {
        Type::I32 => Some(NativeType::I32),
        Type::Bool => Some(NativeType::I1),
        Type::Void => None,
        Type::Never => None,
        Type::Func(_) => Some(NativeType::Ptr),
    }
}

/// The native return slot a source type maps to; `None` is a void return.
pub open spec fn native_ret_of(t: Type) -> Option<NativeType> {
    match t {
        Type::I32 => Some(NativeType::I32),
        Type::Bool => Some(NativeType::I1),
        Type::Void => None,
        Type::Never => None,
        Type::Func(_) => Some(NativeType::Ptr),
    }
}

/// The native value type of a non-function slot of the given source type.
pub open spec fn native_val_ty(t: Type) -> NativeType {
    match native_param_of(t) {
        Some(n) => n,
        None => NativeType::Unit,
    }
}

/// The native parameter list of an ordered source parameter list: each
/// type mapped, unmapped types omitted.
pub open spec fn params_sig(ps: Seq<Type>) -> Seq<NativeType>
    decreases ps.len(),
{
    if ps.len() == 0 {
        Seq::empty()
    } else {
        let rest = params_sig(ps.drop_last());
        match native_param_of(ps.last()) {
            Some(t) => rest.push(t),
            None => rest,
        }
    }
}

/// The native parameter list is never longer than the source list.
pub proof fn lemma_params_sig_len(ps: Seq<Type>)
    ensures
        params_sig(ps).len() <= ps.len(),
    decreases ps.len(),
{
    if ps.len() > 0 {
        lemma_params_sig_len(ps.drop_last());
    }
}

/// Whether `sig` is the native signature of `(params) -> ret`.
pub open spec fn sig_matches(sig: NativeSig, params: Seq<Type>, ret: Type) -> bool {
    &&& sig.params@ == params_sig(params)
    &&& sig.ret == native_ret_of(ret)
}

/// Builds the native signature for a typed function signature.  Parameter
/// types that map to no native parameter are omitted, not an error, so the
/// typed arity and the native arity may differ.
pub fn to_prototype(ret: &Type, params: &Vec<Type>) -> (s: NativeSig)
    ensures
        sig_matches(s, params@, *ret),
{
    let mut nps: Vec<NativeType> = Vec::new();
    let mut i: usize = 0;
    while i < params.len()
        invariant
            i <= params@.len(),
            nps@ == params_sig(params@.take(i as int)),
        decreases params@.len() - i,
    {
        match &params[i] {
            Type::I32 => nps.push(NativeType::I32),
            Type::Bool => nps.push(NativeType::I1),
            Type::Void => (),
            Type::Never => (),
            Type::Func(_) => nps.push(NativeType::Ptr),
        }
        i = i + 1;
        proof {
            assert(params@.take(i as int).drop_last() =~= params@.take(i - 1));
            assert(params@.take(i as int).last() == params@[i - 1]);
        }
    }
    proof {
        assert(params@.take(params@.len() as int) =~= params@);
    }
    let r = match ret {
        Type::I32 => Some(NativeType::I32),
        Type::Bool => Some(NativeType::I1),
        Type::Void => None,
        Type::Never => None,
        Type::Func(_) => Some(NativeType::Ptr),
    };
    NativeSig { params: nps, ret: r }
}

/// The native value type of a non-function slot, as a machine value.
pub fn val_ty_of(t: &Type) -> (r: NativeType)
    ensures
        r == native_val_ty(*t),
{
    match t {
        Type::I32 => NativeType::I32,
        Type::Bool => NativeType::I1,
        Type::Void => NativeType::Unit,
        Type::Never => NativeType::Unit,
        Type::Func(_) => NativeType::Ptr,
    }
}

/// A numbered value slot inside one native function: parameters first,
/// then one slot per value-producing instruction.
pub type ValId = usize;

/// Native binary operations.  Comparisons carry the exact predicate the
/// operator table picks; note that the source operator `Gt` is lowered
/// with `CmpSlt`, the same predicate as `Lt` — a long-standing quirk of
/// the operator table that is kept as it stands rather than silently
/// corrected.
#[derive(Debug, Clone, Copy, PartialEq, Eq, Structural)]
pub enum NativeOp {
    Add,
    Sub,
    Mul,
    SDiv,
    SRem,
    And,
    Or,
    CmpEq,
    CmpNe,
    CmpSlt,
    CmpSle,
    CmpSge,
}

/// One native instruction.  Value-producing instructions name the fresh
/// slot `dst` they define.
#[derive(Debug)]
pub enum Inst {
    /// Reserves one stack slot for a value of type `ty`; `dst` is the
    /// slot's address.
    Alloca { dst: ValId, ty: NativeType },
    /// Writes the value `src` through the pointer `ptr`.
    Store { ptr: ValId, src: ValId },
    /// Reads a value of type `ty` through the pointer `ptr` into `dst`.
    Load { dst: ValId, ty: NativeType, ptr: ValId },
    /// A 32-bit integer constant.
    ConstI32 { dst: ValId, val: i32 },
    /// A 1-bit integer constant.
    ConstBool { dst: ValId, val: bool },
    /// A pointer-sized integer constant.
    ConstWord { dst: ValId, val: usize },
    /// The zero-sized unit aggregate, standing in for the result of a
    /// void call.
    ConstUnit { dst: ValId },
    /// `dst = lhs op rhs`.
    Bin { dst: ValId, op: NativeOp, lhs: ValId, rhs: ValId },
    /// A direct call of the module's function `callee`.
    Call { dst: ValId, callee: usize, args: Vec<ValId> },
    /// An indirect call through the fixed host address `addr`, whose real
    /// native signature is `sig`.
    CallPtr { dst: ValId, addr: usize, sig: NativeSig, args: Vec<ValId> },
}

/// A block's single control-transfer instruction.
#[derive(Debug, Clone, Copy, PartialEq, Eq, Structural)]
pub enum Terminator {
    Br { to: usize },
    CondBr { cond: ValId, then_to: usize, else_to: usize },
    Ret { val: ValId },
    RetVoid,
}

/// One native basic block: instructions, then exactly one terminator
/// (`None` only while the block is still being built).
#[derive(Debug)]
pub struct NativeBlock {
    pub instrs: Vec<Inst>,
    pub term: Option<Terminator>,
}

/// One native function body: `n_params` leading value slots hold the
/// parameters, `vals` records every slot's type, and block 0 is the
/// entry.
#[derive(Debug)]
pub struct NativeFunction {
    pub n_params: usize,
    pub vals: Vec<NativeType>,
    pub blocks: Vec<NativeBlock>,
}

/// A completed native function together with its visible signature.
#[derive(Debug)]
pub struct NativeDef {
    pub sig: NativeSig,
    pub body: NativeFunction,
}

/// The native module: all completed functions, indexed by the same ids
/// the function table hands out.
#[derive(Debug)]
pub struct NativeModule {
    pub defs: Vec<NativeDef>,
}

/// The value type a call result slot has: the return type, or unit for a
/// void callee.
pub open spec fn result_val_ty(ret: Option<NativeType>) -> NativeType {
    match ret {
        Some(t) => t,
        None => NativeType::Unit,
    }
}

/// The signatures of all functions of a module, for checking direct
/// calls.
pub open spec fn module_sigs(defs: Seq<NativeDef>) -> Seq<NativeSig> {
    Seq::new(defs.len(), |k: int| defs[k].sig)
}

/// Structural well-formedness of one instruction: operands in range and
/// of consistent types, calls matching their callee's signature.
pub open spec fn wf_inst(sigs: Seq<NativeSig>, vals: Seq<NativeType>, inst: Inst) -> bool {
    match inst {
        Inst::Alloca { dst, ty } => dst < vals.len() && vals[dst as int] is Ptr,
        Inst::Store { ptr, src } => {
            &&& ptr < vals.len()
            &&& src < vals.len()
            &&& vals[ptr as int] is Ptr
        },
        Inst::Load { dst, ty, ptr } => {
            &&& dst < vals.len()
            &&& ptr < vals.len()
            &&& vals[ptr as int] is Ptr
            &&& vals[dst as int] == ty
        },
        Inst::ConstI32 { dst, .. } => dst < vals.len() && vals[dst as int] is I32,
        Inst::ConstBool { dst, .. } => dst < vals.len() && vals[dst as int] is I1,
        Inst::ConstWord { dst, .. } => dst < vals.len() && vals[dst as int] is Word,
        Inst::ConstUnit { dst } => dst < vals.len() && vals[dst as int] is Unit,
        Inst::Bin { dst, op, lhs, rhs } => {
            &&& dst < vals.len()
            &&& lhs < vals.len()
            &&& rhs < vals.len()
            &&& match op {
                NativeOp::Add | NativeOp::Sub | NativeOp::Mul | NativeOp::SDiv | NativeOp::SRem => {
                    &&& vals[lhs as int] is I32
                    &&& vals[rhs as int] is I32
                    &&& vals[dst as int] is I32
                },
                NativeOp::And | NativeOp::Or => {
                    &&& vals[lhs as int] is I1
                    &&& vals[rhs as int] is I1
                    &&& vals[dst as int] is I1
                },
                NativeOp::CmpEq
                | NativeOp::CmpNe
                | NativeOp::CmpSlt
                | NativeOp::CmpSle
                | NativeOp::CmpSge => {
                    &&& vals[lhs as int] is I32
                    &&& vals[rhs as int] is I32
                    &&& vals[dst as int] is I1
                },
            }
        },
        Inst::Call { dst, callee, args } => {
            &&& dst < vals.len()
            &&& callee < sigs.len()
            &&& args@.len() == sigs[callee as int].params@.len()
            &&& forall|j: int|
                0 <= j < args@.len() ==> #[trigger] args@[j] < vals.len() && vals[args@[j] as int]
                    == sigs[callee as int].params@[j]
            &&& vals[dst as int] == result_val_ty(sigs[callee as int].ret)
        },
        Inst::CallPtr { dst, addr, sig, args } => {
            &&& dst < vals.len()
            &&& args@.len() == sig.params@.len()
            &&& forall|j: int|
                0 <= j < args@.len() ==> #[trigger] args@[j] < vals.len() && vals[args@[j] as int]
                    == sig.params@[j]
            &&& vals[dst as int] == result_val_ty(sig.ret)
        },
    }
}

/// Structural well-formedness of a terminator: targets in range, the
/// branch condition a 1-bit value, returns matching the signature.
pub open spec fn wf_term(
    sig_ret: Option<NativeType>,
    vals: Seq<NativeType>,
    nblocks: int,
    t: Terminator,
) -> bool {
    match t {
        Terminator::Br { to } => to < nblocks,
        Terminator::CondBr { cond, then_to, else_to } => {
            &&& cond < vals.len()
            &&& vals[cond as int] is I1
            &&& then_to < nblocks
            &&& else_to < nblocks
        },
        Terminator::Ret { val } => val < vals.len() && sig_ret == Some(vals[val as int]),
        Terminator::RetVoid => sig_ret is None,
    }
}

/// Structural well-formedness of a completed block: terminated exactly
/// once, every instruction well formed.
pub open spec fn wf_native_block(
    sigs: Seq<NativeSig>,
    sig_ret: Option<NativeType>,
    vals: Seq<NativeType>,
    nblocks: int,
    b: NativeBlock,
) -> bool {
    &&& match b.term {
        Some(t) => wf_term(sig_ret, vals, nblocks, t),
        None => false,
    }
    &&& forall|i: int| 0 <= i < b.instrs@.len() ==> wf_inst(sigs, vals, #[trigger] b.instrs@[i])
}

/// Structural well-formedness of a whole native function: parameter slots
/// agree with the signature, at least one block, every block well formed.
pub open spec fn wf_native_fn(sigs: Seq<NativeSig>, sig: NativeSig, nf: NativeFunction) -> bool {
    &&& nf.n_params == sig.params@.len()
    &&& nf.vals@.len() >= nf.n_params
    &&& nf.vals@.take(nf.n_params as int) == sig.params@
    &&& nf.blocks@.len() > 0
    &&& forall|b: int|
        0 <= b < nf.blocks@.len() ==> wf_native_block(
            sigs,
            sig.ret,
            nf.vals@,
            nf.blocks@.len() as int,
            #[trigger] nf.blocks@[b],
        )
}

/// Structural well-formedness of the whole native module.
pub open spec fn wf_native_module(defs: Seq<NativeDef>) -> bool {
    forall|k: int|
        0 <= k < defs.len() ==> wf_native_fn(
            module_sigs(defs),
            defs[k].sig,
            (#[trigger] defs[k]).body,
        )
}

/// A well-formed instruction stays well formed when the module's
/// signature table grows at the end.
pub proof fn lemma_wf_inst_sigs_extend(
    sigs1: Seq<NativeSig>,
    sigs2: Seq<NativeSig>,
    vals: Seq<NativeType>,
    inst: Inst,
)
    requires
        wf_inst(sigs1, vals, inst),
        sigs1.is_prefix_of(sigs2),
    ensures
        wf_inst(sigs2, vals, inst),
{
    assert forall|d: int| 0 <= d < sigs1.len() implies sigs1[d] == #[trigger] sigs2[d] by {
        assert(sigs2.subrange(0, sigs1.len() as int)[d] == sigs2[d]);
    }
}

/// A well-formed function stays well formed when the module's signature
/// table grows at the end.
pub proof fn lemma_wf_fn_sigs_extend(
    sigs1: Seq<NativeSig>,
    sigs2: Seq<NativeSig>,
    sig: NativeSig,
    nf: NativeFunction,
)
    requires
        wf_native_fn(sigs1, sig, nf),
        sigs1.is_prefix_of(sigs2),
    ensures
        wf_native_fn(sigs2, sig, nf),
{
    assert forall|b: int|
        0 <= b < nf.blocks@.len() implies wf_native_block(
        sigs2,
        sig.ret,
        nf.vals@,
        nf.blocks@.len() as int,
        #[trigger] nf.blocks@[b],
    ) by {
        assert(wf_native_block(sigs1, sig.ret, nf.vals@, nf.blocks@.len() as int, nf.blocks@[b]));
        assert forall|i: int|
            0 <= i < nf.blocks@[b].instrs@.len() implies wf_inst(
            sigs2,
            nf.vals@,
            #[trigger] nf.blocks@[b].instrs@[i],
        ) by {
            lemma_wf_inst_sigs_extend(sigs1, sigs2, nf.vals@, nf.blocks@[b].instrs@[i]);
        }
    }
}

/// The stack-slot discipline of a lowered function body: every `Alloca`
/// stands in the dedicated prologue block (block 0), which holds nothing
/// else and branches straight into the lowered entry block (block 1).
/// Every use of a stack slot therefore executes only after its
/// allocation.
pub open spec fn alloca_discipline(nf: NativeFunction) -> bool {
    &&& nf.blocks@.len() >= 2
    &&& forall|i: int|
        0 <= i < nf.blocks@[0].instrs@.len() ==> (#[trigger] nf.blocks@[0].instrs@[i]) is Alloca
    &&& nf.blocks@[0].term == Some(Terminator::Br { to: 1 })
    &&& forall|b: int, i: int|
        1 <= b < nf.blocks@.len() && 0 <= i < nf.blocks@[b].instrs@.len() ==> !((
        #[trigger] nf.blocks@[b].instrs@[i]) is Alloca)
}

/// Checks one instruction against the value table and the module's
/// signatures.
fn check_inst(defs: &Vec<NativeDef>, vals: &Vec<NativeType>, inst: &Inst) -> (r: bool)
    ensures
        r == wf_inst(module_sigs(defs@), vals@, *inst),
{
    match inst {
        Inst::Alloca { dst, ty: _ } => *dst < vals.len() && matches!(vals[*dst], NativeType::Ptr),
        Inst::Store { ptr, src } => *ptr < vals.len() && *src < vals.len() && matches!(
            vals[*ptr],
            NativeType::Ptr,
        ),
        Inst::Load { dst, ty, ptr } => *dst < vals.len() && *ptr < vals.len() && matches!(
            vals[*ptr],
            NativeType::Ptr,
        ) && vals[*dst] == *ty,
        Inst::ConstI32 { dst, .. } => *dst < vals.len() && matches!(vals[*dst], NativeType::I32),
        Inst::ConstBool { dst, .. } => *dst < vals.len() && matches!(vals[*dst], NativeType::I1),
        Inst::ConstWord { dst, .. } => *dst < vals.len() && matches!(vals[*dst], NativeType::Word),
        Inst::ConstUnit { dst } => *dst < vals.len() && matches!(vals[*dst], NativeType::Unit),
        Inst::Bin { dst, op, lhs, rhs } => {
            if !(*dst < vals.len() && *lhs < vals.len() && *rhs < vals.len()) {
                return false;
            }
            match op {
                NativeOp::Add | NativeOp::Sub | NativeOp::Mul | NativeOp::SDiv | NativeOp::SRem => {
                    matches!(vals[*lhs], NativeType::I32) && matches!(vals[*rhs], NativeType::I32)
                        && matches!(vals[*dst], NativeType::I32)
                },
                NativeOp::And | NativeOp::Or => {
                    matches!(vals[*lhs], NativeType::I1) && matches!(vals[*rhs], NativeType::I1)
                        && matches!(vals[*dst], NativeType::I1)
                },
                NativeOp::CmpEq
                | NativeOp::CmpNe
                | NativeOp::CmpSlt
                | NativeOp::CmpSle
                | NativeOp::CmpSge => {
                    matches!(vals[*lhs], NativeType::I32) && matches!(vals[*rhs], NativeType::I32)
                        && matches!(vals[*dst], NativeType::I1)
                },
            }
        },
        Inst::Call { dst, callee, args } => {
            if !(*dst < vals.len() && *callee < defs.len()) {
                return false;
            }
            let sig = &defs[*callee].sig;
            proof {
                assert(module_sigs(defs@)[*callee as int] == defs@[*callee as int].sig);
            }
            check_args(vals, args, &sig.params) && check_result(vals, *dst, &sig.ret)
        },
        Inst::CallPtr { dst, addr: _, sig, args } => {
            if !(*dst < vals.len()) {
                return false;
            }
            check_args(vals, args, &sig.params) && check_result(vals, *dst, &sig.ret)
        },
    }
}

/// Checks a call's argument list against a parameter list.
fn check_args(vals: &Vec<NativeType>, args: &Vec<ValId>, params: &Vec<NativeType>) -> (r: bool)
    ensures
        r == (args@.len() == params@.len() && forall|j: int|
            0 <= j < args@.len() ==> #[trigger] args@[j] < vals@.len() && vals@[args@[j] as int]
                == params@[j]),
{
    if args.len() != params.len() {
        return false;
    }
    let n = args.len();
    let mut j: usize = 0;
    while j < n
        invariant
            j <= n,
            n == args@.len(),
            n == params@.len(),
            forall|k: int|
                0 <= k < j ==> #[trigger] args@[k] < vals@.len() && vals@[args@[k] as int]
                    == params@[k],
        decreases n - j,
    {
        if !(args[j] < vals.len()) {
            return false;
        }
        if !(vals[args[j]] == params[j]) {
            return false;
        }
        j = j + 1;
    }
    true
}

/// Checks a call's result slot against the callee's return slot.
fn check_result(vals: &Vec<NativeType>, dst: ValId, ret: &Option<NativeType>) -> (r: bool)
    requires
        dst < vals@.len(),
    ensures
        r == (vals@[dst as int] == result_val_ty(*ret)),
{
    match ret {
        Some(t) => vals[dst] == *t,
        None => matches!(vals[dst], NativeType::Unit),
    }
}

/// Checks one terminator against the signature's return slot and the
/// block count.
fn check_term(
    ret: &Option<NativeType>,
    vals: &Vec<NativeType>,
    nblocks: usize,
    t: &Terminator,
) -> (r: bool)
    ensures
        r == wf_term(*ret, vals@, nblocks as int, *t),
{
    match t {
        Terminator::Br { to } => *to < nblocks,
        Terminator::CondBr { cond, then_to, else_to } => *cond < vals.len() && matches!(
            vals[*cond],
            NativeType::I1,
        ) && *then_to < nblocks && *else_to < nblocks,
        Terminator::Ret { val } => {
            if !(*val < vals.len()) {
                return false;
            }
            match ret {
                Some(t) => vals[*val] == *t,
                None => false,
            }
        },
        Terminator::RetVoid => matches!(ret, None),
    }
}

/// Checks one completed function against its signature: parameter slots,
/// every block terminated, every instruction and terminator well formed.
fn check_fn(defs: &Vec<NativeDef>, sig: &NativeSig, nf: &NativeFunction) -> (r: bool)
    ensures
        r == wf_native_fn(module_sigs(defs@), *sig, *nf),
{
    let np = sig.params.len();
    if nf.n_params != np {
        return false;
    }
    if nf.vals.len() < np {
        return false;
    }
    let mut j: usize = 0;
    while j < np
        invariant
            j <= np,
            np == sig.params@.len(),
            np <= nf.vals@.len(),
            forall|k: int| 0 <= k < j ==> nf.vals@[k] == sig.params@[k],
        decreases np - j,
    {
        if !(nf.vals[j] == sig.params[j]) {
            proof {
                assert(nf.vals@.take(np as int)[j as int] != sig.params@[j as int]);
            }
            return false;
        }
        j = j + 1;
    }
    proof {
        assert(nf.vals@.take(np as int) =~= sig.params@);
    }
    if nf.blocks.len() == 0 {
        return false;
    }
    let nb = nf.blocks.len();
    let mut b: usize = 0;
    while b < nb
        invariant
            b <= nb,
            nb == nf.blocks@.len(),
            nf.vals@.take(sig.params@.len() as int) == sig.params@,
            nf.n_params == sig.params@.len(),
            nf.vals@.len() >= nf.n_params,
            nb > 0,
            forall|k: int|
                0 <= k < b ==> wf_native_block(
                    module_sigs(defs@),
                    sig.ret,
                    nf.vals@,
                    nb as int,
                    #[trigger] nf.blocks@[k],
                ),
        decreases nb - b,
    {
        let blk = &nf.blocks[b];
        match &blk.term {
            Some(t) => {
                if !check_term(&sig.ret, &nf.vals, nb, t) {
                    return false;
                }
            },
            None => {
                return false;
            },
        }
        let ni = blk.instrs.len();
        let mut i: usize = 0;
        while i < ni
            invariant
                i <= ni,
                ni == blk.instrs@.len(),
                blk == &nf.blocks@[b as int],
                b < nf.blocks@.len(),
                forall|k: int|
                    0 <= k < i ==> wf_inst(module_sigs(defs@), nf.vals@, #[trigger] blk.instrs@[k]),
            decreases ni - i,
        {
            if !check_inst(defs, &nf.vals, &blk.instrs[i]) {
                return false;
            }
            i = i + 1;
        }
        b = b + 1;
    }
    true
}

impl NativeModule {
    /// Structural verification of the whole native module: every function
    /// well formed against its signature and the module's call table.
    /// Failure means the code generator produced ill-formed code — an
    /// internal defect, never a user-input error; the lowering paths of
    /// this crate establish the same condition by proof, so a module they
    /// built always passes.
    pub fn verify(&self) -> (r: bool)
        ensures
            r == wf_native_module(self.defs@),
    {
        let n = self.defs.len();
        let mut k: usize = 0;
        while k < n
            invariant
                k <= n,
                n == self.defs@.len(),
                forall|d: int|
                    0 <= d < k ==> wf_native_fn(
                        module_sigs(self.defs@),
                        (#[trigger] self.defs@[d]).sig,
                        self.defs@[d].body,
                    ),
            decreases n - k,
        {
            let def = &self.defs[k];
            if !check_fn(&self.defs, &def.sig, &def.body) {
                return false;
            }
            k = k + 1;
        }
        true
    }
}

} // verus!
