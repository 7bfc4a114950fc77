//! The function lowerer: walks one typed function's blocks and statements
//! and emits the native instructions, maintaining three dense index maps
//! (temporaries, variables, blocks) and a dual-builder discipline — stack
//! allocations go to a dedicated prologue block while ordinary
//! instructions go to the block being lowered.

use vstd::prelude::*;

use crate::idmap::{IdMap, IndexOf};
use crate::ir::{
    fn_sig_type, is_terminator, op_result_type, stmt_reads_ok, tmp_def_at, tmp_def_blocks,
    tmp_def_seq, var_def_at, var_def_blocks, var_def_seq, wf_block, wf_function, wf_stmt,
    writes_tmp, writes_var, BinaryOp, BlockId, ConstLiteral, FuncId, Function, Statement, TmpId,
    Type, VarId,
};
use crate::native::{
    alloca_discipline, native_param_of, native_ret_of, native_val_ty, params_sig, result_val_ty,
    sig_matches, to_prototype, val_ty_of, wf_inst, wf_native_block, wf_native_fn, wf_term, Inst, NativeBlock,
    NativeFunction, NativeOp, NativeSig, NativeType, Terminator, ValId,
};

verus! {

/// The compiled representation of a temporary or variable binding: either
/// a materialized native value (for temporaries) or a stack-slot pointer
/// (for variables), or a reference to a callable native function.  A
/// binding whose static type is a function type is always `FunctionRef`;
/// all other types are always `Value`.  No native bit pattern ever stands
/// for a function as data.
#[derive(Debug, Clone, Copy, PartialEq, Eq, Structural)]
pub enum SlotValue {
    Value(ValId),
    FunctionRef(usize),
}

/// The reusable per-function lowering state: the three dense maps, kept
/// across functions (cleared, never shrunk) to amortize allocation.
pub struct Lowerer {
    pub tmp_map: IdMap<TmpId, SlotValue>,
    pub var_map: IdMap<VarId, SlotValue>,
    pub block_map: IdMap<BlockId, usize>,
}

impl Lowerer {
    /// Fresh lowering state with empty maps.
    pub fn new() -> (r: Self)
        ensures
            r.tmp_map.cap() == 0,
            r.var_map.cap() == 0,
            r.block_map.cap() == 0,
    {
        Lowerer { tmp_map: IdMap::new(), var_map: IdMap::new(), block_map: IdMap::new() }
    }
}

/// What a temporary's map entry must look like: a function-typed
/// temporary holds a reference to a native function of the matching
/// signature, anything else holds a value slot of its native type.
pub open spec fn tmp_slot_ok(
    f: Function,
    sigs: Seq<NativeSig>,
    vals: Seq<NativeType>,
    t: int,
    sv: SlotValue,
) -> bool {
    match f.temporaries@[t] {
        Type::Func(ft) => sv matches SlotValue::FunctionRef(d) && d < sigs.len()
            && sigs[d as int].params@ == params_sig(ft.params@) && sigs[d as int].ret
            == native_ret_of(*ft.ret),
        _ => sv matches SlotValue::Value(v) && v < vals.len() && vals[v as int] == native_val_ty(
            f.temporaries@[t],
        ),
    }
}

/// What a variable's map entry must look like: a function-typed variable
/// holds a function reference, anything else holds the pointer to its
/// stack slot.
pub open spec fn var_slot_ok(
    f: Function,
    sigs: Seq<NativeSig>,
    vals: Seq<NativeType>,
    x: int,
    sv: SlotValue,
) -> bool {
    match f.variables@[x] {
        Type::Func(ft) => sv matches SlotValue::FunctionRef(d) && d < sigs.len()
            && sigs[d as int].params@ == params_sig(ft.params@) && sigs[d as int].ret
            == native_ret_of(*ft.ret),
        _ => sv matches SlotValue::Value(p) && p < vals.len() && vals[p as int] is Ptr,
    }
}

/// The three maps' invariant at position (`b`, `i`) of the walk: exactly
/// the slots bound before that position are set, every set slot respects
/// the function/value split, and the block map sends block `j` to native
/// block `j + 1`.
pub open spec fn maps_ok(
    low: Lowerer,
    f: Function,
    sigs: Seq<NativeSig>,
    vals: Seq<NativeType>,
    b: int,
    i: int,
) -> bool {
    &&& low.tmp_map.cap() >= f.temporaries@.len()
    &&& low.var_map.cap() >= f.variables@.len()
    &&& low.block_map.cap() >= f.blocks@.len()
    &&& forall|j: int|
        0 <= j < f.blocks@.len() ==> ((#[trigger] low.block_map.slots()[j]) matches Some(w) && w
            == j + 1)
    &&& forall|t: int|
        0 <= t < f.temporaries@.len() ==> ((#[trigger] low.tmp_map.slots()[t]) is Some
            <==> tmp_def_at(f, b, i, t))
    &&& forall|t: int|
        0 <= t < f.temporaries@.len() ==> match #[trigger] low.tmp_map.slots()[t] {
            Some(sv) => tmp_slot_ok(f, sigs, vals, t, sv),
            None => true,
        }
    &&& forall|x: int|
        0 <= x < f.variables@.len() ==> ((#[trigger] low.var_map.slots()[x]) is Some <==> var_def_at(
            f,
            b,
            i,
            x,
        ))
    &&& forall|x: int|
        0 <= x < f.variables@.len() ==> match #[trigger] low.var_map.slots()[x] {
            Some(sv) => var_slot_ok(f, sigs, vals, x, sv),
            None => true,
        }
}

/// The function table's invariant: every typed function is registered,
/// and its entry points at a native function of the matching signature.
pub open spec fn funcs_map_ok(
    funcs: IdMap<FuncId, usize>,
    tfuncs: Seq<Function>,
    sigs: Seq<NativeSig>,
) -> bool {
    &&& funcs.cap() >= tfuncs.len()
    &&& forall|k: int|
        0 <= k < tfuncs.len() ==> ((#[trigger] funcs.slots()[k]) matches Some(d) && d < sigs.len()
            && sig_matches(sigs[d as int], tfuncs[k].params@, tfuncs[k].ret))
}

/// The native terminator a source terminator statement lowers to.
pub open spec fn term_corresponds(s: Statement, t: Terminator) -> bool {
    match s {
        Statement::ReturnVoid => t == Terminator::RetVoid,
        Statement::UnconditionalJump { id } => t matches Terminator::Br { to } && to == id.0 + 1,
        Statement::ConditionalJump { cond, then_block, else_block } => t matches Terminator::CondBr {
            cond: _,
            then_to,
            else_to,
        } && then_to == then_block.0 + 1 && else_to == else_block.0 + 1,
        _ => false,
    }
}

/// A native function under construction: the prologue's stack
/// allocations, the completed blocks, the block being filled, and the
/// value-slot type table.  The ghost fields pin the module signatures,
/// this function's own signature and the source function the builder is
/// lowering.
pub struct FnBuilder {
    pub n_params: usize,
    pub vals: Vec<NativeType>,
    pub prologue: Vec<Inst>,
    pub done: Vec<NativeBlock>,
    pub cur: Vec<Inst>,
    pub sigs: Ghost<Seq<NativeSig>>,
    pub gsig: Ghost<NativeSig>,
    pub gf: Ghost<Function>,
    pub gfmap: Ghost<Seq<Option<usize>>>,
}

/// A completed block `k`: terminated by the native terminator its source
/// block's final statement corresponds to, every instruction well formed,
/// and no stack allocation outside the prologue.
pub open spec fn completed_ok(
    sigs: Seq<NativeSig>,
    ret: Option<NativeType>,
    vals: Seq<NativeType>,
    f: Function,
    blk: NativeBlock,
    k: int,
) -> bool {
    &&& blk.term matches Some(t) && wf_term(ret, vals, f.blocks@.len() + 1 as int, t) && term_corresponds(
        f.blocks@[k].stmts@.last(),
        t,
    )
    &&& forall|i: int|
        0 <= i < blk.instrs@.len() ==> !((#[trigger] blk.instrs@[i]) is Alloca) && wf_inst(
            sigs,
            vals,
            blk.instrs@[i],
        )
}

/// The builder's running invariant.
pub open spec fn builder_ok(bld: FnBuilder) -> bool {
    let sigs = bld.sigs@;
    let sig = bld.gsig@;
    let f = bld.gf@;
    &&& sig_matches(sig, f.params@, f.ret)
    &&& bld.n_params == sig.params@.len()
    &&& bld.vals@.len() >= bld.n_params
    &&& bld.vals@.take(bld.n_params as int) == sig.params@
    &&& forall|j: int|
        0 <= j < bld.prologue@.len() ==> (#[trigger] bld.prologue@[j]) is Alloca && wf_inst(
            sigs,
            bld.vals@,
            bld.prologue@[j],
        )
    &&& bld.done@.len() <= f.blocks@.len()
    &&& forall|k: int|
        0 <= k < bld.done@.len() ==> completed_ok(sigs, sig.ret, bld.vals@, f, #[trigger] bld.done@[k], k)
    &&& forall|j: int|
        0 <= j < bld.cur@.len() ==> !((#[trigger] bld.cur@[j]) is Alloca) && wf_inst(
            sigs,
            bld.vals@,
            bld.cur@[j],
        )
}

/// A well-formed instruction stays well formed when the value table grows.
pub proof fn lemma_wf_inst_push(
    sigs: Seq<NativeSig>,
    vals: Seq<NativeType>,
    ty: NativeType,
    inst: Inst,
)
    requires
        wf_inst(sigs, vals, inst),
    ensures
        wf_inst(sigs, vals.push(ty), inst),
{
    let vals2 = vals.push(ty);
    assert(forall|idx: int| 0 <= idx < vals.len() ==> vals2[idx] == vals[idx]);
    match inst {
        Inst::Call { dst, callee, args } => {
            assert forall|j: int| 0 <= j < args@.len() implies #[trigger] args@[j] < vals2.len()
                && vals2[args@[j] as int] == sigs[callee as int].params@[j] by {
                assert(args@[j] < vals.len());
            }
        },
        Inst::CallPtr { dst, addr, sig, args } => {
            assert forall|j: int| 0 <= j < args@.len() implies #[trigger] args@[j] < vals2.len()
                && vals2[args@[j] as int] == sig.params@[j] by {
                assert(args@[j] < vals.len());
            }
        },
        _ => {},
    }
}

/// A well-formed terminator stays well formed when the value table grows.
pub proof fn lemma_wf_term_push(
    ret: Option<NativeType>,
    vals: Seq<NativeType>,
    ty: NativeType,
    nblocks: int,
    t: Terminator,
)
    requires
        wf_term(ret, vals, nblocks, t),
    ensures
        wf_term(ret, vals.push(ty), nblocks, t),
{
}

/// Growing the value table preserves the builder invariant.
pub proof fn lemma_builder_push_val(b1: FnBuilder, b2: FnBuilder, ty: NativeType)
    requires
        builder_ok(b1),
        b2.vals@ == b1.vals@.push(ty),
        b2.n_params == b1.n_params,
        b2.prologue == b1.prologue,
        b2.done == b1.done,
        b2.cur == b1.cur,
        b2.sigs == b1.sigs,
        b2.gsig == b1.gsig,
        b2.gf == b1.gf,
    ensures
        builder_ok(b2),
{
    let sigs = b1.sigs@;
    let sig = b1.gsig@;
    let f = b1.gf@;
    assert(b2.vals@.take(b2.n_params as int) =~= b1.vals@.take(b1.n_params as int));
    assert forall|j: int| 0 <= j < b2.prologue@.len() implies (#[trigger] b2.prologue@[j]) is Alloca
        && wf_inst(sigs, b2.vals@, b2.prologue@[j]) by {
        lemma_wf_inst_push(sigs, b1.vals@, ty, b1.prologue@[j]);
    }
    assert forall|k: int| 0 <= k < b2.done@.len() implies completed_ok(
        sigs,
        sig.ret,
        b2.vals@,
        f,
        #[trigger] b2.done@[k],
        k,
    ) by {
        let blk = b1.done@[k];
        assert(completed_ok(sigs, sig.ret, b1.vals@, f, blk, k));
        match blk.term {
            Some(t) => {
                lemma_wf_term_push(sig.ret, b1.vals@, ty, f.blocks@.len() + 1 as int, t);
            },
            None => {},
        }
        assert forall|i: int| 0 <= i < blk.instrs@.len() implies !((
        #[trigger] blk.instrs@[i]) is Alloca) && wf_inst(sigs, b2.vals@, blk.instrs@[i]) by {
            lemma_wf_inst_push(sigs, b1.vals@, ty, blk.instrs@[i]);
        }
    }
    assert forall|j: int| 0 <= j < b2.cur@.len() implies !((#[trigger] b2.cur@[j]) is Alloca)
        && wf_inst(sigs, b2.vals@, b2.cur@[j]) by {
        lemma_wf_inst_push(sigs, b1.vals@, ty, b1.cur@[j]);
    }
}

/// Set map entries stay well formed when the value table grows.
pub proof fn lemma_slots_push_val(
    low: Lowerer,
    f: Function,
    sigs: Seq<NativeSig>,
    vals: Seq<NativeType>,
    ty: NativeType,
    b: int,
    i: int,
)
    requires
        maps_ok(low, f, sigs, vals, b, i),
    ensures
        maps_ok(low, f, sigs, vals.push(ty), b, i),
{
    let vals2 = vals.push(ty);
    assert forall|t: int| 0 <= t < f.temporaries@.len() implies match #[trigger] low.tmp_map.slots()[t] {
        Some(sv) => tmp_slot_ok(f, sigs, vals2, t, sv),
        None => true,
    } by {
        match low.tmp_map.slots()[t] {
            Some(sv) => {
                assert(tmp_slot_ok(f, sigs, vals, t, sv));
            },
            None => {},
        }
    }
    assert forall|x: int| 0 <= x < f.variables@.len() implies match #[trigger] low.var_map.slots()[x] {
        Some(sv) => var_slot_ok(f, sigs, vals2, x, sv),
        None => true,
    } by {
        match low.var_map.slots()[x] {
            Some(sv) => {
                assert(var_slot_ok(f, sigs, vals, x, sv));
            },
            None => {},
        }
    }
}

impl FnBuilder {
    /// Reserves a fresh value slot of type `ty` and returns its id.
    fn fresh_val(&mut self, ty: NativeType) -> (v: ValId)
        requires
            builder_ok(*old(self)),
        ensures
            builder_ok(*final(self)),
            v == old(self).vals@.len(),
            final(self).vals@ == old(self).vals@.push(ty),
            final(self).prologue == old(self).prologue,
            final(self).done == old(self).done,
            final(self).cur == old(self).cur,
            final(self).n_params == old(self).n_params,
            final(self).sigs == old(self).sigs,
            final(self).gsig == old(self).gsig,
            final(self).gf == old(self).gf,
            final(self).gfmap == old(self).gfmap,
    {
        let v = self.vals.len();
        self.vals.push(ty);
        proof {
            lemma_builder_push_val(*old(self), *self, ty);
        }
        v
    }

    /// Appends an ordinary instruction to the block being lowered.
    fn emit_cur(&mut self, inst: Inst)
        requires
            builder_ok(*old(self)),
            wf_inst(old(self).sigs@, old(self).vals@, inst),
            !(inst is Alloca),
        ensures
            builder_ok(*final(self)),
            final(self).cur@ == old(self).cur@.push(inst),
            final(self).vals == old(self).vals,
            final(self).prologue == old(self).prologue,
            final(self).done == old(self).done,
            final(self).n_params == old(self).n_params,
            final(self).sigs == old(self).sigs,
            final(self).gsig == old(self).gsig,
            final(self).gf == old(self).gf,
            final(self).gfmap == old(self).gfmap,
    {
        self.cur.push(inst);
    }

    /// Reserves a stack slot for a value of type `ty` in the prologue
    /// block and returns the fresh pointer value.
    fn emit_alloca(&mut self, ty: NativeType) -> (p: ValId)
        requires
            builder_ok(*old(self)),
        ensures
            builder_ok(*final(self)),
            p == old(self).vals@.len(),
            final(self).vals@ == old(self).vals@.push(NativeType::Ptr),
            final(self).prologue@ == old(self).prologue@.push(Inst::Alloca { dst: p, ty: ty }),
            final(self).done == old(self).done,
            final(self).cur == old(self).cur,
            final(self).n_params == old(self).n_params,
            final(self).sigs == old(self).sigs,
            final(self).gsig == old(self).gsig,
            final(self).gf == old(self).gf,
            final(self).gfmap == old(self).gfmap,
    {
        let p = self.fresh_val(NativeType::Ptr);
        self.prologue.push(Inst::Alloca { dst: p, ty });
        p
    }

    /// Closes the block being lowered with its terminator and appends it
    /// to the completed blocks.
    fn finish_block(&mut self, term: Terminator)
        requires
            builder_ok(*old(self)),
            old(self).done@.len() < old(self).gf@.blocks@.len(),
            wf_term(
                old(self).gsig@.ret,
                old(self).vals@,
                old(self).gf@.blocks@.len() as int + 1,
                term,
            ),
            term_corresponds(
                old(self).gf@.blocks@[old(self).done@.len() as int].stmts@.last(),
                term,
            ),
        ensures
            builder_ok(*final(self)),
            final(self).done@.len() == old(self).done@.len() + 1,
            final(self).done@.drop_last() == old(self).done@,
            final(self).done@.last().instrs@ == old(self).cur@,
            final(self).done@.last().term == Some(term),
            final(self).cur@.len() == 0,
            final(self).vals == old(self).vals,
            final(self).prologue == old(self).prologue,
            final(self).n_params == old(self).n_params,
            final(self).sigs == old(self).sigs,
            final(self).gsig == old(self).gsig,
            final(self).gf == old(self).gf,
            final(self).gfmap == old(self).gfmap,
    {
        let mut instrs: Vec<Inst> = Vec::new();
        core::mem::swap(&mut instrs, &mut self.cur);
        self.done.push(NativeBlock { instrs, term: Some(term) });
        proof {
            assert(final(self).done@.drop_last() =~= old(self).done@);
        }
    }
}

} // verus!
verus! {

/// Walking one statement extends the set of bound slots by exactly what
/// that statement writes.
pub proof fn lemma_def_step(f: Function, b: int, i: int)
    requires
        0 <= b < f.blocks@.len(),
        0 <= i < f.blocks@[b].stmts@.len(),
    ensures
        forall|t: int|
            #[trigger] tmp_def_at(f, b, i + 1, t) == (tmp_def_at(f, b, i, t) || writes_tmp(
                f.blocks@[b].stmts@[i],
                t,
            )),
        forall|x: int|
            #[trigger] var_def_at(f, b, i + 1, x) == (var_def_at(f, b, i, x) || writes_var(
                f.blocks@[b].stmts@[i],
                x,
            )),
{
    let stmts = f.blocks@[b].stmts@;
    assert(stmts.take(i + 1).drop_last() =~= stmts.take(i));
    assert(stmts.take(i + 1).last() == stmts[i]);
    assert forall|t: int|
        #[trigger] tmp_def_at(f, b, i + 1, t) == (tmp_def_at(f, b, i, t) || writes_tmp(
            stmts[i],
            t,
        )) by {
        assert(tmp_def_seq(stmts.take(i + 1), t) == (writes_tmp(stmts[i], t) || tmp_def_seq(
            stmts.take(i),
            t,
        )));
    }
    assert forall|x: int|
        #[trigger] var_def_at(f, b, i + 1, x) == (var_def_at(f, b, i, x) || writes_var(
            stmts[i],
            x,
        )) by {
        assert(var_def_seq(stmts.take(i + 1), x) == (writes_var(stmts[i], x) || var_def_seq(
            stmts.take(i),
            x,
        )));
    }
}

/// Finishing one block and starting the next keeps the set of bound slots.
pub proof fn lemma_block_bridge(f: Function, b: int)
    requires
        0 <= b < f.blocks@.len(),
    ensures
        forall|t: int|
            #[trigger] tmp_def_at(f, b + 1, 0, t) == tmp_def_at(
                f,
                b,
                f.blocks@[b].stmts@.len() as int,
                t,
            ),
        forall|x: int|
            #[trigger] var_def_at(f, b + 1, 0, x) == var_def_at(
                f,
                b,
                f.blocks@[b].stmts@.len() as int,
                x,
            ),
{
    let stmts = f.blocks@[b].stmts@;
    let n = stmts.len() as int;
    assert(stmts.take(n) =~= stmts);
    assert forall|t: int|
        #[trigger] tmp_def_at(f, b + 1, 0, t) == tmp_def_at(f, b, n, t) by {
        assert(f.blocks@[b + 1].stmts@.take(0) =~= Seq::<Statement>::empty());
        assert(!tmp_def_seq(Seq::<Statement>::empty(), t));
        assert(tmp_def_blocks(f.blocks@, b + 1, t) == (tmp_def_seq(stmts, t) || tmp_def_blocks(
            f.blocks@,
            b,
            t,
        )));
    }
    assert forall|x: int|
        #[trigger] var_def_at(f, b + 1, 0, x) == var_def_at(f, b, n, x) by {
        assert(f.blocks@[b + 1].stmts@.take(0) =~= Seq::<Statement>::empty());
        assert(!var_def_seq(Seq::<Statement>::empty(), x));
        assert(var_def_blocks(f.blocks@, b + 1, x) == (var_def_seq(stmts, x) || var_def_blocks(
            f.blocks@,
            b,
            x,
        )));
    }
}

/// Before the walk starts, nothing is bound.
pub proof fn lemma_def_init(f: Function)
    ensures
        forall|t: int| !tmp_def_at(f, 0, 0, t),
        forall|x: int| !var_def_at(f, 0, 0, x),
{
    assert forall|t: int| !tmp_def_at(f, 0, 0, t) by {
        assert(f.blocks@[0].stmts@.take(0) =~= Seq::<Statement>::empty());
        assert(!tmp_def_seq(Seq::<Statement>::empty(), t));
    }
    assert forall|x: int| !var_def_at(f, 0, 0, x) by {
        assert(f.blocks@[0].stmts@.take(0) =~= Seq::<Statement>::empty());
        assert(!var_def_seq(Seq::<Statement>::empty(), x));
    }
}

/// Setting the temporary a statement writes moves the maps' invariant one
/// position forward.
pub proof fn lemma_maps_set_tmp(
    low1: Lowerer,
    low2: Lowerer,
    f: Function,
    sigs: Seq<NativeSig>,
    vals: Seq<NativeType>,
    b: int,
    i: int,
    t_set: int,
    sv: SlotValue,
)
    requires
        0 <= b < f.blocks@.len(),
        0 <= i < f.blocks@[b].stmts@.len(),
        maps_ok(low1, f, sigs, vals, b, i),
        0 <= t_set < f.temporaries@.len(),
        writes_tmp(f.blocks@[b].stmts@[i], t_set),
        forall|t: int| writes_tmp(f.blocks@[b].stmts@[i], t) ==> t == t_set,
        forall|x: int| !writes_var(f.blocks@[b].stmts@[i], x),
        tmp_slot_ok(f, sigs, vals, t_set, sv),
        low2.tmp_map.slots() == low1.tmp_map.slots().update(t_set, Some(sv)),
        low2.tmp_map.cap() == low1.tmp_map.cap(),
        low2.var_map == low1.var_map,
        low2.block_map == low1.block_map,
    ensures
        maps_ok(low2, f, sigs, vals, b, i + 1),
{
    lemma_def_step(f, b, i);
    assert forall|t: int|
        0 <= t < f.temporaries@.len() implies ((#[trigger] low2.tmp_map.slots()[t]) is Some
        <==> tmp_def_at(f, b, i + 1, t)) by {
        if t != t_set {
            assert(low2.tmp_map.slots()[t] == low1.tmp_map.slots()[t]);
        }
    }
    assert forall|t: int|
        0 <= t < f.temporaries@.len() implies match #[trigger] low2.tmp_map.slots()[t] {
        Some(s) => tmp_slot_ok(f, sigs, vals, t, s),
        None => true,
    } by {
        if t != t_set {
            assert(low2.tmp_map.slots()[t] == low1.tmp_map.slots()[t]);
        }
    }
}

/// Setting the variable a statement writes moves the maps' invariant one
/// position forward.
pub proof fn lemma_maps_set_var(
    low1: Lowerer,
    low2: Lowerer,
    f: Function,
    sigs: Seq<NativeSig>,
    vals: Seq<NativeType>,
    b: int,
    i: int,
    x_set: int,
    sv: SlotValue,
)
    requires
        0 <= b < f.blocks@.len(),
        0 <= i < f.blocks@[b].stmts@.len(),
        maps_ok(low1, f, sigs, vals, b, i),
        0 <= x_set < f.variables@.len(),
        writes_var(f.blocks@[b].stmts@[i], x_set),
        forall|x: int| writes_var(f.blocks@[b].stmts@[i], x) ==> x == x_set,
        forall|t: int| !writes_tmp(f.blocks@[b].stmts@[i], t),
        var_slot_ok(f, sigs, vals, x_set, sv),
        low2.var_map.slots() == low1.var_map.slots().update(x_set, Some(sv)),
        low2.var_map.cap() == low1.var_map.cap(),
        low2.tmp_map == low1.tmp_map,
        low2.block_map == low1.block_map,
    ensures
        maps_ok(low2, f, sigs, vals, b, i + 1),
{
    lemma_def_step(f, b, i);
    assert forall|x: int|
        0 <= x < f.variables@.len() implies ((#[trigger] low2.var_map.slots()[x]) is Some
        <==> var_def_at(f, b, i + 1, x)) by {
        if x != x_set {
            assert(low2.var_map.slots()[x] == low1.var_map.slots()[x]);
        }
    }
    assert forall|x: int|
        0 <= x < f.variables@.len() implies match #[trigger] low2.var_map.slots()[x] {
        Some(s) => var_slot_ok(f, sigs, vals, x, s),
        None => true,
    } by {
        if x != x_set {
            assert(low2.var_map.slots()[x] == low1.var_map.slots()[x]);
        }
    }
}

/// A statement that binds nothing moves the maps' invariant forward
/// unchanged.
pub proof fn lemma_maps_no_write(
    low: Lowerer,
    f: Function,
    sigs: Seq<NativeSig>,
    vals: Seq<NativeType>,
    b: int,
    i: int,
)
    requires
        0 <= b < f.blocks@.len(),
        0 <= i < f.blocks@[b].stmts@.len(),
        maps_ok(low, f, sigs, vals, b, i),
        forall|t: int| !writes_tmp(f.blocks@[b].stmts@[i], t),
        forall|x: int| !writes_var(f.blocks@[b].stmts@[i], x),
    ensures
        maps_ok(low, f, sigs, vals, b, i + 1),
{
    lemma_def_step(f, b, i);
}

/// When every parameter type maps to a native parameter, the native
/// parameter list is the elementwise image of the source list.
pub proof fn lemma_params_sig_total(ps: Seq<Type>)
    requires
        forall|j: int| 0 <= j < ps.len() ==> native_param_of(#[trigger] ps[j]) is Some,
    ensures
        params_sig(ps).len() == ps.len(),
        forall|j: int|
            0 <= j < ps.len() ==> Some(#[trigger] params_sig(ps)[j]) == native_param_of(ps[j]),
    decreases ps.len(),
{
    if ps.len() > 0 {
        assert(forall|j: int| 0 <= j < ps.len() - 1 ==> ps.drop_last()[j] == #[trigger] ps[j]);
        lemma_params_sig_total(ps.drop_last());
    }
}

/// The operator table: the native operation one source operator lowers to
/// under one operand type.  `Gt` maps to `CmpSlt`, the same predicate as
/// `Lt` — a known quirk of the table, kept rather than silently changed.
pub open spec fn native_op_of(ty: Type, op: BinaryOp) -> NativeOp {
    match ty {
        Type::I32 => match op {
            BinaryOp::Add => NativeOp::Add,
            BinaryOp::Sub => NativeOp::Sub,
            BinaryOp::Mul => NativeOp::Mul,
            BinaryOp::Div => NativeOp::SDiv,
            BinaryOp::Rem => NativeOp::SRem,
            BinaryOp::Ge => NativeOp::CmpSge,
            BinaryOp::Le => NativeOp::CmpSle,
            BinaryOp::Gt => NativeOp::CmpSlt,
            BinaryOp::Lt => NativeOp::CmpSlt,
            BinaryOp::Eq => NativeOp::CmpEq,
            BinaryOp::Neq => NativeOp::CmpNe,
            _ => arbitrary(),
        },
        Type::Bool => match op {
            BinaryOp::And => NativeOp::And,
            BinaryOp::Or => NativeOp::Or,
            _ => arbitrary(),
        },
        _ => arbitrary(),
    }
}

/// Exec dispatch over the operator table; only pairs inside the table are
/// accepted.
fn pick_native_op(ty: &Type, op: BinaryOp) -> (r: NativeOp)
    requires
        op_result_type(*ty, op) is Some,
    ensures
        r == native_op_of(*ty, op),
{
    match ty {
        Type::I32 => match op {
            BinaryOp::Add => NativeOp::Add,
            BinaryOp::Sub => NativeOp::Sub,
            BinaryOp::Mul => NativeOp::Mul,
            BinaryOp::Div => NativeOp::SDiv,
            BinaryOp::Rem => NativeOp::SRem,
            BinaryOp::Ge => NativeOp::CmpSge,
            BinaryOp::Le => NativeOp::CmpSle,
            BinaryOp::Gt => NativeOp::CmpSlt,
            BinaryOp::Lt => NativeOp::CmpSlt,
            BinaryOp::Eq => NativeOp::CmpEq,
            BinaryOp::Neq => NativeOp::CmpNe,
            BinaryOp::And => vstd::pervasive::unreached(),
            BinaryOp::Or => vstd::pervasive::unreached(),
        },
        Type::Bool => match op {
            BinaryOp::And => NativeOp::And,
            BinaryOp::Or => NativeOp::Or,
            _ => vstd::pervasive::unreached(),
        },
        _ => vstd::pervasive::unreached(),
    }
}

} // verus!

verus! {

/// Lowers one statement: emits its native instructions into the builder
/// and updates the dense maps, preserving every invariant and moving the
/// walk one position forward.
#[verifier::rlimit(100)]
fn lower_stmt(
    low: &mut Lowerer,
    bld: &mut FnBuilder,
    f: &Function,
    funcs: &IdMap<FuncId, usize>,
    stmt: &Statement,
    Ghost(tfuncs): Ghost<Seq<Function>>,
    Ghost(b): Ghost<int>,
    Ghost(i): Ghost<int>,
)
    requires
        builder_ok(*old(bld)),
        old(bld).gf@ == *f,
        0 <= b < f.blocks@.len(),
        0 <= i < f.blocks@[b].stmts@.len(),
        *stmt == f.blocks@[b].stmts@[i],
        wf_stmt(tfuncs, *f, *stmt),
        stmt_reads_ok(*f, b, i),
        is_terminator(*stmt) <==> i == f.blocks@[b].stmts@.len() - 1,
        maps_ok(*old(low), *f, old(bld).sigs@, old(bld).vals@, b, i),
        funcs_map_ok(*funcs, tfuncs, old(bld).sigs@),
        old(bld).done@.len() == b,
        bind_match(*old(low), *old(bld), b, i),
        content_ok(*old(bld), b, i),
        old(bld).gfmap@ == funcs.slots(),
    ensures
        builder_ok(*final(bld)),
        final(bld).sigs == old(bld).sigs,
        final(bld).gsig == old(bld).gsig,
        final(bld).gf == old(bld).gf,
        final(bld).gfmap == old(bld).gfmap,
        final(bld).n_params == old(bld).n_params,
        old(bld).vals@.is_prefix_of(final(bld).vals@),
        maps_ok(*final(low), *f, final(bld).sigs@, final(bld).vals@, b, i + 1),
        final(bld).done@.len() == if is_terminator(*stmt) {
            b + 1
        } else {
            b
        },
        !is_terminator(*stmt) ==> final(bld).done == old(bld).done,
        !is_terminator(*stmt) ==> bind_match(*final(low), *final(bld), b, i + 1) && content_ok(
            *final(bld),
            b,
            i + 1,
        ),
        is_terminator(*stmt) ==> bind_match(*final(low), *final(bld), b + 1, 0) && content_ok(
            *final(bld),
            b + 1,
            0,
        ),
{
    let ghost fmap = bld.gfmap@;
    let ghost sigp = bld.gsig@.params@;
    let ghost st = bind_at(fmap, *f, sigp, b, i);
    let ghost cur0 = bld.cur@;
    let ghost pro0 = bld.prologue@;
    proof {
        // arms that leave the value table alone keep it a prefix of itself
        assert(old(bld).vals@.is_prefix_of(old(bld).vals@));
        lemma_bind_at_step(fmap, *f, sigp, b, i);
    }
    match stmt {
        Statement::Let { dst, src } => {
            let ghost vals0 = bld.vals@;
            let sv = *low.tmp_map.get(*src);
            match sv {
                SlotValue::Value(v) => {
                    proof {
                        assert(tmp_slot_ok(*f, bld.sigs@, vals0, src.0 as int, sv));
                        assert(!(f.temporaries@[src.0 as int] is Func));
                    }
                    let ty = bld.vals[v];
                    let p = bld.emit_alloca(ty);
                    proof {
                        lemma_slots_push_val(*low, *f, bld.sigs@, vals0, NativeType::Ptr, b, i);
                        assert(vals0.is_prefix_of(bld.vals@));
                    }
                    let ghost low0 = *low;
                    low.var_map.set(*dst, SlotValue::Value(p));
                    bld.emit_cur(Inst::Store { ptr: p, src: v });
                    proof {
                        lemma_maps_set_var(
                            low0,
                            *low,
                            *f,
                            bld.sigs@,
                            bld.vals@,
                            b,
                            i,
                            dst.0 as int,
                            SlotValue::Value(p),
                        );
                        let e = seq![Inst::Store { ptr: p, src: v }];
                        assert(cur_emits(*f, st, f.blocks@[b].stmts@[i], e));
                        assert(bld.cur@ =~= cur0 + e);
                        lemma_block_emits_step(fmap, *f, sigp, b, i, cur0, bld.cur@, e);
                        assert(bld.prologue@ =~= pro0 + alloca_emit(st, f.blocks@[b].stmts@[i]));
                        assert(bind_match(*low, *bld, b, i + 1));
                        assert(content_ok(*bld, b, i + 1));
                    }
                },
                SlotValue::FunctionRef(d) => {
                    let ghost low0 = *low;
                    low.var_map.set(*dst, SlotValue::FunctionRef(d));
                    proof {
                        assert(tmp_slot_ok(*f, bld.sigs@, vals0, src.0 as int, sv));
                        assert(f.temporaries@[src.0 as int] is Func);
                        lemma_maps_set_var(
                            low0,
                            *low,
                            *f,
                            bld.sigs@,
                            bld.vals@,
                            b,
                            i,
                            dst.0 as int,
                            SlotValue::FunctionRef(d),
                        );
                        assert(cur_emits(*f, st, f.blocks@[b].stmts@[i], Seq::<Inst>::empty()));
                        assert(bld.cur@ =~= cur0 + Seq::<Inst>::empty());
                        lemma_block_emits_step(fmap, *f, sigp, b, i, cur0, bld.cur@, Seq::empty());
                        assert(bld.prologue@ =~= pro0 + alloca_emit(st, f.blocks@[b].stmts@[i]));
                        assert(bind_match(*low, *bld, b, i + 1));
                        assert(content_ok(*bld, b, i + 1));
                    }
                },
            }
        },
        Statement::Store { dst, src } => {
            let psv = *low.var_map.get(*dst);
            let vsv = *low.tmp_map.get(*src);
            proof {
                assert(var_slot_ok(*f, bld.sigs@, bld.vals@, dst.0 as int, psv));
                assert(tmp_slot_ok(*f, bld.sigs@, bld.vals@, src.0 as int, vsv));
                assert(!(f.variables@[dst.0 as int] is Func));
            }
            let p = match psv {
                SlotValue::Value(p) => p,
                SlotValue::FunctionRef(_) => vstd::pervasive::unreached(),
            };
            let v = match vsv {
                SlotValue::Value(v) => v,
                SlotValue::FunctionRef(_) => vstd::pervasive::unreached(),
            };
            bld.emit_cur(Inst::Store { ptr: p, src: v });
            proof {
                lemma_maps_no_write(*low, *f, bld.sigs@, bld.vals@, b, i);
                let e = seq![Inst::Store { ptr: p, src: v }];
                assert(cur_emits(*f, st, f.blocks@[b].stmts@[i], e));
                assert(bld.cur@ =~= cur0 + e);
                lemma_block_emits_step(fmap, *f, sigp, b, i, cur0, bld.cur@, e);
                assert(bld.prologue@ =~= pro0 + alloca_emit(st, f.blocks@[b].stmts@[i]));
                assert(bind_match(*low, *bld, b, i + 1));
                assert(content_ok(*bld, b, i + 1));
            }
        },
        Statement::Load { dst, src } => {
            let ghost vals0 = bld.vals@;
            let sv = *low.var_map.get(*src);
            proof {
                assert(var_slot_ok(*f, bld.sigs@, vals0, src.0 as int, sv));
            }
            match sv {
                SlotValue::Value(p) => {
                    proof {
                        assert(!(f.variables@[src.0 as int] is Func));
                    }
                    let ty = val_ty_of(f.var(*src));
                    let v = bld.fresh_val(ty);
                    proof {
                        lemma_slots_push_val(*low, *f, bld.sigs@, vals0, ty, b, i);
                    }
                    bld.emit_cur(Inst::Load { dst: v, ty, ptr: p });
                    let ghost low0 = *low;
                    low.tmp_map.set(*dst, SlotValue::Value(v));
                    proof {
                        lemma_maps_set_tmp(
                            low0,
                            *low,
                            *f,
                            bld.sigs@,
                            bld.vals@,
                            b,
                            i,
                            dst.0 as int,
                            SlotValue::Value(v),
                        );
                        let e = seq![Inst::Load { dst: v, ty, ptr: p }];
                        assert(cur_emits(*f, st, f.blocks@[b].stmts@[i], e));
                        assert(bld.cur@ =~= cur0 + e);
                        lemma_block_emits_step(fmap, *f, sigp, b, i, cur0, bld.cur@, e);
                        assert(bld.prologue@ =~= pro0 + alloca_emit(st, f.blocks@[b].stmts@[i]));
                        assert(bind_match(*low, *bld, b, i + 1));
                        assert(content_ok(*bld, b, i + 1));
                    }
                },
                SlotValue::FunctionRef(d) => {
                    proof {
                        assert(f.variables@[src.0 as int] is Func);
                    }
                    let ghost low0 = *low;
                    low.tmp_map.set(*dst, SlotValue::FunctionRef(d));
                    proof {
                        lemma_maps_set_tmp(
                            low0,
                            *low,
                            *f,
                            bld.sigs@,
                            bld.vals@,
                            b,
                            i,
                            dst.0 as int,
                            SlotValue::FunctionRef(d),
                        );
                        assert(cur_emits(*f, st, f.blocks@[b].stmts@[i], Seq::<Inst>::empty()));
                        assert(bld.cur@ =~= cur0 + Seq::<Inst>::empty());
                        lemma_block_emits_step(fmap, *f, sigp, b, i, cur0, bld.cur@, Seq::empty());
                        assert(bld.prologue@ =~= pro0 + alloca_emit(st, f.blocks@[b].stmts@[i]));
                        assert(bind_match(*low, *bld, b, i + 1));
                        assert(content_ok(*bld, b, i + 1));
                    }
                },
            }
        },
        Statement::Host { dst, src } => {
            let d = *funcs.get(*src);
            let ghost low0 = *low;
            low.tmp_map.set(*dst, SlotValue::FunctionRef(d));
            proof {
                assert(f.temporaries@[dst.0 as int] == fn_sig_type(tfuncs[src.0 as int]));
                lemma_maps_set_tmp(
                    low0,
                    *low,
                    *f,
                    bld.sigs@,
                    bld.vals@,
                    b,
                    i,
                    dst.0 as int,
                    SlotValue::FunctionRef(d),
                );
                assert(fmap[src.0 as int] == Some(d));
                assert(cur_emits(*f, st, f.blocks@[b].stmts@[i], Seq::<Inst>::empty()));
                assert(bld.cur@ =~= cur0 + Seq::<Inst>::empty());
                lemma_block_emits_step(fmap, *f, sigp, b, i, cur0, bld.cur@, Seq::empty());
                assert(bld.prologue@ =~= pro0 + alloca_emit(st, f.blocks@[b].stmts@[i]));
                assert(bind_match(*low, *bld, b, i + 1));
                assert(content_ok(*bld, b, i + 1));
            }
        },
        Statement::Func { dst, src } => {
            let d = *funcs.get(*src);
            let ghost low0 = *low;
            low.tmp_map.set(*dst, SlotValue::FunctionRef(d));
            proof {
                assert(f.temporaries@[dst.0 as int] == fn_sig_type(tfuncs[src.0 as int]));
                lemma_maps_set_tmp(
                    low0,
                    *low,
                    *f,
                    bld.sigs@,
                    bld.vals@,
                    b,
                    i,
                    dst.0 as int,
                    SlotValue::FunctionRef(d),
                );
                assert(fmap[src.0 as int] == Some(d));
                assert(cur_emits(*f, st, f.blocks@[b].stmts@[i], Seq::<Inst>::empty()));
                assert(bld.cur@ =~= cur0 + Seq::<Inst>::empty());
                lemma_block_emits_step(fmap, *f, sigp, b, i, cur0, bld.cur@, Seq::empty());
                assert(bld.prologue@ =~= pro0 + alloca_emit(st, f.blocks@[b].stmts@[i]));
                assert(bind_match(*low, *bld, b, i + 1));
                assert(content_ok(*bld, b, i + 1));
            }
        },
        Statement::Const { dst, src } => {
            let ghost vals0 = bld.vals@;
            match src {
                ConstLiteral::I32(n) => {
                    let v = bld.fresh_val(NativeType::I32);
                    proof {
                        lemma_slots_push_val(*low, *f, bld.sigs@, vals0, NativeType::I32, b, i);
                    }
                    bld.emit_cur(Inst::ConstI32 { dst: v, val: *n });
                    let ghost low0 = *low;
                    low.tmp_map.set(*dst, SlotValue::Value(v));
                    proof {
                        lemma_maps_set_tmp(
                            low0,
                            *low,
                            *f,
                            bld.sigs@,
                            bld.vals@,
                            b,
                            i,
                            dst.0 as int,
                            SlotValue::Value(v),
                        );
                        let e = seq![Inst::ConstI32 { dst: v, val: *n }];
                        assert(cur_emits(*f, st, f.blocks@[b].stmts@[i], e));
                        assert(bld.cur@ =~= cur0 + e);
                        lemma_block_emits_step(fmap, *f, sigp, b, i, cur0, bld.cur@, e);
                        assert(bld.prologue@ =~= pro0 + alloca_emit(st, f.blocks@[b].stmts@[i]));
                        assert(bind_match(*low, *bld, b, i + 1));
                        assert(content_ok(*bld, b, i + 1));
                    }
                },
                ConstLiteral::Bool(bv) => {
                    let v = bld.fresh_val(NativeType::I1);
                    proof {
                        lemma_slots_push_val(*low, *f, bld.sigs@, vals0, NativeType::I1, b, i);
                    }
                    bld.emit_cur(Inst::ConstBool { dst: v, val: *bv });
                    let ghost low0 = *low;
                    low.tmp_map.set(*dst, SlotValue::Value(v));
                    proof {
                        lemma_maps_set_tmp(
                            low0,
                            *low,
                            *f,
                            bld.sigs@,
                            bld.vals@,
                            b,
                            i,
                            dst.0 as int,
                            SlotValue::Value(v),
                        );
                        let e = seq![Inst::ConstBool { dst: v, val: *bv }];
                        assert(cur_emits(*f, st, f.blocks@[b].stmts@[i], e));
                        assert(bld.cur@ =~= cur0 + e);
                        lemma_block_emits_step(fmap, *f, sigp, b, i, cur0, bld.cur@, e);
                        assert(bld.prologue@ =~= pro0 + alloca_emit(st, f.blocks@[b].stmts@[i]));
                        assert(bind_match(*low, *bld, b, i + 1));
                        assert(content_ok(*bld, b, i + 1));
                    }
                },
            }
        },
        Statement::BinExpr { dst, lhs, op, rhs } => {
            let ghost vals0 = bld.vals@;
            let lsv = *low.tmp_map.get(*lhs);
            let rsv = *low.tmp_map.get(*rhs);
            proof {
                assert(tmp_slot_ok(*f, bld.sigs@, vals0, lhs.0 as int, lsv));
                assert(tmp_slot_ok(*f, bld.sigs@, vals0, rhs.0 as int, rsv));
                assert(!(f.temporaries@[lhs.0 as int] is Func));
            }
            let v1 = match lsv {
                SlotValue::Value(v) => v,
                SlotValue::FunctionRef(_) => vstd::pervasive::unreached(),
            };
            let v2 = match rsv {
                SlotValue::Value(v) => v,
                SlotValue::FunctionRef(_) => vstd::pervasive::unreached(),
            };
            let nop = pick_native_op(f.tmp(*lhs), *op);
            let rt = match nop {
                NativeOp::Add | NativeOp::Sub | NativeOp::Mul | NativeOp::SDiv | NativeOp::SRem => NativeType::I32,
                _ => NativeType::I1,
            };
            let v = bld.fresh_val(rt);
            proof {
                lemma_slots_push_val(*low, *f, bld.sigs@, vals0, rt, b, i);
            }
            bld.emit_cur(Inst::Bin { dst: v, op: nop, lhs: v1, rhs: v2 });
            let ghost low0 = *low;
            low.tmp_map.set(*dst, SlotValue::Value(v));
            proof {
                lemma_maps_set_tmp(
                    low0,
                    *low,
                    *f,
                    bld.sigs@,
                    bld.vals@,
                    b,
                    i,
                    dst.0 as int,
                    SlotValue::Value(v),
                );
                assert(rt == bin_result_ty(nop));
                let e = seq![Inst::Bin { dst: v, op: nop, lhs: v1, rhs: v2 }];
                assert(cur_emits(*f, st, f.blocks@[b].stmts@[i], e));
                assert(bld.cur@ =~= cur0 + e);
                lemma_block_emits_step(fmap, *f, sigp, b, i, cur0, bld.cur@, e);
                assert(bld.prologue@ =~= pro0 + alloca_emit(st, f.blocks@[b].stmts@[i]));
                assert(bind_match(*low, *bld, b, i + 1));
                assert(content_ok(*bld, b, i + 1));
            }
        },
        Statement::Call { dst, func, args } => {
            let ghost vals0 = bld.vals@;
            let fsv = *low.tmp_map.get(*func);
            proof {
                assert(tmp_slot_ok(*f, bld.sigs@, vals0, func.0 as int, fsv));
                assert(f.temporaries@[func.0 as int] is Func);
            }
            let d = match fsv {
                SlotValue::FunctionRef(d) => d,
                SlotValue::Value(_) => vstd::pervasive::unreached(),
            };
            let ghost ft = f.temporaries@[func.0 as int]->Func_0;
            proof {
                assert(bld.sigs@[d as int].params@ == params_sig(ft.params@));
                assert forall|j: int| 0 <= j < ft.params@.len() implies native_param_of(
                    #[trigger] ft.params@[j],
                ) is Some by {
                    assert(args@[j].0 < f.temporaries@.len());
                }
                lemma_params_sig_total(ft.params@);
            }
            let n_args = args.len();
            let mut argv: Vec<ValId> = Vec::new();
            let mut j: usize = 0;
            while j < n_args
                invariant
                    j <= n_args,
                    n_args == args@.len(),
                    argv@.len() == j,
                    wf_stmt(tfuncs, *f, f.blocks@[b].stmts@[i]),
                    stmt_reads_ok(*f, b, i),
                    0 <= b < f.blocks@.len(),
                    0 <= i < f.blocks@[b].stmts@.len(),
                    f.blocks@[b].stmts@[i] == (Statement::Call { dst: *dst, func: *func, args: *args }),
                    ft == f.temporaries@[func.0 as int]->Func_0,
                    maps_ok(*low, *f, bld.sigs@, bld.vals@, b, i),
                    builder_ok(*bld),
                    bld.gf@ == *f,
                    params_sig(ft.params@).len() == ft.params@.len(),
                    forall|jj: int|
                        0 <= jj < ft.params@.len() ==> Some(#[trigger] params_sig(ft.params@)[jj])
                            == native_param_of(ft.params@[jj]),
                    forall|jj: int|
                        0 <= jj < j ==> #[trigger] argv@[jj] < bld.vals@.len()
                            && bld.vals@[argv@[jj] as int] == params_sig(ft.params@)[jj],
                    bind_match(*low, *bld, b, i),
                    bld.gfmap@ == fmap,
                    bld.gsig@.params@ == sigp,
                    st == bind_at(fmap, *f, sigp, b, i),
                    forall|jj: int|
                        0 <= jj < j ==> st.tmp[(#[trigger] args@[jj]).0 as int] == Some(
                            SlotValue::Value(argv@[jj]),
                        ),
                decreases n_args - j,
            {
                let a = args[j];
                let asv = *low.tmp_map.get(a);
                proof {
                    assert(tmp_def_at(*f, b, i, a.0 as int));
                    assert(tmp_slot_ok(*f, bld.sigs@, bld.vals@, a.0 as int, asv));
                    assert(f.temporaries@[a.0 as int] == ft.params@[j as int]);
                    assert(!(ft.params@[j as int] is Func));
                }
                let av = match asv {
                    SlotValue::Value(v) => v,
                    SlotValue::FunctionRef(_) => vstd::pervasive::unreached(),
                };
                proof {
                    assert(low.tmp_map.slots()[a.0 as int] == Some(asv));
                    assert(st.tmp[a.0 as int] == Some(asv));
                }
                argv.push(av);
                proof {
                    assert(native_val_ty(ft.params@[j as int]) == bld.vals@[av as int]);
                    assert(Some(params_sig(ft.params@)[j as int]) == native_param_of(
                        ft.params@[j as int],
                    ));
                }
                j = j + 1;
            }
            // the call result: the callee's return value, or a zero-sized
            // unit value for a void callee
            let rt = val_ty_of(f.tmp(*dst));
            let v = bld.fresh_val(rt);
            proof {
                lemma_slots_push_val(*low, *f, bld.sigs@, bld.vals@.drop_last(), rt, b, i);
                assert(bld.vals@.drop_last().push(rt) =~= bld.vals@);
                assert(f.temporaries@[dst.0 as int] == *ft.ret);
                assert(native_val_ty(*ft.ret) == result_val_ty(native_ret_of(*ft.ret)));
                assert forall|jj: int| 0 <= jj < argv@.len() implies #[trigger] argv@[jj]
                    < bld.vals@.len() && bld.vals@[argv@[jj] as int]
                    == bld.sigs@[d as int].params@[jj] by {}
            }
            let ghost gargv = argv@;
            bld.emit_cur(Inst::Call { dst: v, callee: d, args: argv });
            let ghost low0 = *low;
            low.tmp_map.set(*dst, SlotValue::Value(v));
            proof {
                lemma_maps_set_tmp(
                    low0,
                    *low,
                    *f,
                    bld.sigs@,
                    bld.vals@,
                    b,
                    i,
                    dst.0 as int,
                    SlotValue::Value(v),
                );
                assert(st.tmp[func.0 as int] == Some(fsv));
                let e = bld.cur@.skip(cur0.len() as int);
                assert(e.len() == 1);
                assert(e[0] matches Inst::Call { dst: rd, callee, args: cargs } && rd == v
                    && callee == d && cargs@ == gargv);
                assert(cur_emits(*f, st, f.blocks@[b].stmts@[i], e));
                assert(bld.cur@ =~= cur0 + e);
                lemma_block_emits_step(fmap, *f, sigp, b, i, cur0, bld.cur@, e);
                assert(bld.prologue@ =~= pro0 + alloca_emit(st, f.blocks@[b].stmts@[i]));
                assert(bind_match(*low, *bld, b, i + 1));
                assert(content_ok(*bld, b, i + 1));
            }
        },
        Statement::Return { .. } => {
            // value returns have no defined lowering yet; ruled out by
            // the well-formedness precondition
            proof {
                assert(false);
            }
        },
        Statement::ReturnVoid => {
            proof {
                assert(f.blocks@[b].stmts@.last() == f.blocks@[b].stmts@[i]);
            }
            bld.finish_block(Terminator::RetVoid);
            proof {
                lemma_maps_no_write(*low, *f, bld.sigs@, bld.vals@, b, i);
                assert(cur_emits(*f, st, f.blocks@[b].stmts@[i], Seq::<Inst>::empty()));
                assert(cur0 =~= cur0 + Seq::<Inst>::empty());
                lemma_block_emits_step(fmap, *f, sigp, b, i, cur0, cur0, Seq::empty());
                assert(f.blocks@[b].stmts@.take(i + 1) =~= f.blocks@[b].stmts@);
                assert(block_emits(
                    fmap,
                    *f,
                    bind_blocks(fmap, *f, sigp, b),
                    f.blocks@[b].stmts@,
                    bld.done@.last().instrs@,
                ));
                assert(term_emits(st, f.blocks@[b].stmts@[i], Terminator::RetVoid));
                assert(block_fully_lowered(fmap, *f, sigp, b, bld.done@.last()));
                lemma_bind_block_bridge(fmap, *f, sigp, b);
                assert forall|k: int|
                    0 <= k < bld.done@.len() implies block_fully_lowered(
                    fmap,
                    *f,
                    sigp,
                    k,
                    #[trigger] bld.done@[k],
                ) by {
                    if k < bld.done@.len() - 1 {
                        assert(bld.done@[k] == bld.done@.drop_last()[k]);
                    }
                }
                assert(f.blocks@[b + 1].stmts@.take(0) =~= Seq::<Statement>::empty());
                assert(bld.prologue@ =~= pro0 + alloca_emit(st, f.blocks@[b].stmts@[i]));
                assert(bld.prologue@ == allocas_at(fmap, *f, sigp, b + 1, 0));
                assert(bind_match(*low, *bld, b + 1, 0));
                assert(content_ok(*bld, b + 1, 0));
            }
        },
        Statement::UnconditionalJump { id } => {
            let to = *low.block_map.get(*id);
            proof {
                assert(f.blocks@[b].stmts@.last() == f.blocks@[b].stmts@[i]);
            }
            bld.finish_block(Terminator::Br { to });
            proof {
                lemma_maps_no_write(*low, *f, bld.sigs@, bld.vals@, b, i);
                assert(cur_emits(*f, st, f.blocks@[b].stmts@[i], Seq::<Inst>::empty()));
                assert(cur0 =~= cur0 + Seq::<Inst>::empty());
                lemma_block_emits_step(fmap, *f, sigp, b, i, cur0, cur0, Seq::empty());
                assert(f.blocks@[b].stmts@.take(i + 1) =~= f.blocks@[b].stmts@);
                assert(block_emits(
                    fmap,
                    *f,
                    bind_blocks(fmap, *f, sigp, b),
                    f.blocks@[b].stmts@,
                    bld.done@.last().instrs@,
                ));
                assert(term_emits(st, f.blocks@[b].stmts@[i], (Terminator::Br { to })));
                assert(block_fully_lowered(fmap, *f, sigp, b, bld.done@.last()));
                lemma_bind_block_bridge(fmap, *f, sigp, b);
                assert forall|k: int|
                    0 <= k < bld.done@.len() implies block_fully_lowered(
                    fmap,
                    *f,
                    sigp,
                    k,
                    #[trigger] bld.done@[k],
                ) by {
                    if k < bld.done@.len() - 1 {
                        assert(bld.done@[k] == bld.done@.drop_last()[k]);
                    }
                }
                assert(f.blocks@[b + 1].stmts@.take(0) =~= Seq::<Statement>::empty());
                assert(bld.prologue@ =~= pro0 + alloca_emit(st, f.blocks@[b].stmts@[i]));
                assert(bld.prologue@ == allocas_at(fmap, *f, sigp, b + 1, 0));
                assert(bind_match(*low, *bld, b + 1, 0));
                assert(content_ok(*bld, b + 1, 0));
            }
        },
        Statement::ConditionalJump { cond, then_block, else_block } => {
            let csv = *low.tmp_map.get(*cond);
            proof {
                assert(tmp_slot_ok(*f, bld.sigs@, bld.vals@, cond.0 as int, csv));
            }
            let cv = match csv {
                SlotValue::Value(v) => v,
                SlotValue::FunctionRef(_) => vstd::pervasive::unreached(),
            };
            let then_to = *low.block_map.get(*then_block);
            let else_to = *low.block_map.get(*else_block);
            proof {
                assert(f.blocks@[b].stmts@.last() == f.blocks@[b].stmts@[i]);
            }
            bld.finish_block(Terminator::CondBr { cond: cv, then_to, else_to });
            proof {
                assert(st.tmp[cond.0 as int] == Some(csv));
                lemma_maps_no_write(*low, *f, bld.sigs@, bld.vals@, b, i);
                assert(cur_emits(*f, st, f.blocks@[b].stmts@[i], Seq::<Inst>::empty()));
                assert(cur0 =~= cur0 + Seq::<Inst>::empty());
                lemma_block_emits_step(fmap, *f, sigp, b, i, cur0, cur0, Seq::empty());
                assert(f.blocks@[b].stmts@.take(i + 1) =~= f.blocks@[b].stmts@);
                assert(block_emits(
                    fmap,
                    *f,
                    bind_blocks(fmap, *f, sigp, b),
                    f.blocks@[b].stmts@,
                    bld.done@.last().instrs@,
                ));
                assert(term_emits(st, f.blocks@[b].stmts@[i], (Terminator::CondBr { cond: cv, then_to, else_to })));
                assert(block_fully_lowered(fmap, *f, sigp, b, bld.done@.last()));
                lemma_bind_block_bridge(fmap, *f, sigp, b);
                assert forall|k: int|
                    0 <= k < bld.done@.len() implies block_fully_lowered(
                    fmap,
                    *f,
                    sigp,
                    k,
                    #[trigger] bld.done@[k],
                ) by {
                    if k < bld.done@.len() - 1 {
                        assert(bld.done@[k] == bld.done@.drop_last()[k]);
                    }
                }
                assert(f.blocks@[b + 1].stmts@.take(0) =~= Seq::<Statement>::empty());
                assert(bld.prologue@ =~= pro0 + alloca_emit(st, f.blocks@[b].stmts@[i]));
                assert(bld.prologue@ == allocas_at(fmap, *f, sigp, b + 1, 0));
                assert(bind_match(*low, *bld, b + 1, 0));
                assert(content_ok(*bld, b + 1, 0));
            }
        },
    }
}

} // verus!

verus! {

/// Lowers one whole block: every statement in order, ending with the
/// block's terminator, which completes the corresponding native block.
fn lower_block(
    low: &mut Lowerer,
    bld: &mut FnBuilder,
    f: &Function,
    funcs: &IdMap<FuncId, usize>,
    bx: usize,
    Ghost(tfuncs): Ghost<Seq<Function>>,
)
    requires
        builder_ok(*old(bld)),
        old(bld).gf@ == *f,
        bx < f.blocks@.len(),
        wf_block(tfuncs, *f, f.blocks@[bx as int]),
        forall|i: int|
            0 <= i < f.blocks@[bx as int].stmts@.len() ==> #[trigger] stmt_reads_ok(
                *f,
                bx as int,
                i,
            ),
        maps_ok(*old(low), *f, old(bld).sigs@, old(bld).vals@, bx as int, 0),
        funcs_map_ok(*funcs, tfuncs, old(bld).sigs@),
        old(bld).done@.len() == bx,
        bind_match(*old(low), *old(bld), bx as int, 0),
        content_ok(*old(bld), bx as int, 0),
        old(bld).gfmap@ == funcs.slots(),
    ensures
        builder_ok(*final(bld)),
        final(bld).sigs == old(bld).sigs,
        final(bld).gsig == old(bld).gsig,
        final(bld).gf == old(bld).gf,
        final(bld).gfmap == old(bld).gfmap,
        final(bld).n_params == old(bld).n_params,
        old(bld).vals@.is_prefix_of(final(bld).vals@),
        maps_ok(*final(low), *f, final(bld).sigs@, final(bld).vals@, bx + 1 as int, 0),
        final(bld).done@.len() == bx + 1,
        bind_match(*final(low), *final(bld), bx + 1 as int, 0),
        content_ok(*final(bld), bx + 1 as int, 0),
{
    let stmts = &f.blocks[bx].stmts;
    let n = stmts.len();
    let ghost vals0 = bld.vals@;
    let mut i: usize = 0;
    while i < n
        invariant
            builder_ok(*bld),
            bld.sigs == old(bld).sigs,
            bld.gsig == old(bld).gsig,
            bld.gf == old(bld).gf,
            bld.gf@ == *f,
            bld.n_params == old(bld).n_params,
            vals0.is_prefix_of(bld.vals@),
            i <= n,
            n == f.blocks@[bx as int].stmts@.len(),
            stmts@ == f.blocks@[bx as int].stmts@,
            bx < f.blocks@.len(),
            wf_block(tfuncs, *f, f.blocks@[bx as int]),
            forall|ii: int|
                0 <= ii < f.blocks@[bx as int].stmts@.len() ==> #[trigger] stmt_reads_ok(
                    *f,
                    bx as int,
                    ii,
                ),
            maps_ok(*low, *f, bld.sigs@, bld.vals@, bx as int, i as int),
            funcs_map_ok(*funcs, tfuncs, bld.sigs@),
            bld.done@.len() == if i == n {
                bx + 1
            } else {
                bx as int
            },
            bld.gfmap == old(bld).gfmap,
            bld.gfmap@ == funcs.slots(),
            i < n ==> bind_match(*low, *bld, bx as int, i as int) && content_ok(
                *bld,
                bx as int,
                i as int,
            ),
            i == n ==> bind_match(*low, *bld, bx + 1 as int, 0) && content_ok(
                *bld,
                bx + 1 as int,
                0,
            ),
        decreases n - i,
    {
        let ghost prev = bld.vals@;
        proof {
            // the block's terminator is its final statement and stands
            // nowhere else
            if i as int == n - 1 {
                assert(is_terminator(f.blocks@[bx as int].stmts@[i as int]));
            } else {
                assert(!is_terminator(f.blocks@[bx as int].stmts@[i as int]));
            }
        }
        lower_stmt(
            low,
            bld,
            f,
            funcs,
            &stmts[i],
            Ghost(tfuncs),
            Ghost(bx as int),
            Ghost(i as int),
        );
        proof {
            assert(vals0.is_prefix_of(prev) && prev.is_prefix_of(bld.vals@));
            assert(vals0 =~= bld.vals@.take(vals0.len() as int));
        }
        i = i + 1;
    }
    proof {
        lemma_block_bridge(*f, bx as int);
    }
}

/// Lowers one typed function to a complete native function: a prologue
/// block holding every stack allocation, then one native block per source
/// block in ascending id order, the prologue branching into the lowered
/// entry block once all blocks are done.  The result is structurally well
/// formed by construction, and the final maps witness that every bound
/// slot is a function reference exactly when its static type is a
/// function type.
pub fn lower_function(
    low: &mut Lowerer,
    f: &Function,
    funcs: &IdMap<FuncId, usize>,
    Ghost(tfuncs): Ghost<Seq<Function>>,
    Ghost(sigs): Ghost<Seq<NativeSig>>,
) -> (r: (NativeSig, NativeFunction))
    requires
        wf_function(tfuncs, *f),
        funcs_map_ok(*funcs, tfuncs, sigs),
    ensures
        sig_matches(r.0, f.params@, f.ret),
        wf_native_fn(sigs, r.0, r.1),
        alloca_discipline(r.1),
        r.1.blocks@.len() == f.blocks@.len() + 1,
        forall|k: int|
            0 <= k < f.blocks@.len() ==> ((#[trigger] r.1.blocks@[k + 1].term) matches Some(t)
                && term_corresponds(f.blocks@[k].stmts@.last(), t)),
        r.1.vals@ == bind_at(funcs.slots(), *f, r.0.params@, f.blocks@.len() as int, 0).vals,
        r.1.blocks@[0].instrs@ == allocas_at(
            funcs.slots(),
            *f,
            r.0.params@,
            f.blocks@.len() as int,
            0,
        ),
        forall|k: int|
            0 <= k < f.blocks@.len() ==> block_fully_lowered(
                funcs.slots(),
                *f,
                r.0.params@,
                k,
                #[trigger] r.1.blocks@[k + 1],
            ),
        forall|t: int|
            0 <= t < f.temporaries@.len() ==> match #[trigger] final(low).tmp_map.slots()[t] {
                Some(sv) => (sv is FunctionRef <==> f.temporaries@[t] is Func),
                None => true,
            },
        forall|x: int|
            0 <= x < f.variables@.len() ==> match #[trigger] final(low).var_map.slots()[x] {
                Some(sv) => (sv is FunctionRef <==> f.variables@[x] is Func),
                None => true,
            },
{
    let sig = to_prototype(&f.ret, &f.params);

    // the value table starts with one slot per native parameter
    let mut vals: Vec<NativeType> = Vec::new();
    let np = sig.params.len();
    let mut j: usize = 0;
    while j < np
        invariant
            j <= np,
            np == sig.params@.len(),
            vals@ == sig.params@.take(j as int),
        decreases np - j,
    {
        vals.push(sig.params[j]);
        proof {
            assert(sig.params@.take(j + 1 as int).drop_last() =~= sig.params@.take(j as int));
        }
        j = j + 1;
    }
    proof {
        assert(sig.params@.take(np as int) =~= sig.params@);
    }

    // reset the reusable maps for this function; capacity is kept
    low.tmp_map.clear();
    low.tmp_map.reserve(f.temporaries.len());
    low.var_map.clear();
    low.var_map.reserve(f.variables.len());
    low.block_map.clear();
    low.block_map.reserve(f.blocks.len());

    // one native block per source block, in ascending id order, each at
    // index id + 1 (the prologue takes index 0)
    let nblocks = f.blocks.len();
    let mut j: usize = 0;
    while j < nblocks
        invariant
            j <= nblocks,
            nblocks == f.blocks@.len(),
            low.block_map.cap() >= f.blocks@.len(),
            low.tmp_map.cap() >= f.temporaries@.len(),
            low.var_map.cap() >= f.variables@.len(),
            forall|t: int| 0 <= t < low.tmp_map.cap() ==> (#[trigger] low.tmp_map.slots()[t]) is None,
            forall|x: int| 0 <= x < low.var_map.cap() ==> (#[trigger] low.var_map.slots()[x]) is None,
            forall|k: int|
                0 <= k < j ==> ((#[trigger] low.block_map.slots()[k]) matches Some(w) && w == k
                    + 1),
            forall|k: int|
                j <= k < low.block_map.cap() ==> (#[trigger] low.block_map.slots()[k]) is None,
        decreases nblocks - j,
    {
        low.block_map.set(BlockId(j), j + 1);
        j = j + 1;
    }

    let mut bld = FnBuilder {
        n_params: np,
        vals,
        prologue: Vec::new(),
        done: Vec::new(),
        cur: Vec::new(),
        sigs: Ghost(sigs),
        gsig: Ghost(sig),
        gf: Ghost(*f),
        gfmap: Ghost(funcs.slots()),
    };
    proof {
        lemma_def_init(*f);
        assert(builder_ok(bld));
        assert(maps_ok(*low, *f, sigs, bld.vals@, 0, 0));
        lemma_bind_at_init(funcs.slots(), *f, sig.params@);
        assert(f.blocks@[0].stmts@.take(0) =~= Seq::<Statement>::empty());
        assert(bind_match(*low, bld, 0, 0));
        assert(content_ok(bld, 0, 0));
    }

    let mut bx: usize = 0;
    while bx < nblocks
        invariant
            bx <= nblocks,
            nblocks == f.blocks@.len(),
            builder_ok(bld),
            bld.sigs@ == sigs,
            bld.gsig@ == sig,
            bld.gf@ == *f,
            bld.n_params == np,
            wf_function(tfuncs, *f),
            funcs_map_ok(*funcs, tfuncs, sigs),
            maps_ok(*low, *f, sigs, bld.vals@, bx as int, 0),
            bld.done@.len() == bx,
            bld.gfmap@ == funcs.slots(),
            bind_match(*low, bld, bx as int, 0),
            content_ok(bld, bx as int, 0),
        decreases nblocks - bx,
    {
        lower_block(low, &mut bld, f, funcs, bx, Ghost(tfuncs));
        bx = bx + 1;
    }

    // all allocations now dominate every use: branch from the prologue
    // into the lowered entry block
    let FnBuilder { n_params, vals, prologue, done, cur: _, sigs: _, gsig: _, gf: _, gfmap: _ } = bld;
    let ghost prologue0 = prologue@;
    let ghost done0 = done@;
    let mut blocks: Vec<NativeBlock> = Vec::new();
    blocks.push(NativeBlock { instrs: prologue, term: Some(Terminator::Br { to: 1 }) });
    let mut done = done;
    blocks.append(&mut done);
    let nf = NativeFunction { n_params, vals, blocks };

    proof {
        assert(nf.blocks@.len() == f.blocks@.len() + 1);
        assert forall|k: int|
            0 <= k < f.blocks@.len() implies ((#[trigger] nf.blocks@[k + 1].term) matches Some(t)
            && term_corresponds(f.blocks@[k].stmts@.last(), t)) by {
            assert(nf.blocks@[k + 1] == done0[k]);
            assert(completed_ok(sigs, sig.ret, nf.vals@, *f, done0[k], k));
        }
        assert(nf.blocks@[0].instrs@ == prologue0);
        assert forall|k: int|
            0 <= k < f.blocks@.len() implies block_fully_lowered(
            funcs.slots(),
            *f,
            sig.params@,
            k,
            #[trigger] nf.blocks@[k + 1],
        ) by {
            assert(nf.blocks@[k + 1] == done0[k]);
        }
        assert forall|bi: int|
            0 <= bi < nf.blocks@.len() implies wf_native_block(
            sigs,
            sig.ret,
            nf.vals@,
            nf.blocks@.len() as int,
            #[trigger] nf.blocks@[bi],
        ) by {
            if bi == 0 {
                assert(wf_term(
                    sig.ret,
                    nf.vals@,
                    nf.blocks@.len() as int,
                    Terminator::Br { to: 1 },
                ));
            } else {
                assert(nf.blocks@[bi] == done0[bi - 1]);
                assert(completed_ok(sigs, sig.ret, nf.vals@, *f, done0[bi - 1], bi - 1));
            }
        }
        assert(alloca_discipline(nf)) by {
            assert(nf.blocks@[0].instrs@ == prologue0);
            assert forall|bi: int, ii: int|
                1 <= bi < nf.blocks@.len() && 0 <= ii < nf.blocks@[bi].instrs@.len() implies !((
            #[trigger] nf.blocks@[bi].instrs@[ii]) is Alloca) by {
                assert(nf.blocks@[bi] == done0[bi - 1]);
                assert(completed_ok(sigs, sig.ret, nf.vals@, *f, done0[bi - 1], bi - 1));
            }
        }
        assert forall|t: int|
            0 <= t < f.temporaries@.len() implies match #[trigger] low.tmp_map.slots()[t] {
            Some(sv) => (sv is FunctionRef <==> f.temporaries@[t] is Func),
            None => true,
        } by {
            match low.tmp_map.slots()[t] {
                Some(sv) => {
                    assert(tmp_slot_ok(*f, sigs, nf.vals@, t, sv));
                },
                None => {},
            }
        }
        assert forall|x: int|
            0 <= x < f.variables@.len() implies match #[trigger] low.var_map.slots()[x] {
            Some(sv) => (sv is FunctionRef <==> f.variables@[x] is Func),
            None => true,
        } by {
            match low.var_map.slots()[x] {
                Some(sv) => {
                    assert(var_slot_ok(*f, sigs, nf.vals@, x, sv));
                },
                None => {},
            }
        }
    }
    (sig, nf)
}

} // verus!

verus! {

/// The walk's binding state, recomputed at specification level.  The
/// lowering is deterministic, so which slot each temporary and variable
/// is bound to, and the type of every value slot handed out, is a
/// function of the source function, the function table and the position
/// of the walk alone.
#[verifier::ext_equal]
pub struct BindSt {
    pub tmp: Seq<Option<SlotValue>>,
    pub var: Seq<Option<SlotValue>>,
    pub vals: Seq<NativeType>,
}

/// The binding state before any statement has been walked: nothing bound,
/// one value slot per native parameter.
pub open spec fn bind_init(f: Function, sig_params: Seq<NativeType>) -> BindSt {
    BindSt {
        tmp: Seq::new(f.temporaries@.len(), |t: int| None),
        var: Seq::new(f.variables@.len(), |x: int| None),
        vals: sig_params,
    }
}

/// The native type of a binary operation's result slot.
pub open spec fn bin_result_ty(op: NativeOp) -> NativeType {
    match op {
        NativeOp::Add | NativeOp::Sub | NativeOp::Mul | NativeOp::SDiv | NativeOp::SRem => NativeType::I32,
        _ => NativeType::I1,
    }
}

/// How one statement advances the binding state: which slot it binds and
/// which fresh value slot, of which type, it consumes.
pub open spec fn bind_step(
    fmap: Seq<Option<usize>>,
    f: Function,
    st: BindSt,
    s: Statement,
) -> BindSt {
    match s {
        Statement::Let { dst, src } => match st.tmp[src.0 as int] {
            Some(SlotValue::Value(_)) => BindSt {
                tmp: st.tmp,
                var: st.var.update(dst.0 as int, Some(SlotValue::Value(st.vals.len() as usize))),
                vals: st.vals.push(NativeType::Ptr),
            },
            Some(SlotValue::FunctionRef(d)) => BindSt {
                tmp: st.tmp,
                var: st.var.update(dst.0 as int, Some(SlotValue::FunctionRef(d))),
                vals: st.vals,
            },
            None => st,
        },
        Statement::Store { .. } => st,
        Statement::Load { dst, src } => match st.var[src.0 as int] {
            Some(SlotValue::Value(_)) => BindSt {
                tmp: st.tmp.update(dst.0 as int, Some(SlotValue::Value(st.vals.len() as usize))),
                var: st.var,
                vals: st.vals.push(native_val_ty(f.variables@[src.0 as int])),
            },
            Some(SlotValue::FunctionRef(d)) => BindSt {
                tmp: st.tmp.update(dst.0 as int, Some(SlotValue::FunctionRef(d))),
                var: st.var,
                vals: st.vals,
            },
            None => st,
        },
        Statement::Host { dst, src } => match fmap[src.0 as int] {
            Some(d) => BindSt {
                tmp: st.tmp.update(dst.0 as int, Some(SlotValue::FunctionRef(d))),
                var: st.var,
                vals: st.vals,
            },
            None => st,
        },
        Statement::Func { dst, src } => match fmap[src.0 as int] {
            Some(d) => BindSt {
                tmp: st.tmp.update(dst.0 as int, Some(SlotValue::FunctionRef(d))),
                var: st.var,
                vals: st.vals,
            },
            None => st,
        },
        Statement::Const { dst, src } => BindSt {
            tmp: st.tmp.update(dst.0 as int, Some(SlotValue::Value(st.vals.len() as usize))),
            var: st.var,
            vals: st.vals.push(
                match src {
                    ConstLiteral::I32(_) => NativeType::I32,
                    ConstLiteral::Bool(_) => NativeType::I1,
                },
            ),
        },
        Statement::BinExpr { dst, lhs, op, .. } => BindSt {
            tmp: st.tmp.update(dst.0 as int, Some(SlotValue::Value(st.vals.len() as usize))),
            var: st.var,
            vals: st.vals.push(bin_result_ty(native_op_of(f.temporaries@[lhs.0 as int], op))),
        },
        Statement::Call { dst, .. } => BindSt {
            tmp: st.tmp.update(dst.0 as int, Some(SlotValue::Value(st.vals.len() as usize))),
            var: st.var,
            vals: st.vals.push(native_val_ty(f.temporaries@[dst.0 as int])),
        },
        _ => st,
    }
}

/// How many instructions one statement emits into the block being
/// lowered.
pub open spec fn emit_len(st: BindSt, s: Statement) -> int {
    match s {
        Statement::Let { src, .. } => match st.tmp[src.0 as int] {
            Some(SlotValue::Value(_)) => 1,
            _ => 0,
        },
        Statement::Store { .. } => 1,
        Statement::Load { src, .. } => match st.var[src.0 as int] {
            Some(SlotValue::Value(_)) => 1,
            _ => 0,
        },
        Statement::Const { .. } => 1,
        Statement::BinExpr { .. } => 1,
        Statement::Call { .. } => 1,
        _ => 0,
    }
}

/// Exactly which instructions one statement emits into the block being
/// lowered, given the binding state before it: the instruction-level
/// counterpart of `term_emits`.
pub open spec fn cur_emits(f: Function, st: BindSt, s: Statement, emitted: Seq<Inst>) -> bool {
    match s {
        Statement::Let { dst, src } => match st.tmp[src.0 as int] {
            Some(SlotValue::Value(v)) => emitted == seq![
                Inst::Store { ptr: st.vals.len() as usize, src: v },
            ],
            Some(SlotValue::FunctionRef(_)) => emitted.len() == 0,
            None => false,
        },
        Statement::Store { dst, src } => (st.var[dst.0 as int] matches Some(SlotValue::Value(p))
            && st.tmp[src.0 as int] matches Some(SlotValue::Value(v)) && emitted == seq![
            Inst::Store { ptr: p, src: v },
        ]),
        Statement::Load { dst, src } => match st.var[src.0 as int] {
            Some(SlotValue::Value(p)) => emitted == seq![
                Inst::Load {
                    dst: st.vals.len() as usize,
                    ty: native_val_ty(f.variables@[src.0 as int]),
                    ptr: p,
                },
            ],
            Some(SlotValue::FunctionRef(_)) => emitted.len() == 0,
            None => false,
        },
        Statement::Host { .. } => emitted.len() == 0,
        Statement::Func { .. } => emitted.len() == 0,
        Statement::Const { dst, src } => match src {
            ConstLiteral::I32(n) => emitted == seq![
                Inst::ConstI32 { dst: st.vals.len() as usize, val: n },
            ],
            ConstLiteral::Bool(bv) => emitted == seq![
                Inst::ConstBool { dst: st.vals.len() as usize, val: bv },
            ],
        },
        Statement::BinExpr { dst, lhs, op, rhs } => (st.tmp[lhs.0 as int] matches Some(
            SlotValue::Value(a),
        ) && st.tmp[rhs.0 as int] matches Some(SlotValue::Value(bb)) && emitted == seq![
            Inst::Bin {
                dst: st.vals.len() as usize,
                op: native_op_of(f.temporaries@[lhs.0 as int], op),
                lhs: a,
                rhs: bb,
            },
        ]),
        Statement::Call { dst, func, args } => (st.tmp[func.0 as int] matches Some(
            SlotValue::FunctionRef(d),
        ) && emitted.len() == 1 && (emitted[0] matches Inst::Call { dst: rd, callee, args: cargs }
            && rd == st.vals.len() && callee == d && cargs@.len() == args@.len() && forall|j: int|
            0 <= j < args@.len() ==> (st.tmp[(#[trigger] args@[j]).0 as int] matches Some(
                SlotValue::Value(v),
            ) && cargs@[j] == v))),
        Statement::Return { .. } => false,
        Statement::ReturnVoid => emitted.len() == 0,
        Statement::UnconditionalJump { .. } => emitted.len() == 0,
        Statement::ConditionalJump { .. } => emitted.len() == 0,
    }
}

/// Exactly which stack allocation one statement adds to the prologue.
pub open spec fn alloca_emit(st: BindSt, s: Statement) -> Seq<Inst> {
    match s {
        Statement::Let { dst, src } => match st.tmp[src.0 as int] {
            Some(SlotValue::Value(v)) => seq![
                Inst::Alloca { dst: st.vals.len() as usize, ty: st.vals[v as int] },
            ],
            _ => Seq::empty(),
        },
        _ => Seq::empty(),
    }
}

/// The native terminator one terminator statement emits, given the
/// binding state before it: the branch condition is exactly the slot
/// bound to the statement's condition temporary.
pub open spec fn term_emits(st: BindSt, s: Statement, t: Terminator) -> bool {
    match s {
        Statement::ReturnVoid => t == Terminator::RetVoid,
        Statement::UnconditionalJump { id } => t matches Terminator::Br { to } && to == id.0 + 1,
        Statement::ConditionalJump { cond, then_block, else_block } => (st.tmp[cond.0 as int]
            matches Some(SlotValue::Value(cv)) && (t matches Terminator::CondBr {
            cond: c,
            then_to,
            else_to,
        } && c == cv && then_to == then_block.0 + 1 && else_to == else_block.0 + 1)),
        _ => false,
    }
}

/// The binding state after walking a statement sequence.
pub open spec fn bind_stmts(
    fmap: Seq<Option<usize>>,
    f: Function,
    st0: BindSt,
    stmts: Seq<Statement>,
) -> BindSt
    decreases stmts.len(),
{
    if stmts.len() == 0 {
        st0
    } else {
        bind_step(fmap, f, bind_stmts(fmap, f, st0, stmts.drop_last()), stmts.last())
    }
}

/// The binding state after walking the first `b` blocks.
pub open spec fn bind_blocks(
    fmap: Seq<Option<usize>>,
    f: Function,
    sig_params: Seq<NativeType>,
    b: int,
) -> BindSt
    decreases b,
{
    if b <= 0 {
        bind_init(f, sig_params)
    } else {
        bind_stmts(fmap, f, bind_blocks(fmap, f, sig_params, b - 1), f.blocks@[b - 1].stmts@)
    }
}

/// The binding state at position (`b`, `i`) of the walk.
pub open spec fn bind_at(
    fmap: Seq<Option<usize>>,
    f: Function,
    sig_params: Seq<NativeType>,
    b: int,
    i: int,
) -> BindSt {
    bind_stmts(fmap, f, bind_blocks(fmap, f, sig_params, b), f.blocks@[b].stmts@.take(i))
}

/// The prologue's stack allocations contributed by one statement
/// sequence, in walking order.
pub open spec fn allocas_stmts(
    fmap: Seq<Option<usize>>,
    f: Function,
    st0: BindSt,
    stmts: Seq<Statement>,
) -> Seq<Inst>
    decreases stmts.len(),
{
    if stmts.len() == 0 {
        Seq::empty()
    } else {
        allocas_stmts(fmap, f, st0, stmts.drop_last()) + alloca_emit(
            bind_stmts(fmap, f, st0, stmts.drop_last()),
            stmts.last(),
        )
    }
}

/// The prologue's stack allocations contributed by the first `b` blocks.
pub open spec fn allocas_blocks(
    fmap: Seq<Option<usize>>,
    f: Function,
    sig_params: Seq<NativeType>,
    b: int,
) -> Seq<Inst>
    decreases b,
{
    if b <= 0 {
        Seq::empty()
    } else {
        allocas_blocks(fmap, f, sig_params, b - 1) + allocas_stmts(
            fmap,
            f,
            bind_blocks(fmap, f, sig_params, b - 1),
            f.blocks@[b - 1].stmts@,
        )
    }
}

/// The whole prologue at position (`b`, `i`) of the walk.
pub open spec fn allocas_at(
    fmap: Seq<Option<usize>>,
    f: Function,
    sig_params: Seq<NativeType>,
    b: int,
    i: int,
) -> Seq<Inst> {
    allocas_blocks(fmap, f, sig_params, b) + allocas_stmts(
        fmap,
        f,
        bind_blocks(fmap, f, sig_params, b),
        f.blocks@[b].stmts@.take(i),
    )
}

/// The instructions of one lowered block are exactly the per-statement
/// emissions, concatenated in statement order.
pub open spec fn block_emits(
    fmap: Seq<Option<usize>>,
    f: Function,
    st0: BindSt,
    stmts: Seq<Statement>,
    instrs: Seq<Inst>,
) -> bool
    decreases stmts.len(),
{
    if stmts.len() == 0 {
        instrs.len() == 0
    } else {
        let st_last = bind_stmts(fmap, f, st0, stmts.drop_last());
        let n1 = emit_len(st_last, stmts.last());
        &&& instrs.len() >= n1
        &&& block_emits(fmap, f, st0, stmts.drop_last(), instrs.take(instrs.len() - n1))
        &&& cur_emits(f, st_last, stmts.last(), instrs.skip(instrs.len() - n1))
    }
}

/// The full per-statement correspondence for one completed native block
/// `k + 1`: its instructions are exactly what source block `k`'s
/// statements emit, and its terminator is exactly what the block's final
/// statement emits, branch condition operand included.
pub open spec fn block_fully_lowered(
    fmap: Seq<Option<usize>>,
    f: Function,
    sig_params: Seq<NativeType>,
    k: int,
    nb: NativeBlock,
) -> bool {
    &&& block_emits(
        fmap,
        f,
        bind_blocks(fmap, f, sig_params, k),
        f.blocks@[k].stmts@,
        nb.instrs@,
    )
    &&& nb.term matches Some(t) && term_emits(
        bind_at(fmap, f, sig_params, k, f.blocks@[k].stmts@.len() - 1),
        f.blocks@[k].stmts@.last(),
        t,
    )
}

/// One step of the walk advances the binding state and the prologue by
/// exactly the stepped statement's contribution.
pub proof fn lemma_bind_at_step(
    fmap: Seq<Option<usize>>,
    f: Function,
    sig_params: Seq<NativeType>,
    b: int,
    i: int,
)
    requires
        0 <= b < f.blocks@.len(),
        0 <= i < f.blocks@[b].stmts@.len(),
    ensures
        bind_at(fmap, f, sig_params, b, i + 1) == bind_step(
            fmap,
            f,
            bind_at(fmap, f, sig_params, b, i),
            f.blocks@[b].stmts@[i],
        ),
        allocas_at(fmap, f, sig_params, b, i + 1) == allocas_at(fmap, f, sig_params, b, i)
            + alloca_emit(bind_at(fmap, f, sig_params, b, i), f.blocks@[b].stmts@[i]),
{
    let stmts = f.blocks@[b].stmts@;
    let st0 = bind_blocks(fmap, f, sig_params, b);
    assert(stmts.take(i + 1).drop_last() =~= stmts.take(i));
    assert(stmts.take(i + 1).last() == stmts[i]);
    assert(allocas_at(fmap, f, sig_params, b, i + 1) =~= allocas_at(fmap, f, sig_params, b, i)
        + alloca_emit(bind_at(fmap, f, sig_params, b, i), stmts[i]));
}

/// Finishing one block and starting the next keeps the binding state and
/// the prologue.
pub proof fn lemma_bind_block_bridge(
    fmap: Seq<Option<usize>>,
    f: Function,
    sig_params: Seq<NativeType>,
    b: int,
)
    requires
        0 <= b < f.blocks@.len(),
    ensures
        bind_at(fmap, f, sig_params, b + 1, 0) == bind_at(
            fmap,
            f,
            sig_params,
            b,
            f.blocks@[b].stmts@.len() as int,
        ),
        allocas_at(fmap, f, sig_params, b + 1, 0) == allocas_at(
            fmap,
            f,
            sig_params,
            b,
            f.blocks@[b].stmts@.len() as int,
        ),
{
    let stmts = f.blocks@[b].stmts@;
    assert(stmts.take(stmts.len() as int) =~= stmts);
    assert(f.blocks@[b + 1].stmts@.take(0) =~= Seq::<Statement>::empty());
    assert(allocas_at(fmap, f, sig_params, b + 1, 0) =~= allocas_blocks(fmap, f, sig_params, b + 1));
    assert(allocas_at(fmap, f, sig_params, b, stmts.len() as int) =~= allocas_blocks(
        fmap,
        f,
        sig_params,
        b + 1,
    ));
}

/// Before the walk starts, the binding state is the initial one and the
/// prologue is empty.
pub proof fn lemma_bind_at_init(fmap: Seq<Option<usize>>, f: Function, sig_params: Seq<NativeType>)
    ensures
        bind_at(fmap, f, sig_params, 0, 0) == bind_init(f, sig_params),
        allocas_at(fmap, f, sig_params, 0, 0) == Seq::<Inst>::empty(),
{
    assert(f.blocks@[0].stmts@.take(0) =~= Seq::<Statement>::empty());
    assert(allocas_at(fmap, f, sig_params, 0, 0) =~= Seq::<Inst>::empty());
}

/// Appending one statement's emission to the block being lowered keeps
/// the block's per-statement correspondence.
pub proof fn lemma_block_emits_step(
    fmap: Seq<Option<usize>>,
    f: Function,
    sig_params: Seq<NativeType>,
    b: int,
    i: int,
    cur0: Seq<Inst>,
    cur1: Seq<Inst>,
    e: Seq<Inst>,
)
    requires
        0 <= b < f.blocks@.len(),
        0 <= i < f.blocks@[b].stmts@.len(),
        block_emits(
            fmap,
            f,
            bind_blocks(fmap, f, sig_params, b),
            f.blocks@[b].stmts@.take(i),
            cur0,
        ),
        cur_emits(f, bind_at(fmap, f, sig_params, b, i), f.blocks@[b].stmts@[i], e),
        e.len() == emit_len(bind_at(fmap, f, sig_params, b, i), f.blocks@[b].stmts@[i]),
        cur1 == cur0 + e,
    ensures
        block_emits(
            fmap,
            f,
            bind_blocks(fmap, f, sig_params, b),
            f.blocks@[b].stmts@.take(i + 1),
            cur1,
        ),
{
    let stmts = f.blocks@[b].stmts@;
    assert(stmts.take(i + 1).drop_last() =~= stmts.take(i));
    assert(stmts.take(i + 1).last() == stmts[i]);
    assert(cur1.take(cur1.len() - e.len()) =~= cur0);
    assert(cur1.skip(cur1.len() - e.len()) =~= e);
}

} // verus!

verus! {

/// The exec maps and value table agree exactly with the specification's
/// binding state at position (`b`, `i`) of the walk.
pub open spec fn bind_match(low: Lowerer, bld: FnBuilder, b: int, i: int) -> bool {
    let st = bind_at(bld.gfmap@, bld.gf@, bld.gsig@.params@, b, i);
    &&& st.tmp.len() == bld.gf@.temporaries@.len()
    &&& st.var.len() == bld.gf@.variables@.len()
    &&& forall|t: int|
        0 <= t < bld.gf@.temporaries@.len() ==> #[trigger] low.tmp_map.slots()[t] == st.tmp[t]
    &&& forall|x: int|
        0 <= x < bld.gf@.variables@.len() ==> #[trigger] low.var_map.slots()[x] == st.var[x]
    &&& bld.vals@ == st.vals
}

/// The builder's contents are exactly the walk's emissions so far: the
/// prologue holds precisely the stack allocations of the walked prefix,
/// the block being lowered holds precisely what its walked statements
/// emit, and every completed block corresponds statement by statement to
/// its source block.
pub open spec fn content_ok(bld: FnBuilder, b: int, i: int) -> bool {
    let fmap = bld.gfmap@;
    let f = bld.gf@;
    let sigp = bld.gsig@.params@;
    &&& bld.prologue@ == allocas_at(fmap, f, sigp, b, i)
    &&& block_emits(
        fmap,
        f,
        bind_blocks(fmap, f, sigp, b),
        f.blocks@[b].stmts@.take(i),
        bld.cur@,
    )
    &&& forall|k: int|
        0 <= k < bld.done@.len() ==> block_fully_lowered(fmap, f, sigp, k, #[trigger] bld.done@[k])
}

} // verus!
