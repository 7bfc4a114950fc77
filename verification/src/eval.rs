//! A reference evaluator for the native-instruction program: the
//! semantics the lowering is held to.  Host calls are not performed —
//! each consumes the next entry of a caller-supplied reply queue and is
//! recorded in a call log, so what a program hands to the host and what
//! it does with the answers is fully observable.

use vstd::prelude::*;

use crate::native::{
    Inst, NativeDef, NativeFunction, NativeModule, NativeOp, NativeType, Terminator, ValId,
};

verus! {

/// A runtime value: a 32-bit integer, a 1-bit integer, a stack-slot
/// address, a pointer-sized word, or the zero-sized unit value.
#[derive(Debug, Clone, Copy, PartialEq, Eq, Structural)]
pub enum RtVal {
    Int(i32),
    Bit(bool),
    Addr(usize),
    Word(usize),
    Unit,
}

/// One recorded host call: the raw address called and the argument values
/// handed over, in order.
#[derive(Debug, Clone, PartialEq, Eq)]
pub struct HostCall {
    pub addr: usize,
    pub args: Vec<RtVal>,
}

/// The native meaning of one binary operation.  Integer arithmetic wraps;
/// division and remainder trap (no result) on a zero divisor and on the
/// one overflowing dividend/divisor pair, as the machine's signed
/// division does.
pub open spec fn eval_bin(op: NativeOp, a: RtVal, b: RtVal) -> Option<RtVal> {
    match (op, a, b) {
        (NativeOp::Add, RtVal::Int(x), RtVal::Int(y)) => Some(RtVal::Int(x.wrapping_add(y))),
        (NativeOp::Sub, RtVal::Int(x), RtVal::Int(y)) => Some(RtVal::Int(x.wrapping_sub(y))),
        (NativeOp::Mul, RtVal::Int(x), RtVal::Int(y)) => Some(RtVal::Int(x.wrapping_mul(y))),
        (NativeOp::SDiv, RtVal::Int(x), RtVal::Int(y)) => match x.checked_div(y) {
            Some(z) => Some(RtVal::Int(z)),
            None => None,
        },
        (NativeOp::SRem, RtVal::Int(x), RtVal::Int(y)) => match x.checked_rem(y) {
            Some(z) => Some(RtVal::Int(z)),
            None => None,
        },
        (NativeOp::And, RtVal::Bit(x), RtVal::Bit(y)) => Some(RtVal::Bit(x && y)),
        (NativeOp::Or, RtVal::Bit(x), RtVal::Bit(y)) => Some(RtVal::Bit(x || y)),
        (NativeOp::CmpEq, RtVal::Int(x), RtVal::Int(y)) => Some(RtVal::Bit(x == y)),
        (NativeOp::CmpNe, RtVal::Int(x), RtVal::Int(y)) => Some(RtVal::Bit(x != y)),
        (NativeOp::CmpSlt, RtVal::Int(x), RtVal::Int(y)) => Some(RtVal::Bit(x < y)),
        (NativeOp::CmpSle, RtVal::Int(x), RtVal::Int(y)) => Some(RtVal::Bit(x <= y)),
        (NativeOp::CmpSge, RtVal::Int(x), RtVal::Int(y)) => Some(RtVal::Bit(x >= y)),
        _ => None,
    }
}

/// The argument values a call hands over: every argument slot must be in
/// range and bound.
pub open spec fn args_of(vals: Seq<Option<RtVal>>, args: Seq<ValId>) -> Option<Seq<RtVal>> {
    if forall|j: int|
        0 <= j < args.len() ==> #[trigger] args[j] < vals.len() && vals[args[j] as int] is Some {
        Some(Seq::new(args.len(), |j: int| vals[args[j] as int]->0))
    } else {
        None
    }
}

/// Runs the instructions of one block from position `i` on.  Returns the
/// updated value and memory tables, the host calls made (newest last),
/// and the replies left, or nothing if the program is stuck, traps, or
/// the fuel runs out.
pub open spec fn eval_instrs(
    defs: Seq<NativeDef>,
    instrs: Seq<Inst>,
    i: int,
    vals: Seq<Option<RtVal>>,
    mem: Seq<Option<RtVal>>,
    replies: Seq<RtVal>,
    fuel: nat,
) -> Option<(Seq<Option<RtVal>>, Seq<Option<RtVal>>, Seq<(usize, Seq<RtVal>)>, Seq<RtVal>)>
    decreases fuel, 0nat, instrs.len() - i,
{
    if !(0 <= i <= instrs.len()) {
        None
    } else if i == instrs.len() {
        Some((vals, mem, Seq::empty(), replies))
    } else {
        match instrs[i] {
            Inst::Alloca { dst, ty: _ } => {
                if dst < vals.len() {
                    eval_instrs(
                        defs,
                        instrs,
                        i + 1,
                        vals.update(dst as int, Some(RtVal::Addr(mem.len() as usize))),
                        mem.push(None),
                        replies,
                        fuel,
                    )
                } else {
                    None
                }
            },
            Inst::Store { ptr, src } => {
                if ptr < vals.len() && src < vals.len() && vals[ptr as int] is Some
                    && vals[src as int] is Some {
                    match vals[ptr as int]->0 {
                        RtVal::Addr(a) => {
                            if a < mem.len() {
                                eval_instrs(
                                    defs,
                                    instrs,
                                    i + 1,
                                    vals,
                                    mem.update(a as int, Some(vals[src as int]->0)),
                                    replies,
                                    fuel,
                                )
                            } else {
                                None
                            }
                        },
                        _ => None,
                    }
                } else {
                    None
                }
            },
            Inst::Load { dst, ty: _, ptr } => {
                if dst < vals.len() && ptr < vals.len() && vals[ptr as int] is Some {
                    match vals[ptr as int]->0 {
                        RtVal::Addr(a) => {
                            if a < mem.len() && mem[a as int] is Some {
                                eval_instrs(
                                    defs,
                                    instrs,
                                    i + 1,
                                    vals.update(dst as int, Some(mem[a as int]->0)),
                                    mem,
                                    replies,
                                    fuel,
                                )
                            } else {
                                None
                            }
                        },
                        _ => None,
                    }
                } else {
                    None
                }
            },
            Inst::ConstI32 { dst, val } => {
                if dst < vals.len() {
                    eval_instrs(
                        defs,
                        instrs,
                        i + 1,
                        vals.update(dst as int, Some(RtVal::Int(val))),
                        mem,
                        replies,
                        fuel,
                    )
                } else {
                    None
                }
            },
            Inst::ConstBool { dst, val } => {
                if dst < vals.len() {
                    eval_instrs(
                        defs,
                        instrs,
                        i + 1,
                        vals.update(dst as int, Some(RtVal::Bit(val))),
                        mem,
                        replies,
                        fuel,
                    )
                } else {
                    None
                }
            },
            Inst::ConstWord { dst, val } => {
                if dst < vals.len() {
                    eval_instrs(
                        defs,
                        instrs,
                        i + 1,
                        vals.update(dst as int, Some(RtVal::Word(val))),
                        mem,
                        replies,
                        fuel,
                    )
                } else {
                    None
                }
            },
            Inst::ConstUnit { dst } => {
                if dst < vals.len() {
                    eval_instrs(
                        defs,
                        instrs,
                        i + 1,
                        vals.update(dst as int, Some(RtVal::Unit)),
                        mem,
                        replies,
                        fuel,
                    )
                } else {
                    None
                }
            },
            Inst::Bin { dst, op, lhs, rhs } => {
                if dst < vals.len() && lhs < vals.len() && rhs < vals.len() && vals[lhs as int]
                    is Some && vals[rhs as int] is Some {
                    match eval_bin(op, vals[lhs as int]->0, vals[rhs as int]->0) {
                        Some(c) => eval_instrs(
                            defs,
                            instrs,
                            i + 1,
                            vals.update(dst as int, Some(c)),
                            mem,
                            replies,
                            fuel,
                        ),
                        None => None,
                    }
                } else {
                    None
                }
            },
            Inst::Call { dst, callee, args } => {
                if fuel > 0 && dst < vals.len() {
                    match args_of(vals, args@) {
                        Some(argv) => match eval_fn(
                            defs,
                            callee as int,
                            argv,
                            replies,
                            (fuel - 1) as nat,
                        ) {
                            Some((log1, rep1, ret)) => {
                                let rv = match ret {
                                    Some(v) => v,
                                    None => RtVal::Unit,
                                };
                                match eval_instrs(
                                    defs,
                                    instrs,
                                    i + 1,
                                    vals.update(dst as int, Some(rv)),
                                    mem,
                                    rep1,
                                    fuel,
                                ) {
                                    Some((v2, m2, log2, rep2)) => Some((v2, m2, log1 + log2, rep2)),
                                    None => None,
                                }
                            },
                            None => None,
                        },
                        None => None,
                    }
                } else {
                    None
                }
            },
            Inst::CallPtr { dst, addr, sig: _, args } => {
                if dst < vals.len() && replies.len() > 0 {
                    match args_of(vals, args@) {
                        Some(argv) => {
                            match eval_instrs(
                                defs,
                                instrs,
                                i + 1,
                                vals.update(dst as int, Some(replies.first())),
                                mem,
                                replies.drop_first(),
                                fuel,
                            ) {
                                Some((v2, m2, log2, rep2)) => Some(
                                    (v2, m2, seq![(addr, argv)] + log2, rep2),
                                ),
                                None => None,
                            }
                        },
                        None => None,
                    }
                } else {
                    None
                }
            },
        }
    }
}

/// Runs one function body from block `blk` on: the block's instructions,
/// then its terminator, until a return.  Returns the host-call log, the
/// replies left and the returned value (`None` for a void return).
pub open spec fn eval_from_block(
    defs: Seq<NativeDef>,
    nf: NativeFunction,
    vals: Seq<Option<RtVal>>,
    mem: Seq<Option<RtVal>>,
    blk: int,
    replies: Seq<RtVal>,
    fuel: nat,
) -> Option<(Seq<(usize, Seq<RtVal>)>, Seq<RtVal>, Option<RtVal>)>
    decreases fuel, 1nat, 0nat,
{
    if !(0 <= blk < nf.blocks@.len()) {
        None
    } else {
        match eval_instrs(defs, nf.blocks@[blk].instrs@, 0, vals, mem, replies, fuel) {
            Some((vals2, mem2, log1, rep2)) => match nf.blocks@[blk].term {
                Some(Terminator::Br { to }) => {
                    if fuel > 0 {
                        match eval_from_block(
                            defs,
                            nf,
                            vals2,
                            mem2,
                            to as int,
                            rep2,
                            (fuel - 1) as nat,
                        ) {
                            Some((log2, rep3, ret)) => Some((log1 + log2, rep3, ret)),
                            None => None,
                        }
                    } else {
                        None
                    }
                },
                Some(Terminator::CondBr { cond, then_to, else_to }) => {
                    if fuel > 0 && cond < vals2.len() && vals2[cond as int] is Some {
                        match vals2[cond as int]->0 {
                            RtVal::Bit(bv) => {
                                let tgt = if bv {
                                    then_to as int
                                } else {
                                    else_to as int
                                };
                                match eval_from_block(
                                    defs,
                                    nf,
                                    vals2,
                                    mem2,
                                    tgt,
                                    rep2,
                                    (fuel - 1) as nat,
                                ) {
                                    Some((log2, rep3, ret)) => Some((log1 + log2, rep3, ret)),
                                    None => None,
                                }
                            },
                            _ => None,
                        }
                    } else {
                        None
                    }
                },
                Some(Terminator::Ret { val }) => {
                    if val < vals2.len() && vals2[val as int] is Some {
                        Some((log1, rep2, Some(vals2[val as int]->0)))
                    } else {
                        None
                    }
                },
                Some(Terminator::RetVoid) => Some((log1, rep2, None)),
                None => None,
            },
            None => None,
        }
    }
}

/// Runs the module's function `d` on the given arguments: the reference
/// meaning of one native function.
pub open spec fn eval_fn(
    defs: Seq<NativeDef>,
    d: int,
    args: Seq<RtVal>,
    replies: Seq<RtVal>,
    fuel: nat,
) -> Option<(Seq<(usize, Seq<RtVal>)>, Seq<RtVal>, Option<RtVal>)>
    decreases fuel, 2nat, 0nat,
{
    if !(0 <= d < defs.len()) {
        None
    } else {
        let nf = defs[d].body;
        if args.len() != nf.n_params {
            None
        } else {
            let vals0 = Seq::new(
                nf.vals@.len(),
                |j: int|
                    if j < args.len() {
                        Some(args[j])
                    } else {
                        None
                    },
            );
            eval_from_block(defs, nf, vals0, Seq::empty(), 0, replies, fuel)
        }
    }
}

} // verus!

verus! {

/// What one run of a native function produced: the host calls made, in
/// order, and the returned value (`None` for a void return).
#[derive(Debug)]
pub struct EvalOutcome {
    pub calls: Vec<HostCall>,
    pub ret: Option<RtVal>,
}

/// The recorded host calls are exactly the log the reference semantics
/// gives.
pub open spec fn log_matches(calls: Seq<HostCall>, log: Seq<(usize, Seq<RtVal>)>) -> bool {
    &&& calls.len() == log.len()
    &&& forall|i: int|
        0 <= i < log.len() ==> (#[trigger] calls[i]).addr == log[i].0 && calls[i].args@ == log[i].1
}

/// The call list grew by exactly the entries of `log`, oldest first.
pub open spec fn calls_extended(
    oldc: Seq<HostCall>,
    newc: Seq<HostCall>,
    log: Seq<(usize, Seq<RtVal>)>,
) -> bool {
    &&& newc.len() == oldc.len() + log.len()
    &&& newc.take(oldc.len() as int) == oldc
    &&& forall|k: int|
        0 <= k < log.len() ==> (#[trigger] newc[oldc.len() + k]).addr == log[k].0 && newc[oldc.len()
            + k].args@ == log[k].1
}

/// Two consecutive growths of the call list compose.
proof fn lemma_calls_chain(
    c0: Seq<HostCall>,
    c1: Seq<HostCall>,
    c2: Seq<HostCall>,
    l1: Seq<(usize, Seq<RtVal>)>,
    l2: Seq<(usize, Seq<RtVal>)>,
)
    requires
        calls_extended(c0, c1, l1),
        calls_extended(c1, c2, l2),
    ensures
        calls_extended(c0, c2, l1 + l2),
{
    assert forall|i: int| 0 <= i < c1.len() implies c1[i] == #[trigger] c2[i] by {
        assert(c2.take(c1.len() as int)[i] == c2[i]);
        assert(c1[i] == c2.take(c1.len() as int)[i]);
    }
    assert forall|i: int| 0 <= i < c0.len() implies c0[i] == #[trigger] c1[i] by {
        assert(c1.take(c0.len() as int)[i] == c1[i]);
        assert(c0[i] == c1.take(c0.len() as int)[i]);
    }
    assert(c2.take(c0.len() as int) =~= c0);
    assert forall|k: int|
        0 <= k < (l1 + l2).len() implies (#[trigger] c2[c0.len() + k]).addr == (l1 + l2)[k].0 && c2[
        c0.len() + k].args@ == (l1 + l2)[k].1 by {
        if k < l1.len() {
            assert(c1[c0.len() + k].addr == l1[k].0 && c1[c0.len() + k].args@ == l1[k].1);
            assert(c2[c0.len() + k] == c1[c0.len() + k]);
        } else {
            assert(c2[c1.len() + (k - l1.len())].addr == l2[k - l1.len()].0);
            assert(c2[c1.len() + (k - l1.len())].args@ == l2[k - l1.len()].1);
        }
    }
}

/// The native meaning of one binary operation, as a machine computation.
fn exec_bin(op: NativeOp, a: RtVal, b: RtVal) -> (r: Option<RtVal>)
    ensures
        r == eval_bin(op, a, b),
{
    match (op, a, b) {
        (NativeOp::Add, RtVal::Int(x), RtVal::Int(y)) => Some(RtVal::Int(x.wrapping_add(y))),
        (NativeOp::Sub, RtVal::Int(x), RtVal::Int(y)) => Some(RtVal::Int(x.wrapping_sub(y))),
        (NativeOp::Mul, RtVal::Int(x), RtVal::Int(y)) => Some(RtVal::Int(x.wrapping_mul(y))),
        (NativeOp::SDiv, RtVal::Int(x), RtVal::Int(y)) => match x.checked_div(y) {
            Some(z) => Some(RtVal::Int(z)),
            None => None,
        },
        (NativeOp::SRem, RtVal::Int(x), RtVal::Int(y)) => match x.checked_rem(y) {
            Some(z) => Some(RtVal::Int(z)),
            None => None,
        },
        (NativeOp::And, RtVal::Bit(x), RtVal::Bit(y)) => Some(RtVal::Bit(x && y)),
        (NativeOp::Or, RtVal::Bit(x), RtVal::Bit(y)) => Some(RtVal::Bit(x || y)),
        (NativeOp::CmpEq, RtVal::Int(x), RtVal::Int(y)) => Some(RtVal::Bit(x == y)),
        (NativeOp::CmpNe, RtVal::Int(x), RtVal::Int(y)) => Some(RtVal::Bit(x != y)),
        (NativeOp::CmpSlt, RtVal::Int(x), RtVal::Int(y)) => Some(RtVal::Bit(x < y)),
        (NativeOp::CmpSle, RtVal::Int(x), RtVal::Int(y)) => Some(RtVal::Bit(x <= y)),
        (NativeOp::CmpSge, RtVal::Int(x), RtVal::Int(y)) => Some(RtVal::Bit(x >= y)),
        _ => None,
    }
}

/// Collects a call's argument values, or reports a missing binding.
fn collect_args(vals: &Vec<Option<RtVal>>, args: &Vec<ValId>) -> (r: Option<Vec<RtVal>>)
    ensures
        match args_of(vals@, args@) {
            Some(s) => r matches Some(v) && v@ == s,
            None => r is None,
        },
{
    let n = args.len();
    let mut out: Vec<RtVal> = Vec::new();
    let mut j: usize = 0;
    while j < n
        invariant
            j <= n,
            n == args@.len(),
            out@.len() == j,
            forall|k: int|
                0 <= k < j ==> #[trigger] args@[k] < vals@.len() && vals@[args@[k] as int] is Some,
            forall|k: int| 0 <= k < j ==> #[trigger] out@[k] == vals@[args@[k] as int]->0,
        decreases n - j,
    {
        if !(args[j] < vals.len()) {
            proof {
                assert(!((#[trigger] args@[j as int]) < vals@.len() && vals@[args@[j as int] as int]
                    is Some));
            }
            return None;
        }
        match &vals[args[j]] {
            Some(v) => {
                out.push(*v);
            },
            None => {
                proof {
                    assert(!((#[trigger] args@[j as int]) < vals@.len() && vals@[args@[j
                        as int] as int] is Some));
                }
                return None;
            },
        }
        j = j + 1;
    }
    proof {
        let s = Seq::new(args@.len(), |k: int| vals@[args@[k] as int]->0);
        assert(out@ =~= s);
    }
    Some(out)
}

/// Runs the instructions of one block from position `i` on, mirroring the
/// reference semantics exactly; `r.0` reports success and `r.1` is the
/// new reply position.
#[verifier::rlimit(60)]
fn exec_instrs(
    defs: &Vec<NativeDef>,
    instrs: &Vec<Inst>,
    i: usize,
    vals: &mut Vec<Option<RtVal>>,
    mem: &mut Vec<Option<RtVal>>,
    replies: &Vec<RtVal>,
    rpos: usize,
    calls: &mut Vec<HostCall>,
    fuel: u64,
) -> (r: (bool, usize))
    requires
        rpos <= replies@.len(),
        i <= instrs@.len(),
    ensures
        rpos <= r.1 <= replies@.len(),
        match eval_instrs(
            defs@,
            instrs@,
            i as int,
            old(vals)@,
            old(mem)@,
            replies@.skip(rpos as int),
            fuel as nat,
        ) {
            Some(t) => r.0 && final(vals)@ == t.0 && final(mem)@ == t.1 && calls_extended(
                old(calls)@,
                final(calls)@,
                t.2,
            ) && replies@.skip(r.1 as int) == t.3,
            None => !r.0,
        },
    decreases fuel, 0nat, instrs@.len() - i,
{
    let ghost srep = replies@.skip(rpos as int);
    let ghost vals_in = vals@;
    let ghost mem_in = mem@;
    let ghost calls_in = calls@;
    if i == instrs.len() {
        proof {
            assert(calls@.take(calls@.len() as int) =~= calls@);
            assert(calls_extended(calls@, calls@, Seq::empty()));
        }
        return (true, rpos);
    }
    match &instrs[i] {
        Inst::Alloca { dst, ty: _ } => {
            if !(*dst < vals.len()) {
                return (false, rpos);
            }
            let a = mem.len();
            vals[*dst] = Some(RtVal::Addr(a));
            mem.push(None);
            exec_instrs(defs, instrs, i + 1, vals, mem, replies, rpos, calls, fuel)
        },
        Inst::Store { ptr, src } => {
            if !(*ptr < vals.len() && *src < vals.len()) {
                return (false, rpos);
            }
            let pv = vals[*ptr];
            let sv = vals[*src];
            match (pv, sv) {
                (Some(RtVal::Addr(a)), Some(v)) => {
                    if !(a < mem.len()) {
                        return (false, rpos);
                    }
                    mem[a] = Some(v);
                    exec_instrs(defs, instrs, i + 1, vals, mem, replies, rpos, calls, fuel)
                },
                _ => (false, rpos),
            }
        },
        Inst::Load { dst, ty: _, ptr } => {
            if !(*dst < vals.len() && *ptr < vals.len()) {
                return (false, rpos);
            }
            let pv = vals[*ptr];
            match pv {
                Some(RtVal::Addr(a)) => {
                    if !(a < mem.len()) {
                        return (false, rpos);
                    }
                    let mv = mem[a];
                    match mv {
                        Some(v) => {
                            vals[*dst] = Some(v);
                            exec_instrs(defs, instrs, i + 1, vals, mem, replies, rpos, calls, fuel)
                        },
                        None => (false, rpos),
                    }
                },
                _ => (false, rpos),
            }
        },
        Inst::ConstI32 { dst, val } => {
            if !(*dst < vals.len()) {
                return (false, rpos);
            }
            vals[*dst] = Some(RtVal::Int(*val));
            exec_instrs(defs, instrs, i + 1, vals, mem, replies, rpos, calls, fuel)
        },
        Inst::ConstBool { dst, val } => {
            if !(*dst < vals.len()) {
                return (false, rpos);
            }
            vals[*dst] = Some(RtVal::Bit(*val));
            exec_instrs(defs, instrs, i + 1, vals, mem, replies, rpos, calls, fuel)
        },
        Inst::ConstWord { dst, val } => {
            if !(*dst < vals.len()) {
                return (false, rpos);
            }
            vals[*dst] = Some(RtVal::Word(*val));
            exec_instrs(defs, instrs, i + 1, vals, mem, replies, rpos, calls, fuel)
        },
        Inst::ConstUnit { dst } => {
            if !(*dst < vals.len()) {
                return (false, rpos);
            }
            vals[*dst] = Some(RtVal::Unit);
            exec_instrs(defs, instrs, i + 1, vals, mem, replies, rpos, calls, fuel)
        },
        Inst::Bin { dst, op, lhs, rhs } => {
            if !(*dst < vals.len() && *lhs < vals.len() && *rhs < vals.len()) {
                return (false, rpos);
            }
            let la = vals[*lhs];
            let rb = vals[*rhs];
            match (la, rb) {
                (Some(a), Some(b)) => match exec_bin(*op, a, b) {
                    Some(c) => {
                        vals[*dst] = Some(c);
                        exec_instrs(defs, instrs, i + 1, vals, mem, replies, rpos, calls, fuel)
                    },
                    None => (false, rpos),
                },
                _ => (false, rpos),
            }
        },
        Inst::Call { dst, callee, args } => {
            if !(fuel > 0 && *dst < vals.len()) {
                return (false, rpos);
            }
            match collect_args(vals, args) {
                Some(argv) => {
                    let ghost gargv = argv@;
                    let inner = exec_fn(defs, *callee, &argv, replies, rpos, calls, fuel - 1);
                    if !inner.0 {
                        return (false, rpos);
                    }
                    let rv = match inner.2 {
                        Some(v) => v,
                        None => RtVal::Unit,
                    };
                    vals[*dst] = Some(rv);
                    let ghost calls1 = calls@;
                    let ghost ir = eval_fn(defs@, *callee as int, gargv, srep, (fuel - 1) as nat);
                    let out = exec_instrs(
                        defs,
                        instrs,
                        i + 1,
                        vals,
                        mem,
                        replies,
                        inner.1,
                        calls,
                        fuel,
                    );
                    if !out.0 {
                        return (false, out.1);
                    }
                    proof {
                        let rrv = match (ir->0).2 {
                            Some(v) => v,
                            None => RtVal::Unit,
                        };
                        let rest = eval_instrs(
                            defs@,
                            instrs@,
                            i + 1,
                            vals_in.update(*dst as int, Some(rrv)),
                            mem_in,
                            (ir->0).1,
                            fuel as nat,
                        );
                        lemma_calls_chain(calls_in, calls1, calls@, (ir->0).0, (rest->0).2);
                    }
                    out
                },
                None => (false, rpos),
            }
        },
        Inst::CallPtr { dst, addr, sig: _, args } => {
            if !(*dst < vals.len() && rpos < replies.len()) {
                proof {
                    assert(srep.len() == replies@.len() - rpos);
                }
                return (false, rpos);
            }
            match collect_args(vals, args) {
                Some(argv) => {
                    proof {
                        assert(srep.first() == replies@[rpos as int]);
                        assert(srep.drop_first() =~= replies@.skip(rpos + 1 as int));
                    }
                    let reply = replies[rpos];
                    vals[*dst] = Some(reply);
                    let ghost gargv = argv@;
                    let ghost gaddr = *addr;
                    calls.push(HostCall { addr: *addr, args: argv });
                    proof {
                        assert(calls@.take(calls_in.len() as int) =~= calls_in);
                        assert(calls_extended(calls_in, calls@, seq![(gaddr, gargv)]));
                    }
                    let ghost calls1 = calls@;
                    let out = exec_instrs(
                        defs,
                        instrs,
                        i + 1,
                        vals,
                        mem,
                        replies,
                        rpos + 1,
                        calls,
                        fuel,
                    );
                    if !out.0 {
                        return (false, out.1);
                    }
                    proof {
                        let rest = eval_instrs(
                            defs@,
                            instrs@,
                            i + 1,
                            vals_in.update(*dst as int, Some(replies@[rpos as int])),
                            mem_in,
                            replies@.skip(rpos + 1 as int),
                            fuel as nat,
                        );
                        lemma_calls_chain(calls_in, calls1, calls@, seq![(gaddr, gargv)], (rest->0).2);
                    }
                    out
                },
                None => (false, rpos),
            }
        },
    }
}

/// Runs one function body from block `blk` on, mirroring the reference
/// semantics; `r.2` is the returned value on success.
#[verifier::rlimit(60)]
fn exec_from_block(
    defs: &Vec<NativeDef>,
    nf: &NativeFunction,
    vals: &mut Vec<Option<RtVal>>,
    mem: &mut Vec<Option<RtVal>>,
    blk: usize,
    replies: &Vec<RtVal>,
    rpos: usize,
    calls: &mut Vec<HostCall>,
    fuel: u64,
) -> (r: (bool, usize, Option<RtVal>))
    requires
        rpos <= replies@.len(),
    ensures
        rpos <= r.1 <= replies@.len(),
        match eval_from_block(
            defs@,
            *nf,
            old(vals)@,
            old(mem)@,
            blk as int,
            replies@.skip(rpos as int),
            fuel as nat,
        ) {
            Some(t) => r.0 && calls_extended(old(calls)@, final(calls)@, t.0) && replies@.skip(
                r.1 as int,
            ) == t.1 && r.2 == t.2,
            None => !r.0,
        },
    decreases fuel, 1nat, 0nat,
{
    let ghost srep = replies@.skip(rpos as int);
    let ghost calls_in = calls@;
    if !(blk < nf.blocks.len()) {
        return (false, rpos, None);
    }
    let block = &nf.blocks[blk];
    let step = exec_instrs(defs, &block.instrs, 0, vals, mem, replies, rpos, calls, fuel);
    if !step.0 {
        return (false, step.1, None);
    }
    let ghost calls1 = calls@;
    let ghost ii = eval_instrs(defs@, block.instrs@, 0, old(vals)@, old(mem)@, srep, fuel as nat);
    match &block.term {
        Some(Terminator::Br { to }) => {
            if fuel == 0 {
                return (false, step.1, None);
            }
            let out = exec_from_block(defs, nf, vals, mem, *to, replies, step.1, calls, fuel - 1);
            if !out.0 {
                return (false, out.1, None);
            }
            proof {
                let rest = eval_from_block(
                    defs@,
                    *nf,
                    (ii->0).0,
                    (ii->0).1,
                    *to as int,
                    (ii->0).3,
                    (fuel - 1) as nat,
                );
                lemma_calls_chain(calls_in, calls1, calls@, (ii->0).2, (rest->0).0);
            }
            (true, out.1, out.2)
        },
        Some(Terminator::CondBr { cond, then_to, else_to }) => {
            if fuel == 0 || !(*cond < vals.len()) {
                return (false, step.1, None);
            }
            let cv = vals[*cond];
            match cv {
                Some(RtVal::Bit(bv)) => {
                    let tgt = if bv {
                        *then_to
                    } else {
                        *else_to
                    };
                    let out = exec_from_block(
                        defs,
                        nf,
                        vals,
                        mem,
                        tgt,
                        replies,
                        step.1,
                        calls,
                        fuel - 1,
                    );
                    if !out.0 {
                        return (false, out.1, None);
                    }
                    proof {
                        let rest = eval_from_block(
                            defs@,
                            *nf,
                            (ii->0).0,
                            (ii->0).1,
                            tgt as int,
                            (ii->0).3,
                            (fuel - 1) as nat,
                        );
                        lemma_calls_chain(calls_in, calls1, calls@, (ii->0).2, (rest->0).0);
                    }
                    (true, out.1, out.2)
                },
                _ => (false, step.1, None),
            }
        },
        Some(Terminator::Ret { val }) => {
            if !(*val < vals.len()) {
                return (false, step.1, None);
            }
            let rv = vals[*val];
            match rv {
                Some(v) => (true, step.1, Some(v)),
                None => (false, step.1, None),
            }
        },
        Some(Terminator::RetVoid) => (true, step.1, None),
        None => (false, step.1, None),
    }
}

/// Runs one function of the module on the given arguments, mirroring the
/// reference semantics.
fn exec_fn(
    defs: &Vec<NativeDef>,
    d: usize,
    args: &Vec<RtVal>,
    replies: &Vec<RtVal>,
    rpos: usize,
    calls: &mut Vec<HostCall>,
    fuel: u64,
) -> (r: (bool, usize, Option<RtVal>))
    requires
        rpos <= replies@.len(),
    ensures
        rpos <= r.1 <= replies@.len(),
        match eval_fn(defs@, d as int, args@, replies@.skip(rpos as int), fuel as nat) {
            Some(t) => r.0 && calls_extended(old(calls)@, final(calls)@, t.0) && replies@.skip(
                r.1 as int,
            ) == t.1 && r.2 == t.2,
            None => !r.0,
        },
    decreases fuel, 2nat, 0nat,
{
    if !(d < defs.len()) {
        return (false, rpos, None);
    }
    let nf = &defs[d].body;
    if args.len() != nf.n_params {
        return (false, rpos, None);
    }
    let nv = nf.vals.len();
    let na = args.len();
    let mut vals: Vec<Option<RtVal>> = Vec::new();
    let mut j: usize = 0;
    while j < nv
        invariant
            j <= nv,
            na == args@.len(),
            vals@.len() == j,
            forall|k: int|
                0 <= k < j ==> #[trigger] vals@[k] == if k < na as int {
                    Some(args@[k])
                } else {
                    None
                },
        decreases nv - j,
    {
        if j < na {
            vals.push(Some(args[j]));
        } else {
            vals.push(None);
        }
        j = j + 1;
    }
    proof {
        let v0 = Seq::new(
            nf.vals@.len(),
            |k: int|
                if k < args@.len() {
                    Some(args@[k])
                } else {
                    None
                },
        );
        assert(vals@ =~= v0);
    }
    let mut mem: Vec<Option<RtVal>> = Vec::new();
    let out = exec_from_block(defs, nf, &mut vals, &mut mem, 0, replies, rpos, calls, fuel);
    proof {
        assert(Seq::<Option<RtVal>>::empty() =~= mem@.take(0));
    }
    (out.0, out.1, out.2)
}

/// Runs the module's function `d` on the given arguments under the
/// reference semantics, consuming host replies from `replies`: the
/// observable behaviour — host calls made and value returned — is exactly
/// what `eval_fn` specifies.
pub fn eval_function(
    m: &NativeModule,
    d: usize,
    args: &Vec<RtVal>,
    replies: &Vec<RtVal>,
    fuel: u64,
) -> (r: Option<EvalOutcome>)
    ensures
        match eval_fn(m.defs@, d as int, args@, replies@, fuel as nat) {
            Some(t) => r matches Some(out) && log_matches(out.calls@, t.0) && out.ret == t.2,
            None => r is None,
        },
{
    let mut calls: Vec<HostCall> = Vec::new();
    proof {
        assert(replies@.skip(0) =~= replies@);
    }
    let out = exec_fn(&m.defs, d, args, replies, 0, &mut calls, fuel);
    proof {
        let t = eval_fn(m.defs@, d as int, args@, replies@, fuel as nat);
        if t is Some {
            let log = (t->0).0;
            assert forall|k: int|
                0 <= k < log.len() implies (#[trigger] calls@[k]).addr == log[k].0 && calls@[
                k].args@ == log[k].1 by {
                assert(calls@[0 + k].addr == log[k].0 && calls@[0 + k].args@ == log[k].1);
            }
        }
    }
    if out.0 {
        Some(EvalOutcome { calls, ret: out.2 })
    } else {
        None
    }
}

} // verus!

verus! {

/// Round-trip arithmetic: running the compiled pattern of two 32-bit
/// constants and one table operation binds the result slot to exactly
/// native signed 32-bit arithmetic — wrapping addition, subtraction and
/// multiplication, and trapping division and remainder, which succeed
/// exactly when the divisor is not zero and the pair does not overflow.
pub proof fn lemma_arith_round_trip(
    defs: Seq<NativeDef>,
    a: i32,
    b: i32,
    op: NativeOp,
    replies: Seq<RtVal>,
    fuel: nat,
)
    ensures
        ({
            let instrs = seq![
                Inst::ConstI32 { dst: 0, val: a },
                Inst::ConstI32 { dst: 1, val: b },
                Inst::Bin { dst: 2, op: op, lhs: 0, rhs: 1 },
            ];
            let vals = seq![None::<RtVal>, None, None];
            let r = eval_instrs(defs, instrs, 0, vals, Seq::empty(), replies, fuel);
            match eval_bin(op, RtVal::Int(a), RtVal::Int(b)) {
                Some(c) => r matches Some(t) && t.0 == seq![
                    Some(RtVal::Int(a)),
                    Some(RtVal::Int(b)),
                    Some(c),
                ] && t.2 == Seq::<(usize, Seq<RtVal>)>::empty() && t.3 == replies,
                None => r is None,
            }
        }),
{
    let instrs = seq![
        Inst::ConstI32 { dst: 0, val: a },
        Inst::ConstI32 { dst: 1, val: b },
        Inst::Bin { dst: 2, op: op, lhs: 0, rhs: 1 },
    ];
    let vals = seq![None::<RtVal>, None, None];
    let vals1 = vals.update(0, Some(RtVal::Int(a)));
    let vals2 = vals1.update(1, Some(RtVal::Int(b)));
    assert(eval_instrs(defs, instrs, 0, vals, Seq::empty(), replies, fuel) == eval_instrs(
        defs,
        instrs,
        1,
        vals1,
        Seq::empty(),
        replies,
        fuel,
    ));
    assert(eval_instrs(defs, instrs, 1, vals1, Seq::empty(), replies, fuel) == eval_instrs(
        defs,
        instrs,
        2,
        vals2,
        Seq::empty(),
        replies,
        fuel,
    ));
    match eval_bin(op, RtVal::Int(a), RtVal::Int(b)) {
        Some(c) => {
            let vals3 = vals2.update(2, Some(c));
            assert(eval_instrs(defs, instrs, 2, vals2, Seq::empty(), replies, fuel) == eval_instrs(
                defs,
                instrs,
                3,
                vals3,
                Seq::empty(),
                replies,
                fuel,
            ));
            assert(vals3 =~= seq![Some(RtVal::Int(a)), Some(RtVal::Int(b)), Some(c)]);
        },
        None => {},
    }
}

/// Bridge transparency: calling a plain thunk for host address `addr`
/// performs exactly one host call, forwarding the thunk's own arguments
/// unchanged and in order, and returns exactly what the host replied (or
/// nothing, for a void signature).
pub proof fn lemma_plain_thunk_semantics(
    defs: Seq<NativeDef>,
    d: int,
    addr: usize,
    args: Seq<RtVal>,
    replies: Seq<RtVal>,
    fuel: nat,
)
    requires
        0 <= d < defs.len(),
        crate::bridge::plain_thunk_ok(defs[d], addr),
        args.len() == defs[d].sig.params@.len(),
        replies.len() >= 1,
    ensures
        eval_fn(defs, d, args, replies, fuel) matches Some(t) && t.0 == seq![(addr, args)] && t.1
            == replies.drop_first() && t.2 == (match defs[d].sig.ret {
            Some(_) => Some(replies.first()),
            None => None::<RtVal>,
        }),
{
    let nf = defs[d].body;
    let np = nf.n_params as int;
    let vals0 = Seq::new(
        nf.vals@.len(),
        |j: int|
            if j < args.len() {
                Some(args[j])
            } else {
                None
            },
    );
    let instrs = nf.blocks@[0].instrs@;
    let call = instrs[0];
    match call {
        Inst::CallPtr { dst, addr: a2, sig: _, args: cargs } => {
            assert(args_of(vals0, cargs@) matches Some(av) && av =~= args) by {
                assert(forall|j: int|
                    0 <= j < cargs@.len() ==> #[trigger] cargs@[j] < vals0.len() && vals0[cargs@[j]
                        as int] is Some);
            }
            let vals1 = vals0.update(np, Some(replies.first()));
            let step = eval_instrs(defs, instrs, 1, vals1, Seq::empty(), replies.drop_first(), fuel);
            assert(step == Some(
                (vals1, Seq::<Option<RtVal>>::empty(), Seq::<(usize, Seq<RtVal>)>::empty(),
                replies.drop_first()),
            ));
            assert((args_of(vals0, cargs@)->0) =~= args);
            assert(seq![(addr, args_of(vals0, cargs@)->0)] + Seq::<(usize, Seq<RtVal>)>::empty()
                =~= seq![(addr, args)]);
            assert(vals1[np] == Some(replies.first()));
        },
        _ => {
            assert(false);
        },
    }
}

/// Userdata closure isolation: calling a userdata thunk performs exactly
/// one host call whose first argument is the thunk's own fixed userdata
/// word, followed by the thunk's arguments unchanged and in order.  Two
/// thunks wrapping the same address with distinct words therefore forward
/// only their own word, never the other's.
pub proof fn lemma_userdata_thunk_semantics(
    defs: Seq<NativeDef>,
    d: int,
    addr: usize,
    u: usize,
    args: Seq<RtVal>,
    replies: Seq<RtVal>,
    fuel: nat,
)
    requires
        0 <= d < defs.len(),
        crate::bridge::userdata_thunk_ok(defs[d], addr, u),
        args.len() == defs[d].sig.params@.len(),
        replies.len() >= 1,
    ensures
        eval_fn(defs, d, args, replies, fuel) matches Some(t) && t.0 == seq![
            (addr, seq![RtVal::Word(u)] + args),
        ] && t.1 == replies.drop_first() && t.2 == (match defs[d].sig.ret {
            Some(_) => Some(replies.first()),
            None => None::<RtVal>,
        }),
{
    let nf = defs[d].body;
    let np = nf.n_params as int;
    let vals0 = Seq::new(
        nf.vals@.len(),
        |j: int|
            if j < args.len() {
                Some(args[j])
            } else {
                None
            },
    );
    let instrs = nf.blocks@[0].instrs@;
    let vals1 = vals0.update(np, Some(RtVal::Word(u)));
    assert(instrs[0] == (Inst::ConstWord { dst: np as usize, val: u }));
    assert(eval_instrs(defs, instrs, 0, vals0, Seq::empty(), replies, fuel) == eval_instrs(
        defs,
        instrs,
        1,
        vals1,
        Seq::empty(),
        replies,
        fuel,
    ));
    let call = instrs[1];
    match call {
        Inst::CallPtr { dst, addr: a2, sig: _, args: cargs } => {
            assert(args_of(vals1, cargs@) matches Some(av) && av =~= seq![RtVal::Word(u)] + args)
                by {
                assert(forall|j: int|
                    0 <= j < cargs@.len() ==> #[trigger] cargs@[j] < vals1.len() && vals1[cargs@[j]
                        as int] is Some);
                assert(cargs@[0] == np);
                assert(vals1[np] == Some(RtVal::Word(u)));
            }
            let vals2 = vals1.update(np + 1, Some(replies.first()));
            let step = eval_instrs(defs, instrs, 2, vals2, Seq::empty(), replies.drop_first(), fuel);
            assert(step == Some(
                (vals2, Seq::<Option<RtVal>>::empty(), Seq::<(usize, Seq<RtVal>)>::empty(),
                replies.drop_first()),
            ));
            assert((args_of(vals1, cargs@)->0) =~= seq![RtVal::Word(u)] + args);
            assert(seq![(addr, args_of(vals1, cargs@)->0)] + Seq::<(usize, Seq<RtVal>)>::empty()
                =~= seq![(addr, seq![RtVal::Word(u)] + args)]);
            assert(vals2[np + 1] == Some(replies.first()));
        },
        _ => {
            assert(false);
        },
    }
}

/// Two userdata thunks over the same host address but distinct userdata
/// words are independently callable: each call's argument list starts
/// with that thunk's own word, and the two lists differ in that leading
/// word.
pub proof fn lemma_userdata_isolation(
    defs: Seq<NativeDef>,
    d1: int,
    d2: int,
    addr: usize,
    u1: usize,
    u2: usize,
    args: Seq<RtVal>,
    replies: Seq<RtVal>,
    fuel: nat,
)
    requires
        0 <= d1 < defs.len(),
        0 <= d2 < defs.len(),
        crate::bridge::userdata_thunk_ok(defs[d1], addr, u1),
        crate::bridge::userdata_thunk_ok(defs[d2], addr, u2),
        args.len() == defs[d1].sig.params@.len(),
        args.len() == defs[d2].sig.params@.len(),
        replies.len() >= 1,
        u1 != u2,
    ensures
        ({
            let r1 = eval_fn(defs, d1, args, replies, fuel);
            let r2 = eval_fn(defs, d2, args, replies, fuel);
            &&& r1 matches Some(t1) && t1.0 == seq![(addr, seq![RtVal::Word(u1)] + args)]
            &&& r2 matches Some(t2) && t2.0 == seq![(addr, seq![RtVal::Word(u2)] + args)]
            &&& (r1->0).0[0].1[0] != (r2->0).0[0].1[0]
        }),
{
    lemma_userdata_thunk_semantics(defs, d1, addr, u1, args, replies, fuel);
    lemma_userdata_thunk_semantics(defs, d2, addr, u2, args, replies, fuel);
    assert((seq![RtVal::Word(u1)] + args)[0] == RtVal::Word(u1));
    assert((seq![RtVal::Word(u2)] + args)[0] == RtVal::Word(u2));
}

} // verus!

verus! {

/// Round-trip arithmetic, end to end: lowering a function whose single
/// source block is `t0 = a; t1 = b; t2 = t0 op t1; return` and running
/// the produced native code under the reference semantics succeeds
/// exactly when native signed 32-bit arithmetic is defined for the
/// operands — always for the wrapping Add/Sub/Mul, and for Div/Rem unless
/// the divisor is zero or the pair overflows.  The run makes no host
/// calls and returns nothing: the computed value is bound to the result
/// slot and discarded, value returns having no lowering yet.
pub proof fn lemma_lowered_arith_round_trip(
    fmap: Seq<Option<usize>>,
    defs: Seq<NativeDef>,
    d: int,
    f: crate::ir::Function,
    a: i32,
    b: i32,
    op: crate::ir::BinaryOp,
    fuel: nat,
)
    requires
        0 <= d < defs.len(),
        fuel >= 2,
        crate::ir::op_result_type(crate::ir::Type::I32, op) == Some(crate::ir::Type::I32),
        f.params@.len() == 0,
        f.temporaries@ == seq![crate::ir::Type::I32, crate::ir::Type::I32, crate::ir::Type::I32],
        f.blocks@.len() == 1,
        f.blocks@[0].stmts@ == seq![
            crate::ir::Statement::Const {
                dst: crate::ir::TmpId(0),
                src: crate::ir::ConstLiteral::I32(a),
            },
            crate::ir::Statement::Const {
                dst: crate::ir::TmpId(1),
                src: crate::ir::ConstLiteral::I32(b),
            },
            crate::ir::Statement::BinExpr {
                dst: crate::ir::TmpId(2),
                lhs: crate::ir::TmpId(0),
                op: op,
                rhs: crate::ir::TmpId(1),
            },
            crate::ir::Statement::ReturnVoid,
        ],
        crate::modgen::lowered_def_ok(fmap, f, defs[d]),
        crate::native::wf_native_fn(crate::native::module_sigs(defs), defs[d].sig, defs[d].body),
    ensures
        ({
            let nop = crate::lower::native_op_of(crate::ir::Type::I32, op);
            let r = eval_fn(defs, d, Seq::empty(), Seq::empty(), fuel);
            match eval_bin(nop, RtVal::Int(a), RtVal::Int(b)) {
                Some(_) => r matches Some(t) && t.0 == Seq::<(usize, Seq<RtVal>)>::empty() && t.2
                    == None::<RtVal>,
                None => r is None,
            }
        }),
{
    let nf = defs[d].body;
    let sigp = defs[d].sig.params@;
    let stmts = f.blocks@[0].stmts@;
    let s0 = stmts[0];
    let s1 = stmts[1];
    let s2 = stmts[2];
    let s3 = stmts[3];
    let nop = crate::lower::native_op_of(crate::ir::Type::I32, op);

    // the native signature has no parameters
    assert(crate::native::params_sig(f.params@) =~= Seq::<NativeType>::empty()) by {
        assert(f.params@ =~= Seq::<crate::ir::Type>::empty());
    }
    assert(sigp =~= Seq::<NativeType>::empty());
    assert(nf.n_params == 0);

    // unfold the walk's binding chain over the four statements
    let st0 = crate::lower::bind_init(f, sigp);
    assert(st0.tmp =~= seq![None::<crate::lower::SlotValue>, None, None]);
    assert(st0.vals =~= Seq::<NativeType>::empty());
    let st1 = crate::lower::bind_step(fmap, f, st0, s0);
    let st2 = crate::lower::bind_step(fmap, f, st1, s1);
    let st3 = crate::lower::bind_step(fmap, f, st2, s2);
    assert(st1.tmp =~= seq![Some(crate::lower::SlotValue::Value(0)), None, None]);
    assert(st1.vals =~= seq![NativeType::I32]);
    assert(st2.tmp =~= seq![
        Some(crate::lower::SlotValue::Value(0)),
        Some(crate::lower::SlotValue::Value(1)),
        None,
    ]);
    assert(st2.vals =~= seq![NativeType::I32, NativeType::I32]);

    assert(stmts.take(0) =~= Seq::<crate::ir::Statement>::empty());
    assert(stmts.take(1).drop_last() =~= stmts.take(0));
    assert(stmts.take(2).drop_last() =~= stmts.take(1));
    assert(stmts.take(3).drop_last() =~= stmts.take(2));
    assert(stmts.take(4).drop_last() =~= stmts.take(3));
    assert(stmts.take(4) =~= stmts);
    assert(stmts.take(1).last() == s0);
    assert(stmts.take(2).last() == s1);
    assert(stmts.take(3).last() == s2);
    assert(stmts.take(4).last() == s3);
    assert(crate::lower::bind_stmts(fmap, f, st0, stmts.take(0)) == st0);
    assert(crate::lower::bind_stmts(fmap, f, st0, stmts.take(1)) == st1);
    assert(crate::lower::bind_stmts(fmap, f, st0, stmts.take(2)) == st2);
    assert(crate::lower::bind_stmts(fmap, f, st0, stmts.take(3)) == st3);

    // the prologue is empty: no statement allocates a stack slot
    assert(crate::lower::bind_blocks(fmap, f, sigp, 0) == st0);
    assert(nf.blocks@[0].instrs@ =~= Seq::<Inst>::empty()) by {
        assert(crate::lower::allocas_stmts(fmap, f, st0, stmts.take(0)) =~= Seq::<Inst>::empty());
        assert(crate::lower::allocas_stmts(fmap, f, st0, stmts.take(1)) =~= Seq::<Inst>::empty());
        assert(crate::lower::allocas_stmts(fmap, f, st0, stmts.take(2)) =~= Seq::<Inst>::empty());
        assert(crate::lower::allocas_stmts(fmap, f, st0, stmts.take(3)) =~= Seq::<Inst>::empty());
        assert(crate::lower::allocas_stmts(fmap, f, st0, stmts.take(4)) =~= Seq::<Inst>::empty());
        assert(crate::lower::allocas_blocks(fmap, f, sigp, 1) =~= Seq::<Inst>::empty());
        assert(f.blocks@[1].stmts@.take(0) =~= Seq::<crate::ir::Statement>::empty());
        assert(crate::lower::allocas_at(fmap, f, sigp, 1, 0) =~= Seq::<Inst>::empty());
    }

    // unfold the block's per-statement emission: exactly the two
    // constants and the table operation, in order
    let instrs = nf.blocks@[1].instrs@;
    assert(crate::lower::block_fully_lowered(fmap, f, sigp, 0, nf.blocks@[1]));
    assert(crate::lower::block_emits(fmap, f, st0, stmts, instrs));
    let n = instrs.len() as int;
    assert(crate::lower::block_emits(fmap, f, st0, stmts.take(4), instrs)) by {
        assert(stmts.take(4) == stmts);
    }
    assert(instrs.take(n) =~= instrs);
    assert(crate::lower::block_emits(fmap, f, st0, stmts.take(3), instrs)) by {
        assert(crate::lower::emit_len(st3, s3) == 0);
        assert(instrs.skip(n) =~= Seq::<Inst>::empty());
    }
    assert(n >= 1 && instrs.skip(n - 1) == seq![
        Inst::Bin { dst: 2, op: nop, lhs: 0, rhs: 1 },
    ]) by {
        assert(crate::lower::emit_len(st2, s2) == 1);
    }
    let rest2 = instrs.take(n - 1);
    assert(crate::lower::block_emits(fmap, f, st0, stmts.take(2), rest2));
    assert(rest2.len() >= 1 && rest2.skip(rest2.len() - 1) == seq![
        Inst::ConstI32 { dst: 1, val: b },
    ]) by {
        assert(crate::lower::emit_len(st1, s1) == 1);
    }
    let rest1 = rest2.take(rest2.len() - 1);
    assert(crate::lower::block_emits(fmap, f, st0, stmts.take(1), rest1));
    assert(rest1.len() >= 1 && rest1.skip(rest1.len() - 1) == seq![
        Inst::ConstI32 { dst: 0, val: a },
    ]) by {
        assert(crate::lower::emit_len(st0, s0) == 1);
    }
    let rest0 = rest1.take(rest1.len() - 1);
    assert(crate::lower::block_emits(fmap, f, st0, stmts.take(0), rest0));
    assert(rest0.len() == 0);
    assert(n == 3);
    assert(instrs =~= seq![
        Inst::ConstI32 { dst: 0, val: a },
        Inst::ConstI32 { dst: 1, val: b },
        Inst::Bin { dst: 2, op: nop, lhs: 0, rhs: 1 },
    ]) by {
        assert(instrs[0] == rest1.skip(rest1.len() - 1)[0]);
        assert(instrs[1] == rest2.skip(rest2.len() - 1)[0]);
        assert(instrs[2] == instrs.skip(n - 1)[0]);
    }

    // the block's terminator is the void return
    assert(nf.blocks@[1].term == Some(Terminator::RetVoid)) by {
        assert(crate::lower::term_emits(
            crate::lower::bind_at(fmap, f, sigp, 0, 3),
            s3,
            nf.blocks@[1].term->0,
        ));
    }

    // now run it: the value table has exactly the three result slots
    assert(nf.vals@.len() == 3) by {
        assert(f.blocks@[1].stmts@.take(0) =~= Seq::<crate::ir::Statement>::empty());
        assert(crate::lower::bind_at(fmap, f, sigp, 1, 0).vals == st3.vals);
        assert(st3.vals =~= st2.vals.push(crate::lower::bin_result_ty(nop)));
    }
    let vals0 = Seq::new(nf.vals@.len(), |j: int| if j < 0 { Some(Seq::<RtVal>::empty()[j]) } else { None::<RtVal> });
    assert(vals0 =~= seq![None::<RtVal>, None, None]);

    // the prologue block runs no instruction and branches into the body
    assert(eval_instrs(defs, nf.blocks@[0].instrs@, 0, vals0, Seq::empty(), Seq::empty(), fuel)
        == Some((vals0, Seq::<Option<RtVal>>::empty(), Seq::<(usize, Seq<RtVal>)>::empty(),
        Seq::<RtVal>::empty())));
    assert(nf.blocks@[0].term == Some(Terminator::Br { to: 1 }));

    // the body block computes the operation on the two constants
    lemma_arith_round_trip(defs, a, b, nop, Seq::empty(), (fuel - 1) as nat);
    match eval_bin(nop, RtVal::Int(a), RtVal::Int(b)) {
        Some(c) => {
            assert(eval_instrs(defs, instrs, 0, vals0, Seq::empty(), Seq::empty(), (fuel - 1) as nat)
                matches Some(t) && t.2 == Seq::<(usize, Seq<RtVal>)>::empty()) by {
                assert(vals0 == seq![None::<RtVal>, None, None]);
            }
            assert(eval_from_block(defs, nf, vals0, Seq::empty(), 1, Seq::empty(), (fuel - 1) as nat)
                matches Some(t) && t.0 == Seq::<(usize, Seq<RtVal>)>::empty() && t.2
                == None::<RtVal>);
            assert(eval_fn(defs, d, Seq::empty(), Seq::empty(), fuel) matches Some(t) && t.0
                =~= Seq::<(usize, Seq<RtVal>)>::empty() && t.2 == None::<RtVal>);
        },
        None => {
            assert(eval_instrs(defs, instrs, 0, vals0, Seq::empty(), Seq::empty(), (fuel - 1) as nat)
                is None) by {
                assert(vals0 == seq![None::<RtVal>, None, None]);
            }
            assert(eval_from_block(defs, nf, vals0, Seq::empty(), 1, Seq::empty(), (fuel - 1) as nat)
                is None);
            assert(eval_fn(defs, d, Seq::empty(), Seq::empty(), fuel) is None);
        },
    }
}

} // verus!

verus! {

/// The conditional-jump scenario, end to end: lowering a function whose
/// entry block computes `true && false` and branches on it — with a then
/// block that loops forever and an else block that returns — and running
/// the produced native code terminates cleanly.  The then block cannot
/// return, so a terminating run witnesses that the emitted branch tests
/// exactly the slot holding the `And` result and takes the else edge.
pub proof fn lemma_lowered_condjump_takes_else(
    fmap: Seq<Option<usize>>,
    defs: Seq<NativeDef>,
    d: int,
    f: crate::ir::Function,
    fuel: nat,
)
    requires
        0 <= d < defs.len(),
        fuel >= 2,
        f.params@.len() == 0,
        f.temporaries@ == seq![crate::ir::Type::Bool, crate::ir::Type::Bool, crate::ir::Type::Bool],
        f.blocks@.len() == 3,
        f.blocks@[0].stmts@ == seq![
            crate::ir::Statement::Const {
                dst: crate::ir::TmpId(0),
                src: crate::ir::ConstLiteral::Bool(true),
            },
            crate::ir::Statement::Const {
                dst: crate::ir::TmpId(1),
                src: crate::ir::ConstLiteral::Bool(false),
            },
            crate::ir::Statement::BinExpr {
                dst: crate::ir::TmpId(2),
                lhs: crate::ir::TmpId(0),
                op: crate::ir::BinaryOp::And,
                rhs: crate::ir::TmpId(1),
            },
            crate::ir::Statement::ConditionalJump {
                cond: crate::ir::TmpId(2),
                then_block: crate::ir::BlockId(1),
                else_block: crate::ir::BlockId(2),
            },
        ],
        f.blocks@[1].stmts@ == seq![
            crate::ir::Statement::UnconditionalJump { id: crate::ir::BlockId(1) },
        ],
        f.blocks@[2].stmts@ == seq![crate::ir::Statement::ReturnVoid],
        crate::modgen::lowered_def_ok(fmap, f, defs[d]),
        crate::native::wf_native_fn(crate::native::module_sigs(defs), defs[d].sig, defs[d].body),
    ensures
        eval_fn(defs, d, Seq::empty(), Seq::empty(), fuel) matches Some(t) && t.0 == Seq::<(
            usize,
            Seq<RtVal>,
        )>::empty() && t.2 == None::<RtVal>,
{
    let nf = defs[d].body;
    let sigp = defs[d].sig.params@;
    let stmts = f.blocks@[0].stmts@;
    let s0 = stmts[0];
    let s1 = stmts[1];
    let s2 = stmts[2];
    let s3 = stmts[3];

    assert(crate::native::params_sig(f.params@) =~= Seq::<NativeType>::empty()) by {
        assert(f.params@ =~= Seq::<crate::ir::Type>::empty());
    }
    assert(sigp =~= Seq::<NativeType>::empty());
    assert(nf.n_params == 0);

    // the binding chain of the entry block
    let st0 = crate::lower::bind_init(f, sigp);
    assert(st0.tmp =~= seq![None::<crate::lower::SlotValue>, None, None]);
    assert(st0.vals =~= Seq::<NativeType>::empty());
    let st1 = crate::lower::bind_step(fmap, f, st0, s0);
    let st2 = crate::lower::bind_step(fmap, f, st1, s1);
    let st3 = crate::lower::bind_step(fmap, f, st2, s2);
    assert(st2.tmp =~= seq![
        Some(crate::lower::SlotValue::Value(0)),
        Some(crate::lower::SlotValue::Value(1)),
        None,
    ]);
    assert(st3.tmp =~= seq![
        Some(crate::lower::SlotValue::Value(0)),
        Some(crate::lower::SlotValue::Value(1)),
        Some(crate::lower::SlotValue::Value(2)),
    ]);
    assert(st3.vals =~= seq![NativeType::I1, NativeType::I1, NativeType::I1]);

    assert(stmts.take(0) =~= Seq::<crate::ir::Statement>::empty());
    assert(stmts.take(1).drop_last() =~= stmts.take(0));
    assert(stmts.take(2).drop_last() =~= stmts.take(1));
    assert(stmts.take(3).drop_last() =~= stmts.take(2));
    assert(stmts.take(4).drop_last() =~= stmts.take(3));
    assert(stmts.take(4) =~= stmts);
    assert(stmts.take(1).last() == s0);
    assert(stmts.take(2).last() == s1);
    assert(stmts.take(3).last() == s2);
    assert(stmts.take(4).last() == s3);
    assert(crate::lower::bind_stmts(fmap, f, st0, stmts.take(0)) == st0);
    assert(crate::lower::bind_stmts(fmap, f, st0, stmts.take(1)) == st1);
    assert(crate::lower::bind_stmts(fmap, f, st0, stmts.take(2)) == st2);
    assert(crate::lower::bind_stmts(fmap, f, st0, stmts.take(3)) == st3);
    assert(crate::lower::bind_stmts(fmap, f, st0, stmts) == st3);
    assert(crate::lower::bind_blocks(fmap, f, sigp, 0) == st0);

    // the later blocks bind nothing
    let jstmts = f.blocks@[1].stmts@;
    assert(jstmts.take(1).drop_last() =~= jstmts.take(0));
    assert(jstmts.take(0) =~= Seq::<crate::ir::Statement>::empty());
    assert(jstmts.take(1) =~= jstmts);
    assert(crate::lower::bind_stmts(fmap, f, st3, jstmts.take(0)) == st3);
    assert(jstmts.take(1).last() == jstmts[0]);
    assert(crate::lower::bind_stmts(fmap, f, st3, jstmts.take(1)) == st3);
    assert(crate::lower::bind_stmts(fmap, f, st3, jstmts) == st3);
    assert(crate::lower::bind_blocks(fmap, f, sigp, 1) == st3);
    assert(crate::lower::bind_blocks(fmap, f, sigp, 2) == st3);
    let rstmts = f.blocks@[2].stmts@;
    assert(rstmts.take(1).drop_last() =~= rstmts.take(0));
    assert(rstmts.take(0) =~= Seq::<crate::ir::Statement>::empty());
    assert(rstmts.take(1) =~= rstmts);
    assert(crate::lower::bind_stmts(fmap, f, st3, rstmts.take(0)) == st3);
    assert(rstmts.take(1).last() == rstmts[0]);
    assert(crate::lower::bind_stmts(fmap, f, st3, rstmts.take(1)) == st3);
    assert(crate::lower::bind_stmts(fmap, f, st3, rstmts) == st3);

    // the value table holds the three 1-bit slots
    assert(nf.vals@.len() == 3) by {
        assert(f.blocks@[3].stmts@.take(0) =~= Seq::<crate::ir::Statement>::empty());
        assert(crate::lower::bind_blocks(fmap, f, sigp, 3) == st3);
        assert(crate::lower::bind_at(fmap, f, sigp, 3, 0).vals == st3.vals);
    }

    // the prologue is empty: nothing allocates a stack slot
    assert(nf.blocks@[0].instrs@ =~= Seq::<Inst>::empty()) by {
        assert(crate::lower::allocas_stmts(fmap, f, st0, stmts.take(0)) =~= Seq::<Inst>::empty());
        assert(crate::lower::allocas_stmts(fmap, f, st0, stmts.take(1)) =~= Seq::<Inst>::empty());
        assert(crate::lower::allocas_stmts(fmap, f, st0, stmts.take(2)) =~= Seq::<Inst>::empty());
        assert(crate::lower::allocas_stmts(fmap, f, st0, stmts.take(3)) =~= Seq::<Inst>::empty());
        assert(crate::lower::allocas_stmts(fmap, f, st0, stmts.take(4)) =~= Seq::<Inst>::empty());
        assert(crate::lower::allocas_stmts(fmap, f, st0, stmts) =~= Seq::<Inst>::empty());
        assert(crate::lower::allocas_blocks(fmap, f, sigp, 0) =~= Seq::<Inst>::empty());
        assert(crate::lower::allocas_blocks(fmap, f, sigp, 1) =~= Seq::<Inst>::empty());
        assert(crate::lower::allocas_stmts(fmap, f, st3, jstmts.take(0)) =~= Seq::<Inst>::empty());
        assert(crate::lower::allocas_stmts(fmap, f, st3, jstmts.take(1)) =~= Seq::<Inst>::empty());
        assert(crate::lower::allocas_stmts(fmap, f, st3, jstmts) =~= Seq::<Inst>::empty());
        assert(crate::lower::allocas_blocks(fmap, f, sigp, 2) =~= Seq::<Inst>::empty());
        assert(crate::lower::allocas_stmts(fmap, f, st3, rstmts.take(0)) =~= Seq::<Inst>::empty());
        assert(crate::lower::allocas_stmts(fmap, f, st3, rstmts.take(1)) =~= Seq::<Inst>::empty());
        assert(crate::lower::allocas_stmts(fmap, f, st3, rstmts) =~= Seq::<Inst>::empty());
        assert(crate::lower::allocas_blocks(fmap, f, sigp, 3) =~= Seq::<Inst>::empty());
        assert(f.blocks@[3].stmts@.take(0) =~= Seq::<crate::ir::Statement>::empty());
        assert(crate::lower::allocas_at(fmap, f, sigp, 3, 0) =~= Seq::<Inst>::empty());
    }

    // the entry block's emitted instructions and terminator
    let instrs = nf.blocks@[1].instrs@;
    assert(crate::lower::block_fully_lowered(fmap, f, sigp, 0, nf.blocks@[1]));
    assert(crate::lower::block_emits(fmap, f, st0, stmts.take(4), instrs)) by {
        assert(stmts.take(4) == stmts);
    }
    let n = instrs.len() as int;
    assert(instrs.take(n) =~= instrs);
    assert(crate::lower::block_emits(fmap, f, st0, stmts.take(3), instrs)) by {
        assert(crate::lower::emit_len(st3, s3) == 0);
        assert(instrs.skip(n) =~= Seq::<Inst>::empty());
    }
    assert(n >= 1 && instrs.skip(n - 1) == seq![
        Inst::Bin { dst: 2, op: NativeOp::And, lhs: 0, rhs: 1 },
    ]) by {
        assert(crate::lower::emit_len(st2, s2) == 1);
        assert(crate::lower::native_op_of(crate::ir::Type::Bool, crate::ir::BinaryOp::And)
            == NativeOp::And);
    }
    let rest2 = instrs.take(n - 1);
    assert(crate::lower::block_emits(fmap, f, st0, stmts.take(2), rest2));
    assert(rest2.len() >= 1 && rest2.skip(rest2.len() - 1) == seq![
        Inst::ConstBool { dst: 1, val: false },
    ]) by {
        assert(crate::lower::emit_len(st1, s1) == 1);
    }
    let rest1 = rest2.take(rest2.len() - 1);
    assert(crate::lower::block_emits(fmap, f, st0, stmts.take(1), rest1));
    assert(rest1.len() >= 1 && rest1.skip(rest1.len() - 1) == seq![
        Inst::ConstBool { dst: 0, val: true },
    ]) by {
        assert(crate::lower::emit_len(st0, s0) == 1);
    }
    let rest0 = rest1.take(rest1.len() - 1);
    assert(crate::lower::block_emits(fmap, f, st0, stmts.take(0), rest0));
    assert(rest0.len() == 0);
    assert(n == 3);
    assert(instrs =~= seq![
        Inst::ConstBool { dst: 0, val: true },
        Inst::ConstBool { dst: 1, val: false },
        Inst::Bin { dst: 2, op: NativeOp::And, lhs: 0, rhs: 1 },
    ]) by {
        assert(instrs[0] == rest1.skip(rest1.len() - 1)[0]);
        assert(instrs[1] == rest2.skip(rest2.len() - 1)[0]);
        assert(instrs[2] == instrs.skip(n - 1)[0]);
    }
    assert(nf.blocks@[1].term == Some(
        Terminator::CondBr { cond: 2, then_to: 2, else_to: 3 },
    )) by {
        assert(crate::lower::term_emits(
            crate::lower::bind_at(fmap, f, sigp, 0, 3),
            s3,
            nf.blocks@[1].term->0,
        ));
        assert(crate::lower::bind_at(fmap, f, sigp, 0, 3) == st3);
    }

    // the else block: no instructions, a void return
    let einstrs = nf.blocks@[3].instrs@;
    assert(crate::lower::block_fully_lowered(fmap, f, sigp, 2, nf.blocks@[3]));
    assert(crate::lower::block_emits(fmap, f, st3, rstmts.take(1), einstrs)) by {
        assert(rstmts.take(1) == rstmts);
    }
    let ne = einstrs.len() as int;
    assert(einstrs.take(ne) =~= einstrs);
    assert(crate::lower::block_emits(fmap, f, st3, rstmts.take(0), einstrs)) by {
        assert(crate::lower::emit_len(st3, rstmts[0]) == 0);
        assert(einstrs.skip(ne) =~= Seq::<Inst>::empty());
    }
    assert(einstrs.len() == 0);
    assert(nf.blocks@[3].term == Some(Terminator::RetVoid)) by {
        assert(crate::lower::term_emits(
            crate::lower::bind_at(fmap, f, sigp, 2, 0),
            rstmts.last(),
            nf.blocks@[3].term->0,
        ));
        assert(f.blocks@[2].stmts@.take(0) =~= Seq::<crate::ir::Statement>::empty());
    }

    // run it: the prologue is empty and branches into the entry block
    let vals0 = Seq::new(
        nf.vals@.len(),
        |j: int|
            if j < 0 {
                Some(Seq::<RtVal>::empty()[j])
            } else {
                None::<RtVal>
            },
    );
    assert(vals0 =~= seq![None::<RtVal>, None, None]);
    assert(eval_instrs(defs, nf.blocks@[0].instrs@, 0, vals0, Seq::empty(), Seq::empty(), fuel)
        == Some((vals0, Seq::<Option<RtVal>>::empty(), Seq::<(usize, Seq<RtVal>)>::empty(),
        Seq::<RtVal>::empty())));
    assert(nf.blocks@[0].term == Some(Terminator::Br { to: 1 }));

    // the entry block computes true && false == false ...
    let vals1 = vals0.update(0, Some(RtVal::Bit(true)));
    let vals2 = vals1.update(1, Some(RtVal::Bit(false)));
    let vals3 = vals2.update(2, Some(RtVal::Bit(false)));
    assert(eval_instrs(defs, instrs, 0, vals0, Seq::empty(), Seq::empty(), (fuel - 1) as nat)
        == eval_instrs(defs, instrs, 1, vals1, Seq::empty(), Seq::empty(), (fuel - 1) as nat));
    assert(eval_instrs(defs, instrs, 1, vals1, Seq::empty(), Seq::empty(), (fuel - 1) as nat)
        == eval_instrs(defs, instrs, 2, vals2, Seq::empty(), Seq::empty(), (fuel - 1) as nat));
    assert(eval_bin(NativeOp::And, RtVal::Bit(true), RtVal::Bit(false)) == Some(RtVal::Bit(false)));
    assert(eval_instrs(defs, instrs, 2, vals2, Seq::empty(), Seq::empty(), (fuel - 1) as nat)
        == eval_instrs(defs, instrs, 3, vals3, Seq::empty(), Seq::empty(), (fuel - 1) as nat));

    // ... and the branch on that false condition takes the else edge,
    // which returns at once
    assert(vals3[2] == Some(RtVal::Bit(false)));
    assert(eval_instrs(defs, einstrs, 0, vals3, Seq::empty(), Seq::empty(), (fuel - 2) as nat)
        == Some((vals3, Seq::<Option<RtVal>>::empty(), Seq::<(usize, Seq<RtVal>)>::empty(),
        Seq::<RtVal>::empty())));
    assert(eval_from_block(defs, nf, vals3, Seq::empty(), 3, Seq::empty(), (fuel - 2) as nat)
        == Some((Seq::<(usize, Seq<RtVal>)>::empty(), Seq::<RtVal>::empty(), None::<RtVal>)));
    assert(eval_from_block(defs, nf, vals0, Seq::empty(), 1, Seq::empty(), (fuel - 1) as nat)
        matches Some(t) && t.0 =~= Seq::<(usize, Seq<RtVal>)>::empty() && t.2 == None::<RtVal>);
    assert(eval_fn(defs, d, Seq::empty(), Seq::empty(), fuel) matches Some(t) && t.0 =~= Seq::<(
        usize,
        Seq<RtVal>,
    )>::empty() && t.2 == None::<RtVal>);
}

} // verus!

verus! {

/// Bridge transparency, end to end: lowering a caller that binds a bridged
/// host function, calls it with the constant 41, and hands the result to a
/// second bridged host, then running the produced native code, invokes the
/// first host exactly once with argument exactly 41 — and the value the
/// generated code observes and passes on is exactly the host's reply.
#[verifier::rlimit(100)]
pub proof fn lemma_lowered_bridge_transparency(
    fmap: Seq<Option<usize>>,
    defs: Seq<NativeDef>,
    d: int,
    f: crate::ir::Function,
    d0: usize,
    d1: usize,
    addr0: usize,
    addr1: usize,
    reply: RtVal,
    fuel: nat,
)
    requires
        0 <= d < defs.len(),
        d0 < defs.len(),
        d1 < defs.len(),
        fuel >= 2,
        f.params@.len() == 0,
        f.temporaries@.len() == 5,
        f.temporaries@[2] == crate::ir::Type::I32,
        f.temporaries@[4] == crate::ir::Type::Void,
        f.blocks@.len() == 1,
        f.blocks@[0].stmts@.len() == 6,
        f.blocks@[0].stmts@[0] == (crate::ir::Statement::Host {
            dst: crate::ir::TmpId(0),
            src: crate::ir::FuncId(0),
        }),
        f.blocks@[0].stmts@[1] == (crate::ir::Statement::Const {
            dst: crate::ir::TmpId(1),
            src: crate::ir::ConstLiteral::I32(41),
        }),
        f.blocks@[0].stmts@[2] matches crate::ir::Statement::Call {
            dst: crate::ir::TmpId(2),
            func: crate::ir::TmpId(0),
            args,
        } && args@ == seq![crate::ir::TmpId(1)],
        f.blocks@[0].stmts@[3] == (crate::ir::Statement::Host {
            dst: crate::ir::TmpId(3),
            src: crate::ir::FuncId(1),
        }),
        f.blocks@[0].stmts@[4] matches crate::ir::Statement::Call {
            dst: crate::ir::TmpId(4),
            func: crate::ir::TmpId(3),
            args,
        } && args@ == seq![crate::ir::TmpId(2)],
        f.blocks@[0].stmts@[5] == crate::ir::Statement::ReturnVoid,
        fmap[0] == Some(d0),
        fmap[1] == Some(d1),
        crate::bridge::plain_thunk_ok(defs[d0 as int], addr0),
        crate::bridge::plain_thunk_ok(defs[d1 as int], addr1),
        defs[d0 as int].sig.params@.len() == 1,
        defs[d1 as int].sig.params@.len() == 1,
        defs[d0 as int].sig.ret is Some,
        crate::modgen::lowered_def_ok(fmap, f, defs[d]),
        crate::native::wf_native_fn(crate::native::module_sigs(defs), defs[d].sig, defs[d].body),
    ensures
        ({
            let r = eval_fn(defs, d, Seq::empty(), seq![reply, RtVal::Unit], fuel);
            r matches Some(t) && t.0 == seq![(addr0, seq![RtVal::Int(41)]), (addr1, seq![reply])]
                && t.2 == None::<RtVal>
        }),
{
    let nf = defs[d].body;
    let sigp = defs[d].sig.params@;
    let stmts = f.blocks@[0].stmts@;
    let replies = seq![reply, RtVal::Unit];

    assert(crate::native::params_sig(f.params@) =~= Seq::<NativeType>::empty()) by {
        assert(f.params@ =~= Seq::<crate::ir::Type>::empty());
    }
    assert(sigp =~= Seq::<NativeType>::empty());
    assert(nf.n_params == 0);

    // the binding chain of the six statements
    let st0 = crate::lower::bind_init(f, sigp);
    assert(st0.tmp =~= seq![None::<crate::lower::SlotValue>, None, None, None, None]);
    assert(st0.vals =~= Seq::<NativeType>::empty());
    let st1 = crate::lower::bind_step(fmap, f, st0, stmts[0]);
    let st2 = crate::lower::bind_step(fmap, f, st1, stmts[1]);
    let st3 = crate::lower::bind_step(fmap, f, st2, stmts[2]);
    let st4 = crate::lower::bind_step(fmap, f, st3, stmts[3]);
    let st5 = crate::lower::bind_step(fmap, f, st4, stmts[4]);
    assert(st1.tmp =~= seq![
        Some(crate::lower::SlotValue::FunctionRef(d0)),
        None,
        None,
        None,
        None,
    ]);
    assert(st2.tmp =~= seq![
        Some(crate::lower::SlotValue::FunctionRef(d0)),
        Some(crate::lower::SlotValue::Value(0)),
        None,
        None,
        None,
    ]);
    assert(st2.vals =~= seq![NativeType::I32]);
    assert(st3.tmp =~= seq![
        Some(crate::lower::SlotValue::FunctionRef(d0)),
        Some(crate::lower::SlotValue::Value(0)),
        Some(crate::lower::SlotValue::Value(1)),
        None,
        None,
    ]);
    assert(st3.vals =~= seq![NativeType::I32, NativeType::I32]);
    assert(st4.tmp =~= seq![
        Some(crate::lower::SlotValue::FunctionRef(d0)),
        Some(crate::lower::SlotValue::Value(0)),
        Some(crate::lower::SlotValue::Value(1)),
        Some(crate::lower::SlotValue::FunctionRef(d1)),
        None,
    ]);
    assert(st5.tmp =~= seq![
        Some(crate::lower::SlotValue::FunctionRef(d0)),
        Some(crate::lower::SlotValue::Value(0)),
        Some(crate::lower::SlotValue::Value(1)),
        Some(crate::lower::SlotValue::FunctionRef(d1)),
        Some(crate::lower::SlotValue::Value(2)),
    ]);
    assert(st5.vals =~= seq![NativeType::I32, NativeType::I32, NativeType::Unit]);

    assert(stmts.take(0) =~= Seq::<crate::ir::Statement>::empty());
    assert(stmts.take(1).drop_last() =~= stmts.take(0));
    assert(stmts.take(2).drop_last() =~= stmts.take(1));
    assert(stmts.take(3).drop_last() =~= stmts.take(2));
    assert(stmts.take(4).drop_last() =~= stmts.take(3));
    assert(stmts.take(5).drop_last() =~= stmts.take(4));
    assert(stmts.take(6).drop_last() =~= stmts.take(5));
    assert(stmts.take(6) =~= stmts);
    assert(stmts.take(1).last() == stmts[0]);
    assert(stmts.take(2).last() == stmts[1]);
    assert(stmts.take(3).last() == stmts[2]);
    assert(stmts.take(4).last() == stmts[3]);
    assert(stmts.take(5).last() == stmts[4]);
    assert(stmts.take(6).last() == stmts[5]);
    assert(crate::lower::bind_stmts(fmap, f, st0, stmts.take(0)) == st0);
    assert(crate::lower::bind_stmts(fmap, f, st0, stmts.take(1)) == st1);
    assert(crate::lower::bind_stmts(fmap, f, st0, stmts.take(2)) == st2);
    assert(crate::lower::bind_stmts(fmap, f, st0, stmts.take(3)) == st3);
    assert(crate::lower::bind_stmts(fmap, f, st0, stmts.take(4)) == st4);
    assert(crate::lower::bind_stmts(fmap, f, st0, stmts.take(5)) == st5);
    assert(crate::lower::bind_blocks(fmap, f, sigp, 0) == st0);

    // the value table holds the three result slots
    assert(nf.vals@.len() == 3) by {
        assert(f.blocks@[1].stmts@.take(0) =~= Seq::<crate::ir::Statement>::empty());
        assert(crate::lower::bind_stmts(fmap, f, st0, stmts) == crate::lower::bind_step(
            fmap,
            f,
            st5,
            stmts[5],
        ));
        assert(crate::lower::bind_blocks(fmap, f, sigp, 1) == st5);
        assert(crate::lower::bind_at(fmap, f, sigp, 1, 0).vals == st5.vals);
    }

    // the prologue is empty
    assert(nf.blocks@[0].instrs@ =~= Seq::<Inst>::empty()) by {
        assert(crate::lower::allocas_stmts(fmap, f, st0, stmts.take(0)) =~= Seq::<Inst>::empty());
        assert(crate::lower::allocas_stmts(fmap, f, st0, stmts.take(1)) =~= Seq::<Inst>::empty());
        assert(crate::lower::allocas_stmts(fmap, f, st0, stmts.take(2)) =~= Seq::<Inst>::empty());
        assert(crate::lower::allocas_stmts(fmap, f, st0, stmts.take(3)) =~= Seq::<Inst>::empty());
        assert(crate::lower::allocas_stmts(fmap, f, st0, stmts.take(4)) =~= Seq::<Inst>::empty());
        assert(crate::lower::allocas_stmts(fmap, f, st0, stmts.take(5)) =~= Seq::<Inst>::empty());
        assert(crate::lower::allocas_stmts(fmap, f, st0, stmts.take(6)) =~= Seq::<Inst>::empty());
        assert(crate::lower::allocas_stmts(fmap, f, st0, stmts) =~= Seq::<Inst>::empty());
        assert(crate::lower::allocas_blocks(fmap, f, sigp, 0) =~= Seq::<Inst>::empty());
        assert(crate::lower::allocas_blocks(fmap, f, sigp, 1) =~= Seq::<Inst>::empty());
        assert(f.blocks@[1].stmts@.take(0) =~= Seq::<crate::ir::Statement>::empty());
        assert(crate::lower::allocas_at(fmap, f, sigp, 1, 0) =~= Seq::<Inst>::empty());
    }

    // the block's emitted instructions: one constant, two direct calls
    let instrs = nf.blocks@[1].instrs@;
    assert(crate::lower::block_fully_lowered(fmap, f, sigp, 0, nf.blocks@[1]));
    assert(crate::lower::block_emits(fmap, f, st0, stmts.take(6), instrs)) by {
        assert(stmts.take(6) == stmts);
    }
    let n = instrs.len() as int;
    assert(instrs.take(n) =~= instrs);
    assert(crate::lower::block_emits(fmap, f, st0, stmts.take(5), instrs)) by {
        assert(crate::lower::emit_len(st5, stmts[5]) == 0);
        assert(instrs.skip(n) =~= Seq::<Inst>::empty());
    }
    assert(n >= 1 && crate::lower::cur_emits(f, st4, stmts[4], instrs.skip(n - 1))) by {
        assert(crate::lower::emit_len(st4, stmts[4]) == 1);
    }
    let rest4 = instrs.take(n - 1);
    assert(crate::lower::block_emits(fmap, f, st0, stmts.take(4), rest4));
    assert(crate::lower::cur_emits(f, st3, stmts[3], rest4.skip(rest4.len() as int))) by {
        assert(crate::lower::emit_len(st3, stmts[3]) == 0);
        assert(rest4.take(rest4.len() as int) =~= rest4);
    }
    assert(crate::lower::block_emits(fmap, f, st0, stmts.take(3), rest4)) by {
        assert(rest4.take(rest4.len() as int) =~= rest4);
    }
    assert(rest4.len() >= 1 && crate::lower::cur_emits(
        f,
        st2,
        stmts[2],
        rest4.skip(rest4.len() - 1),
    )) by {
        assert(crate::lower::emit_len(st2, stmts[2]) == 1);
    }
    let rest2 = rest4.take(rest4.len() - 1);
    assert(crate::lower::block_emits(fmap, f, st0, stmts.take(2), rest2));
    assert(rest2.len() >= 1 && rest2.skip(rest2.len() - 1) == seq![
        Inst::ConstI32 { dst: 0, val: 41 },
    ]) by {
        assert(crate::lower::emit_len(st1, stmts[1]) == 1);
    }
    let rest1 = rest2.take(rest2.len() - 1);
    assert(crate::lower::block_emits(fmap, f, st0, stmts.take(1), rest1));
    assert(crate::lower::cur_emits(f, st0, stmts[0], rest1.skip(rest1.len() as int))) by {
        assert(crate::lower::emit_len(st0, stmts[0]) == 0);
        assert(rest1.take(rest1.len() as int) =~= rest1);
    }
    assert(crate::lower::block_emits(fmap, f, st0, stmts.take(0), rest1)) by {
        assert(rest1.take(rest1.len() as int) =~= rest1);
    }
    assert(rest1.len() == 0);
    assert(n == 3);
    assert(instrs[0] == (Inst::ConstI32 { dst: 0, val: 41 })) by {
        assert(instrs[0] == rest2.skip(rest2.len() - 1)[0]);
    }
    let e1 = rest4.skip(rest4.len() - 1);
    assert(e1.len() == 1);
    assert(instrs[1] == e1[0]);
    assert(st2.tmp[0] == Some(crate::lower::SlotValue::FunctionRef(d0)));
    assert(st2.vals.len() == 1);
    match stmts[2] {
        crate::ir::Statement::Call { func, args, .. } => {
            assert(func == crate::ir::TmpId(0));
            assert(st2.tmp[func.0 as int] == Some(
                crate::lower::SlotValue::FunctionRef(d0),
            ));
            assert(args@.len() == 1);
            assert(args@[0] == crate::ir::TmpId(1));
            assert(st2.tmp[(args@[0]).0 as int] matches Some(crate::lower::SlotValue::Value(v))
                && v == 0);
        },
        _ => {
            assert(false);
        },
    }
    match e1[0] {
        Inst::Call { dst: rd, callee, args: cargs } => {
            assert(rd == 1);
            match st2.tmp[0] {
                Some(crate::lower::SlotValue::FunctionRef(dd)) => {
                    assert(callee == dd);
                    assert(dd == d0);
                },
                _ => {
                    assert(false);
                },
            }
            assert(callee == d0);
            assert(cargs@.len() == 1);
            assert(cargs@[0] == 0);
            assert(cargs@ =~= seq![0usize]);
        },
        _ => {
            assert(false);
        },
    }
    assert(instrs[1] matches Inst::Call { dst: 1, callee, args: cargs } && callee == d0
        && cargs@ == seq![0usize]);
    let e2 = instrs.skip(n - 1);
    assert(e2.len() == 1);
    assert(instrs[2] == e2[0]);
    assert(st4.tmp[3] == Some(crate::lower::SlotValue::FunctionRef(d1)));
    assert(st4.vals.len() == 2);
    match stmts[4] {
        crate::ir::Statement::Call { func, args, .. } => {
            assert(func == crate::ir::TmpId(3));
            assert(st4.tmp[func.0 as int] == Some(
                crate::lower::SlotValue::FunctionRef(d1),
            ));
            assert(args@.len() == 1);
            assert(args@[0] == crate::ir::TmpId(2));
            assert(st4.tmp[(args@[0]).0 as int] matches Some(crate::lower::SlotValue::Value(v))
                && v == 1);
        },
        _ => {
            assert(false);
        },
    }
    match e2[0] {
        Inst::Call { dst: rd, callee, args: cargs } => {
            assert(rd == 2);
            match st4.tmp[3] {
                Some(crate::lower::SlotValue::FunctionRef(dd)) => {
                    assert(callee == dd);
                    assert(dd == d1);
                },
                _ => {
                    assert(false);
                },
            }
            assert(callee == d1);
            assert(cargs@.len() == 1);
            assert(cargs@[0] == 1);
            assert(cargs@ =~= seq![1usize]);
        },
        _ => {
            assert(false);
        },
    }
    assert(instrs[2] matches Inst::Call { dst: 2, callee, args: cargs } && callee == d1
        && cargs@ == seq![1usize]);
    assert(nf.blocks@[1].term == Some(Terminator::RetVoid)) by {
        assert(crate::lower::term_emits(
            crate::lower::bind_at(fmap, f, sigp, 0, 5),
            stmts[5],
            nf.blocks@[1].term->0,
        ));
    }

    // run it: the prologue branches straight into the body
    let vals0 = Seq::new(
        nf.vals@.len(),
        |j: int|
            if j < 0 {
                Some(Seq::<RtVal>::empty()[j])
            } else {
                None::<RtVal>
            },
    );
    assert(vals0 =~= seq![None::<RtVal>, None, None]);
    assert(eval_instrs(defs, nf.blocks@[0].instrs@, 0, vals0, Seq::empty(), replies, fuel) == Some(
        (vals0, Seq::<Option<RtVal>>::empty(), Seq::<(usize, Seq<RtVal>)>::empty(), replies),
    ));
    assert(nf.blocks@[0].term == Some(Terminator::Br { to: 1 }));

    // the constant, then the first call: the host sees exactly 41
    let fu = (fuel - 1) as nat;
    let vals1 = vals0.update(0, Some(RtVal::Int(41)));
    assert(eval_instrs(defs, instrs, 0, vals0, Seq::empty(), replies, fu) == eval_instrs(
        defs,
        instrs,
        1,
        vals1,
        Seq::empty(),
        replies,
        fu,
    ));
    assert(args_of(vals1, seq![0usize]) == Some(seq![RtVal::Int(41)])) by {
        assert(args_of(vals1, seq![0usize]) matches Some(av) && av =~= seq![RtVal::Int(41)]);
    }
    lemma_plain_thunk_semantics(defs, d0 as int, addr0, seq![RtVal::Int(41)], replies, (fu - 1) as nat);
    assert(replies.drop_first() =~= seq![RtVal::Unit]);
    let vals2 = vals1.update(1, Some(reply));
    assert(replies.first() == reply);

    // the second call: the generated code hands the observed reply on
    assert(args_of(vals2, seq![1usize]) == Some(seq![reply])) by {
        assert(args_of(vals2, seq![1usize]) matches Some(av) && av =~= seq![reply]);
    }
    lemma_plain_thunk_semantics(
        defs,
        d1 as int,
        addr1,
        seq![reply],
        seq![RtVal::Unit],
        (fu - 1) as nat,
    );
    let r1 = eval_fn(defs, d1 as int, seq![reply], seq![RtVal::Unit], (fu - 1) as nat);
    let vals3 = vals2.update(2, Some(match (r1->0).2 {
        Some(v) => v,
        None => RtVal::Unit,
    }));
    assert(seq![RtVal::Unit].drop_first() =~= Seq::<RtVal>::empty());
    assert(eval_instrs(defs, instrs, 3, vals3, Seq::empty(), Seq::empty(), fu) == Some(
        (vals3, Seq::<Option<RtVal>>::empty(), Seq::<(usize, Seq<RtVal>)>::empty(),
        Seq::<RtVal>::empty()),
    ));
    assert(eval_instrs(defs, instrs, 2, vals2, Seq::empty(), seq![RtVal::Unit], fu) matches Some(t)
        && t.2 =~= seq![(addr1, seq![reply])] && t.3 =~= Seq::<RtVal>::empty()) by {
        assert(seq![(addr1, seq![reply])] + Seq::<(usize, Seq<RtVal>)>::empty() =~= seq![
            (addr1, seq![reply]),
        ]);
    }
    assert(eval_instrs(defs, instrs, 1, vals1, Seq::empty(), replies, fu) matches Some(t) && t.2
        =~= seq![(addr0, seq![RtVal::Int(41)]), (addr1, seq![reply])] && t.3 =~= Seq::<RtVal>::empty())
        by {
        assert(seq![(addr0, seq![RtVal::Int(41)])] + seq![(addr1, seq![reply])] =~= seq![
            (addr0, seq![RtVal::Int(41)]),
            (addr1, seq![reply]),
        ]);
    }
    assert(eval_from_block(defs, nf, vals0, Seq::empty(), 1, replies, fu) matches Some(t) && t.0
        =~= seq![(addr0, seq![RtVal::Int(41)]), (addr1, seq![reply])] && t.2 == None::<RtVal>);
    assert(eval_fn(defs, d, Seq::empty(), replies, fuel) matches Some(t) && t.0 =~= seq![
        (addr0, seq![RtVal::Int(41)]),
        (addr1, seq![reply]),
    ] && t.2 == None::<RtVal>);
}

} // verus!
