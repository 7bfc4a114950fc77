//! The host-function bridge: builds thunk functions, reachable by
//! ordinary call instructions, that forward to a raw host address —
//! optionally prepending a fixed, hidden "userdata" word so host-side
//! closures can be exposed to generated code as ordinary functions.

use vstd::prelude::*;

use crate::ir::Type;
use crate::native::{
    result_val_ty, sig_matches, to_prototype, wf_inst, wf_native_fn, wf_term, Inst, NativeBlock,
    NativeDef, NativeFunction, NativeSig, NativeType, Terminator,
};

verus! {

/// A host function made available to generated code: the raw address of
/// a callable native function together with its typed signature.  The
/// caller guarantees the address really is callable under that signature.
#[derive(Debug)]
pub struct HostFnDesc {
    pub addr: usize,
    pub ret: Type,
    pub params: Vec<Type>,
}

/// The exact shape of a plain bridge thunk for host address `addr`: one
/// block holding one indirect call that forwards all of the thunk's own
/// parameters unchanged, in order, and returns the call's result (or
/// nothing, for a void signature).
pub open spec fn plain_thunk_ok(def: NativeDef, addr: usize) -> bool {
    let body = def.body;
    let np = def.sig.params@.len() as int;
    &&& body.n_params == np
    &&& body.vals@.len() == np + 1
    &&& body.vals@.take(np) == def.sig.params@
    &&& body.vals@[np] == result_val_ty(def.sig.ret)
    &&& body.blocks@.len() == 1
    &&& body.blocks@[0].instrs@.len() == 1
    &&& (body.blocks@[0].instrs@[0] matches Inst::CallPtr { dst, addr: a, sig, args } && {
        &&& dst == np
        &&& a == addr
        &&& sig.params@ == def.sig.params@
        &&& sig.ret == def.sig.ret
        &&& args@.len() == np
        &&& forall|j: int| 0 <= j < np ==> #[trigger] args@[j] == j
    })
    &&& body.blocks@[0].term == Some(
        match def.sig.ret {
            Some(_) => Terminator::Ret { val: np as usize },
            None => Terminator::RetVoid,
        },
    )
}

/// The exact shape of a userdata bridge thunk: the visible signature
/// carries no userdata, but the wrapped call prepends the fixed word
/// `u` — embedded as a constant — as the first real argument before the
/// thunk's own forwarded parameters.
pub open spec fn userdata_thunk_ok(def: NativeDef, addr: usize, u: usize) -> bool {
    let body = def.body;
    let np = def.sig.params@.len() as int;
    &&& body.n_params == np
    &&& body.vals@.len() == np + 2
    &&& body.vals@.take(np) == def.sig.params@
    &&& body.vals@[np] == NativeType::Word
    &&& body.vals@[np + 1] == result_val_ty(def.sig.ret)
    &&& body.blocks@.len() == 1
    &&& body.blocks@[0].instrs@.len() == 2
    &&& body.blocks@[0].instrs@[0] == (Inst::ConstWord { dst: np as usize, val: u })
    &&& (body.blocks@[0].instrs@[1] matches Inst::CallPtr { dst, addr: a, sig, args } && {
        &&& dst == np + 1
        &&& a == addr
        &&& sig.params@ == seq![NativeType::Word] + def.sig.params@
        &&& sig.ret == def.sig.ret
        &&& args@.len() == np + 1
        &&& args@[0] == np
        &&& forall|j: int| 1 <= j < np + 1 ==> #[trigger] args@[j] == j - 1
    })
    &&& body.blocks@[0].term == Some(
        match def.sig.ret {
            Some(_) => Terminator::Ret { val: (np + 1) as usize },
            None => Terminator::RetVoid,
        },
    )
}

/// Builds the plain bridge thunk for `f`: visible signature
/// `(f.params) -> f.ret`, body a single forwarding indirect call.
pub(crate) fn build_plain_thunk(f: &HostFnDesc) -> (def: NativeDef)
    ensures
        sig_matches(def.sig, f.params@, f.ret),
        plain_thunk_ok(def, f.addr),
        forall|sigs: Seq<NativeSig>| wf_native_fn(sigs, def.sig, def.body),
    {
    let sig = to_prototype(&f.ret, &f.params);
    let csig = to_prototype(&f.ret, &f.params);
    let np = sig.params.len();

    let mut vals: Vec<NativeType> = Vec::new();
    let mut j: usize = 0;
    while j < np
        invariant
            j <= np,
            np == sig.params@.len(),
            vals@ == sig.params@.take(j as int),
        decreases np - j,
    {
        vals.push(sig.params[j]);
        proof {
            assert(sig.params@.take(j + 1 as int).drop_last() =~= sig.params@.take(j as int));
        }
        j = j + 1;
    }
    proof {
        assert(sig.params@.take(np as int) =~= sig.params@);
    }

    let mut args: Vec<usize> = Vec::new();
    let mut j: usize = 0;
    while j < np
        invariant
            j <= np,
            args@.len() == j,
            forall|k: int| 0 <= k < j ==> #[trigger] args@[k] == k,
        decreases np - j,
    {
        args.push(j);
        j = j + 1;
    }

    let rt = match &sig.ret {
        Some(t) => *t,
        None => NativeType::Unit,
    };
    vals.push(rt);

    let call = Inst::CallPtr { dst: np, addr: f.addr, sig: csig, args };
    let term = match &sig.ret {
        Some(_) => Terminator::Ret { val: np },
        None => Terminator::RetVoid,
    };
    let body = NativeFunction {
        n_params: np,
        vals,
        blocks: vec![NativeBlock { instrs: vec![call], term: Some(term) }],
    };
    let def = NativeDef { sig, body };
    proof {
        assert(def.body.vals@.take(np as int) =~= def.sig.params@);
        assert forall|sigs: Seq<NativeSig>| wf_native_fn(sigs, def.sig, def.body) by {
            assert(wf_inst(sigs, def.body.vals@, def.body.blocks@[0].instrs@[0]));
            assert(wf_term(
                def.sig.ret,
                def.body.vals@,
                def.body.blocks@.len() as int,
                def.body.blocks@[0].term->0,
            ));
            assert forall|bi: int|
                0 <= bi < def.body.blocks@.len() implies crate::native::wf_native_block(
                sigs,
                def.sig.ret,
                def.body.vals@,
                def.body.blocks@.len() as int,
                #[trigger] def.body.blocks@[bi],
            ) by {
                assert(def.body.blocks@[bi] == def.body.blocks@[0]);
            }
        }
    }
    def
}

/// Builds the userdata bridge thunk for `(f, u)`: visible signature
/// `(f.params) -> f.ret`, body a constant holding `u` and an indirect
/// call that passes `u` first and the thunk's parameters after it.
pub(crate) fn build_userdata_thunk(f: &HostFnDesc, u: usize) -> (def: NativeDef)
    requires
        f.params@.len() < usize::MAX,
    ensures
        sig_matches(def.sig, f.params@, f.ret),
        userdata_thunk_ok(def, f.addr, u),
        forall|sigs: Seq<NativeSig>| wf_native_fn(sigs, def.sig, def.body),
    {
    let sig = to_prototype(&f.ret, &f.params);
    let csig = to_prototype(&f.ret, &f.params);
    let np = sig.params.len();
    proof {
        crate::native::lemma_params_sig_len(f.params@);
    }

    let mut vals: Vec<NativeType> = Vec::new();
    let mut j: usize = 0;
    while j < np
        invariant
            j <= np,
            np == sig.params@.len(),
            vals@ == sig.params@.take(j as int),
        decreases np - j,
    {
        vals.push(sig.params[j]);
        proof {
            assert(sig.params@.take(j + 1 as int).drop_last() =~= sig.params@.take(j as int));
        }
        j = j + 1;
    }
    proof {
        assert(sig.params@.take(np as int) =~= sig.params@);
    }

    // the wrapped signature: a leading word-sized userdata parameter,
    // then the visible parameters
    let mut wparams: Vec<NativeType> = Vec::new();
    wparams.push(NativeType::Word);
    let mut j: usize = 0;
    while j < np
        invariant
            j <= np,
            np == csig.params@.len(),
            wparams@.len() == j + 1,
            wparams@[0] == NativeType::Word,
            forall|k: int| 1 <= k < j + 1 ==> #[trigger] wparams@[k] == csig.params@[k - 1],
        decreases np - j,
    {
        wparams.push(csig.params[j]);
        j = j + 1;
    }
    let wsig = NativeSig { params: wparams, ret: csig.ret };

    let mut args: Vec<usize> = Vec::new();
    args.push(np);
    let mut j: usize = 0;
    while j < np
        invariant
            j <= np,
            args@.len() == j + 1,
            args@[0] == np,
            forall|k: int| 1 <= k < j + 1 ==> #[trigger] args@[k] == k - 1,
        decreases np - j,
    {
        args.push(j);
        j = j + 1;
    }

    vals.push(NativeType::Word);
    let rt = match &sig.ret {
        Some(t) => *t,
        None => NativeType::Unit,
    };
    vals.push(rt);

    let cst = Inst::ConstWord { dst: np, val: u };
    let call = Inst::CallPtr { dst: np + 1, addr: f.addr, sig: wsig, args };
    let term = match &sig.ret {
        Some(_) => Terminator::Ret { val: np + 1 },
        None => Terminator::RetVoid,
    };
    let body = NativeFunction {
        n_params: np,
        vals,
        blocks: vec![NativeBlock { instrs: vec![cst, call], term: Some(term) }],
    };
    let def = NativeDef { sig, body };
    proof {
        assert(def.body.vals@.take(np as int) =~= def.sig.params@);
        let wcall = def.body.blocks@[0].instrs@[1];
        assert(wcall matches Inst::CallPtr { sig, .. } && sig.params@ =~= seq![NativeType::Word]
            + def.sig.params@);
        assert forall|sigs: Seq<NativeSig>| wf_native_fn(sigs, def.sig, def.body) by {
            assert(wf_inst(sigs, def.body.vals@, def.body.blocks@[0].instrs@[0]));
            assert(wf_inst(sigs, def.body.vals@, def.body.blocks@[0].instrs@[1]));
            assert(wf_term(
                def.sig.ret,
                def.body.vals@,
                def.body.blocks@.len() as int,
                def.body.blocks@[0].term->0,
            ));
            assert forall|bi: int|
                0 <= bi < def.body.blocks@.len() implies crate::native::wf_native_block(
                sigs,
                def.sig.ret,
                def.body.vals@,
                def.body.blocks@.len() as int,
                #[trigger] def.body.blocks@[bi],
            ) by {
                assert(def.body.blocks@[bi] == def.body.blocks@[0]);
                assert forall|ii: int|
                    0 <= ii < def.body.blocks@[0].instrs@.len() implies wf_inst(
                    sigs,
                    def.body.vals@,
                    #[trigger] def.body.blocks@[0].instrs@[ii],
                ) by {
                    assert(ii == 0 || ii == 1);
                }
            }
        }
    }
    def
}

} // verus!
