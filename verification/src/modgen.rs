//! The module generator: owns the typed module, the function table and
//! the native module under construction, and drives the prototype builder
//! and the function lowerer over all functions of a typed module.

use vstd::prelude::*;

use crate::bridge::{
    build_plain_thunk, build_userdata_thunk, plain_thunk_ok, userdata_thunk_ok, HostFnDesc,
};
use crate::idmap::{IdMap, IndexOf};
use crate::ir::{wf_function, wf_module, FuncId, Function, Type, TypedModule};
use crate::lower::{
    allocas_at, bind_at, block_fully_lowered, funcs_map_ok, lower_function, Lowerer,
};
use crate::native::{
    alloca_discipline, module_sigs, sig_matches, wf_native_fn, wf_native_module, NativeDef,
    NativeFunction, NativeModule, NativeSig,
};
use crate::Error;

verus! {

/// Whether some bound static already carries this name.
pub open spec fn name_bound(names: Seq<String>, n: Seq<char>) -> bool {
    exists|j: int| 0 <= j < names.len() && names[j]@ == n
}

/// What one lowered function's native def looks like: the matching
/// signature, the stack-slot discipline, one native block per source
/// block behind the prologue — and, statement by statement, exactly the
/// instructions, stack allocations, value-slot types and terminators
/// (branch condition operand included) that the source statements emit
/// under the walk's binding state.
pub open spec fn lowered_def_ok(fmap: Seq<Option<usize>>, f: Function, def: NativeDef) -> bool {
    &&& sig_matches(def.sig, f.params@, f.ret)
    &&& alloca_discipline(def.body)
    &&& def.body.blocks@.len() == f.blocks@.len() + 1
    &&& def.body.vals@ == bind_at(fmap, f, def.sig.params@, f.blocks@.len() as int, 0).vals
    &&& def.body.blocks@[0].instrs@ == allocas_at(
        fmap,
        f,
        def.sig.params@,
        f.blocks@.len() as int,
        0,
    )
    &&& forall|bk: int|
        0 <= bk < f.blocks@.len() ==> block_fully_lowered(
            fmap,
            f,
            def.sig.params@,
            bk,
            #[trigger] def.body.blocks@[bk + 1],
        )
}

/// One compilation session: the typed module, the names bound by host
/// registrations, the `FuncId -> native function` table, the reusable
/// lowering state, and the native module built so far.
pub struct ModuleGen {
    pub types: TypedModule,
    pub names: Vec<String>,
    pub funcs: IdMap<FuncId, usize>,
    pub lowerer: Lowerer,
    pub native: NativeModule,
}

impl ModuleGen {
    /// The session invariant: every typed function is registered in the
    /// function table with a native def of the matching signature, and
    /// the whole native module is structurally well formed.
    pub open spec fn wf(&self) -> bool {
        &&& funcs_map_ok(self.funcs, self.types.functions@, module_sigs(self.native.defs@))
        &&& wf_native_module(self.native.defs@)
    }

    /// A fresh, empty compilation session.
    pub fn new() -> (r: ModuleGen)
        ensures
            r.wf(),
            r.types.functions@.len() == 0,
            r.names@.len() == 0,
            r.native.defs@.len() == 0,
    {
        ModuleGen {
            types: TypedModule::new(),
            names: Vec::new(),
            funcs: IdMap::new(),
            lowerer: Lowerer::new(),
            native: NativeModule { defs: Vec::new() },
        }
    }

    /// Adds a type checker's output to the module and lowers it: first
    /// every new function gets a registered native prototype (so any
    /// function can call any other, defined later or mutually recursive),
    /// then every body is lowered against that full table.  Returns the
    /// designated entry function id unchanged; type errors arise upstream,
    /// before this point, so on well-formed input no error is possible
    /// here.
    pub fn add(&mut self, fns: Vec<Function>, main: FuncId) -> (r: Result<FuncId, Error>)
        requires
            old(self).wf(),
            forall|k: int| 0 <= k < fns@.len() ==> !(#[trigger] fns@[k]).is_host,
            wf_module(old(self).types.functions@ + fns@),
            old(self).types.functions@.len() + fns@.len() <= usize::MAX,
            old(self).native.defs@.len() + fns@.len() <= usize::MAX,
        ensures
            final(self).wf(),
            r matches Ok(m) && m == main,
            final(self).types.functions@ == old(self).types.functions@ + fns@,
            final(self).names == old(self).names,
            final(self).native.defs@.len() == old(self).native.defs@.len() + fns@.len(),
            forall|dd: int|
                0 <= dd < old(self).native.defs@.len() ==> final(self).native.defs@[dd] == old(
                    self,
                ).native.defs@[dd],
            forall|k: int|
                0 <= k < fns@.len() ==> lowered_def_ok(
                    final(self).funcs.slots(),
                    fns@[k],
                    #[trigger] final(self).native.defs@[old(self).native.defs@.len() + k],
                ),
            forall|k: int|
                0 <= k < fns@.len() ==> ((#[trigger] final(self).funcs.slots()[old(
                    self,
                ).types.functions@.len() + k]) matches Some(d) && d == old(
                    self,
                ).native.defs@.len() + k),
    {
        let base_f = self.types.functions.len();
        let base_d = self.native.defs.len();
        let n_new = fns.len();
        let ghost old_defs = self.native.defs@;
        let ghost tfuncs = self.types.functions@ + fns@;

        // first pass: a registered prototype per new function
        self.funcs.reserve(base_f + n_new);
        let mut k: usize = 0;
        while k < n_new
            invariant
                k <= n_new,
                n_new == fns@.len(),
                base_f == old(self).types.functions@.len(),
                base_d == old_defs.len(),
                base_f + n_new <= usize::MAX,
                base_d + n_new <= usize::MAX,
                old_defs == old(self).native.defs@,
                self.types == old(self).types,
                self.names == old(self).names,
                self.lowerer == old(self).lowerer,
                self.native.defs@.len() == base_d + k,
                forall|dd: int| 0 <= dd < base_d ==> self.native.defs@[dd] == old_defs[dd],
                forall|kk: int|
                    0 <= kk < k ==> sig_matches(
                        (#[trigger] self.native.defs@[base_d + kk]).sig,
                        fns@[kk].params@,
                        fns@[kk].ret,
                    ),
                self.funcs.cap() >= base_f + n_new,
                forall|kk: int|
                    0 <= kk < base_f ==> self.funcs.slots()[kk] == old(self).funcs.slots()[kk],
                forall|kk: int|
                    0 <= kk < k ==> ((#[trigger] self.funcs.slots()[base_f + kk]) matches Some(d)
                        && d == base_d + kk),
            decreases n_new - k,
        {
            let proto = crate::native::to_prototype(&fns[k].ret, &fns[k].params);
            self.native.defs.push(
                NativeDef {
                    sig: proto,
                    body: NativeFunction { n_params: 0, vals: Vec::new(), blocks: Vec::new() },
                },
            );
            self.funcs.set(FuncId(base_f + k), base_d + k);
            k = k + 1;
        }

        let ghost sigs = module_sigs(self.native.defs@);
        proof {
            let osigs = module_sigs(old_defs);
            assert forall|kk: int|
                0 <= kk < tfuncs.len() implies ((#[trigger] self.funcs.slots()[kk]) matches Some(d)
                && d < sigs.len() && sig_matches(sigs[d as int], tfuncs[kk].params@, tfuncs[kk].ret))
                by {
                if kk < base_f {
                    assert(tfuncs[kk] == old(self).types.functions@[kk]);
                    assert((#[trigger] old(self).funcs.slots()[kk]) matches Some(d) && d
                        < osigs.len() && sig_matches(
                        osigs[d as int],
                        tfuncs[kk].params@,
                        tfuncs[kk].ret,
                    ));
                    let d = old(self).funcs.slots()[kk]->0;
                    assert(self.funcs.slots()[kk] == old(self).funcs.slots()[kk]);
                    assert(self.native.defs@[d as int] == old_defs[d as int]);
                    assert(sigs[d as int] == self.native.defs@[d as int].sig);
                    assert(osigs[d as int] == old_defs[d as int].sig);
                } else {
                    let j = kk - base_f;
                    assert(tfuncs[kk] == fns@[j]);
                    assert((#[trigger] self.funcs.slots()[base_f + j]) matches Some(d) && d
                        == base_d + j);
                    assert(sig_matches(
                        (#[trigger] self.native.defs@[base_d + j]).sig,
                        fns@[j].params@,
                        fns@[j].ret,
                    ));
                    assert(sigs[base_d + j] == self.native.defs@[base_d + j].sig);
                    assert(base_f + j == kk);
                }
            }
            assert(funcs_map_ok(self.funcs, tfuncs, sigs));
        }

        // second pass: lower every new body against the full table; the
        // function table is fixed from here on
        let ghost funcs1 = self.funcs;
        let ghost defs_after_protos = self.native.defs@;
        let mut k: usize = 0;
        while k < n_new
            invariant
                k <= n_new,
                n_new == fns@.len(),
                base_f == old(self).types.functions@.len(),
                base_d == old_defs.len(),
                base_d + n_new <= usize::MAX,
                old_defs == old(self).native.defs@,
                tfuncs == old(self).types.functions@ + fns@,
                self.types == old(self).types,
                self.names == old(self).names,
                wf_module(tfuncs),
                forall|kk: int| 0 <= kk < fns@.len() ==> !(#[trigger] fns@[kk]).is_host,
                self.native.defs@.len() == base_d + n_new,
                module_sigs(self.native.defs@) == sigs,
                funcs_map_ok(self.funcs, tfuncs, sigs),
                self.funcs == funcs1,
                forall|dd: int| 0 <= dd < base_d ==> self.native.defs@[dd] == old_defs[dd],
                forall|kk: int|
                    k <= kk < n_new ==> (#[trigger] self.native.defs@[base_d + kk]).sig
                        == defs_after_protos[base_d + kk].sig,
                forall|kk: int|
                    0 <= kk < n_new ==> sig_matches(
                        (#[trigger] self.native.defs@[base_d + kk]).sig,
                        fns@[kk].params@,
                        fns@[kk].ret,
                    ),
                forall|kk: int|
                    0 <= kk < k ==> lowered_def_ok(
                        funcs1.slots(),
                        fns@[kk],
                        #[trigger] self.native.defs@[base_d + kk],
                    ) && wf_native_fn(
                        sigs,
                        self.native.defs@[base_d + kk].sig,
                        self.native.defs@[base_d + kk].body,
                    ),
                forall|kk: int|
                    0 <= kk < n_new ==> ((#[trigger] self.funcs.slots()[base_f + kk]) matches Some(
                        d,
                    ) && d == base_d + kk),
                forall|kk: int|
                    0 <= kk < base_f ==> self.funcs.slots()[kk] == old(self).funcs.slots()[kk],
            decreases n_new - k,
        {
            proof {
                assert(tfuncs[base_f + k] == fns@[k as int]);
                assert(wf_function(tfuncs, fns@[k as int]));
            }
            let (nsig, body) = lower_function(
                &mut self.lowerer,
                &fns[k],
                &self.funcs,
                Ghost(tfuncs),
                Ghost(sigs),
            );
            let ghost defs_before = self.native.defs@;
            let ghost gbody = body;
            let idx = base_d + k;
            proof {
                assert(nsig.params@ == defs_before[idx as int].sig.params@);
                assert(nsig.ret == defs_before[idx as int].sig.ret);
            }
            let dref = &mut self.native.defs[idx];
            dref.body = body;
            proof {
                assert(self.native.defs@[idx as int].sig == defs_before[idx as int].sig);
                assert(self.native.defs@[idx as int].body == gbody);
                assert(forall|dd: int|
                    0 <= dd < defs_before.len() && dd != idx ==> self.native.defs@[dd]
                        == defs_before[dd]);
                assert(module_sigs(self.native.defs@) =~= sigs);
                // the recorded prototype agrees with the recomputed
                // signature in every respect the checks read, so the
                // lowered body is well formed under the recorded one too
                assert(wf_native_fn(sigs, self.native.defs@[idx as int].sig, gbody));
                assert(lowered_def_ok(funcs1.slots(), fns@[k as int], self.native.defs@[idx as int]));
            }
            k = k + 1;
        }

        proof {
            let defs = self.native.defs@;
            let osigs = module_sigs(old_defs);
            assert(module_sigs(defs) == sigs);
            assert(osigs.is_prefix_of(sigs)) by {
                assert forall|dd: int| 0 <= dd < osigs.len() implies osigs[dd] == sigs.subrange(
                    0,
                    osigs.len() as int,
                )[dd] by {
                    assert(defs[dd] == old_defs[dd]);
                }
                assert(osigs =~= sigs.subrange(0, osigs.len() as int));
            }
            assert forall|dd: int|
                0 <= dd < defs.len() implies wf_native_fn(
                module_sigs(defs),
                defs[dd].sig,
                (#[trigger] defs[dd]).body,
            ) by {
                if dd < base_d {
                    assert(defs[dd] == old_defs[dd]);
                    assert(wf_native_fn(osigs, old_defs[dd].sig, old_defs[dd].body));
                    crate::native::lemma_wf_fn_sigs_extend(
                        osigs,
                        sigs,
                        old_defs[dd].sig,
                        old_defs[dd].body,
                    );
                } else {
                    let kk = dd - base_d;
                    assert(lowered_def_ok(funcs1.slots(), fns@[kk], self.native.defs@[base_d + kk]));
                    assert(wf_native_fn(
                        sigs,
                        self.native.defs@[base_d + kk].sig,
                        self.native.defs@[base_d + kk].body,
                    ));
                }
            }
        }
        // the new functions now belong to the typed module
        let mut moved = fns;
        self.types.functions.append(&mut moved);
        proof {
            assert(self.types.functions@ == tfuncs);
        }
        Ok(main)
    }
}

} // verus!

verus! {

impl ModuleGen {
    /// Structural verification of the whole native module, as run before
    /// anything is handed to the machine-code backend.  Verification
    /// failure would mean the lowering produced ill-formed code — an
    /// internal defect, never a user-input error; on a session built
    /// through this generator it cannot fail, which the second
    /// postcondition states.
    pub fn verify_module(&self) -> (r: bool)
        ensures
            r == wf_native_module(self.native.defs@),
            self.wf() ==> r,
    {
        self.native.verify()
    }

    /// Whether `name` is already bound by a host registration.
    fn is_bound(&self, name_s: &String) -> (r: bool)
        ensures
            r == name_bound(self.names@, name_s@),
    {
        let n = self.names.len();
        let mut j: usize = 0;
        while j < n
            invariant
                j <= n,
                n == self.names@.len(),
                forall|k: int| 0 <= k < j ==> (#[trigger] self.names@[k])@ != name_s@,
            decreases n - j,
        {
            if self.names[j] == *name_s {
                proof {
                    assert(name_bound(self.names@, name_s@));
                }
                return true;
            }
            j = j + 1;
        }
        false
    }

    /// Registers a host function by raw address and typed signature,
    /// builds its bridge thunk (visible signature `(f.params) -> f.ret`,
    /// body one forwarding indirect call), and binds it under `name`.
    /// Redefining an already-bound name is refused with
    /// `StaticRedefined`, leaving the first registration intact.  Only
    /// integer-family and void results can be bridged back from a host
    /// call; anything else is an unsupported placeholder in the bridge,
    /// fatal if hit, so a function-typed (pointer) result is excluded up
    /// front.
    pub fn add_host(&mut self, name: &str, f: HostFnDesc) -> (r: Result<(), Error>)
        requires
            old(self).wf(),
            old(self).types.functions@.len() < usize::MAX,
            !(f.ret is Func),
        ensures
            final(self).wf(),
            r is Err <==> name_bound(old(self).names@, name@),
            r is Err ==> *final(self) == *old(self) && (r matches Err(e) && e matches
                Error::StaticRedefined(n) && n@ == name@),
            r is Ok ==> {
                &&& final(self).names@.len() == old(self).names@.len() + 1
                &&& final(self).names@.drop_last() == old(self).names@
                &&& final(self).names@.last()@ == name@
                &&& final(self).types.functions@.len() == old(self).types.functions@.len() + 1
                &&& final(self).types.functions@.drop_last() == old(self).types.functions@
                &&& final(self).types.functions@.last().is_host
                &&& final(self).types.functions@.last().params == f.params
                &&& final(self).types.functions@.last().ret == f.ret
                &&& final(self).native.defs@.len() == old(self).native.defs@.len() + 1
                &&& final(self).native.defs@.drop_last() == old(self).native.defs@
                &&& sig_matches(final(self).native.defs@.last().sig, f.params@, f.ret)
                &&& plain_thunk_ok(final(self).native.defs@.last(), f.addr)
                &&& ((final(self).funcs.slots()[old(self).types.functions@.len() as int])
                    matches Some(d) && d == old(self).native.defs@.len())
            },
    {
        let name_s = name.to_owned();
        if self.is_bound(&name_s) {
            return Err(Error::StaticRedefined(name_s));
        }
        let ghost old_self = *self;
        let ghost gparams = f.params@;
        let ghost gret = f.ret;
        let def = build_plain_thunk(&f);
        let d = self.native.defs.len();
        let HostFnDesc { addr: _, ret, params } = f;
        let fid = self.types.add_host(ret, params);
        self.funcs.reserve(fid.0 + 1);
        self.funcs.set(fid, d);
        self.native.defs.push(def);
        self.names.push(name_s);
        proof {
            assert(self.names@.drop_last() =~= old_self.names@);
            assert(self.types.functions@.drop_last() =~= old_self.types.functions@);
            assert(self.native.defs@.drop_last() =~= old_self.native.defs@);
            lemma_host_registration_wf(old_self, *self, gparams, gret);
        }
        Ok(())
    }

    /// Registers a host function whose real native signature takes a
    /// leading word-sized userdata parameter before `params`; the caller
    /// guarantees that `fn_ptr` really has that signature.  The visible
    /// wrapper takes only `params`, and the thunk prepends the fixed
    /// `userdata` word to every call — host-side closure state travels as
    /// a constant embedded in the thunk, invisible to generated call
    /// sites.  Redefining an already-bound name is refused with
    /// `StaticRedefined`, leaving the first registration intact.  As with
    /// `add_host`, only integer-family and void results can be bridged
    /// back, so a function-typed (pointer) result is excluded up front.
    pub fn add_host_userdata(
        &mut self,
        name: &str,
        fn_ptr: usize,
        userdata: usize,
        ret: Type,
        params: Vec<Type>,
    ) -> (r: Result<(), Error>)
        requires
            old(self).wf(),
            old(self).types.functions@.len() < usize::MAX,
            params@.len() < usize::MAX,
            !(ret is Func),
        ensures
            final(self).wf(),
            r is Err <==> name_bound(old(self).names@, name@),
            r is Err ==> *final(self) == *old(self) && (r matches Err(e) && e matches
                Error::StaticRedefined(n) && n@ == name@),
            r is Ok ==> {
                &&& final(self).names@.len() == old(self).names@.len() + 1
                &&& final(self).names@.drop_last() == old(self).names@
                &&& final(self).names@.last()@ == name@
                &&& final(self).types.functions@.len() == old(self).types.functions@.len() + 1
                &&& final(self).types.functions@.drop_last() == old(self).types.functions@
                &&& final(self).types.functions@.last().is_host
                &&& final(self).types.functions@.last().params == params
                &&& final(self).types.functions@.last().ret == ret
                &&& final(self).native.defs@.len() == old(self).native.defs@.len() + 1
                &&& final(self).native.defs@.drop_last() == old(self).native.defs@
                &&& sig_matches(final(self).native.defs@.last().sig, params@, ret)
                &&& userdata_thunk_ok(final(self).native.defs@.last(), fn_ptr, userdata)
                &&& ((final(self).funcs.slots()[old(self).types.functions@.len() as int])
                    matches Some(d) && d == old(self).native.defs@.len())
            },
    {
        let name_s = name.to_owned();
        if self.is_bound(&name_s) {
            return Err(Error::StaticRedefined(name_s));
        }
        let ghost old_self = *self;
        let ghost gparams = params@;
        let ghost gret = ret;
        let desc = HostFnDesc { addr: fn_ptr, ret, params };
        let def = build_userdata_thunk(&desc, userdata);
        let d = self.native.defs.len();
        let HostFnDesc { addr: _, ret, params } = desc;
        let fid = self.types.add_host(ret, params);
        self.funcs.reserve(fid.0 + 1);
        self.funcs.set(fid, d);
        self.native.defs.push(def);
        self.names.push(name_s);
        proof {
            assert(self.names@.drop_last() =~= old_self.names@);
            assert(self.types.functions@.drop_last() =~= old_self.types.functions@);
            assert(self.native.defs@.drop_last() =~= old_self.native.defs@);
            lemma_host_registration_wf(old_self, *self, gparams, gret);
        }
        Ok(())
    }
}

/// Registering one host function preserves the session invariant: the new
/// table entry points at the new, well-formed thunk, and every old entry
/// and old native function is untouched.
proof fn lemma_host_registration_wf(
    m1: ModuleGen,
    m2: ModuleGen,
    params: Seq<Type>,
    ret: Type,
)
    requires
        m1.wf(),
        m2.types.functions@.len() == m1.types.functions@.len() + 1,
        m2.types.functions@.drop_last() == m1.types.functions@,
        m2.types.functions@.last().params@ == params,
        m2.types.functions@.last().ret == ret,
        m2.native.defs@.len() == m1.native.defs@.len() + 1,
        m2.native.defs@.drop_last() == m1.native.defs@,
        sig_matches(m2.native.defs@.last().sig, params, ret),
        forall|sigs: Seq<NativeSig>|
            wf_native_fn(sigs, m2.native.defs@.last().sig, m2.native.defs@.last().body),
        m2.funcs.cap() >= m2.types.functions@.len(),
        forall|kk: int|
            0 <= kk < m1.types.functions@.len() ==> m2.funcs.slots()[kk] == m1.funcs.slots()[kk],
        (m2.funcs.slots()[m1.types.functions@.len() as int]) matches Some(d) && d
            == m1.native.defs@.len(),
    ensures
        m2.wf(),
{
    let osigs = module_sigs(m1.native.defs@);
    let sigs = module_sigs(m2.native.defs@);
    assert(osigs.is_prefix_of(sigs)) by {
        assert forall|dd: int| 0 <= dd < osigs.len() implies osigs[dd] == sigs.subrange(
            0,
            osigs.len() as int,
        )[dd] by {
            assert(m2.native.defs@[dd] == m2.native.defs@.drop_last()[dd]);
        }
        assert(osigs =~= sigs.subrange(0, osigs.len() as int));
    }
    assert forall|kk: int|
        0 <= kk < m2.types.functions@.len() implies ((#[trigger] m2.funcs.slots()[kk]) matches Some(
        d,
    ) && d < sigs.len() && sig_matches(sigs[d as int], m2.types.functions@[kk].params@,
        m2.types.functions@[kk].ret)) by {
        if kk < m1.types.functions@.len() {
            assert(m2.types.functions@[kk] == m2.types.functions@.drop_last()[kk]);
            assert((#[trigger] m1.funcs.slots()[kk]) matches Some(d) && d < osigs.len()
                && sig_matches(
                osigs[d as int],
                m1.types.functions@[kk].params@,
                m1.types.functions@[kk].ret,
            ));
            let d = m1.funcs.slots()[kk]->0;
            assert(sigs[d as int] == m2.native.defs@[d as int].sig);
            assert(m2.native.defs@[d as int] == m2.native.defs@.drop_last()[d as int]);
            assert(osigs[d as int] == m1.native.defs@[d as int].sig);
        } else {
            assert(kk == m1.types.functions@.len());
            assert(sigs[m1.native.defs@.len() as int] == m2.native.defs@.last().sig);
            assert(m2.types.functions@[kk] == m2.types.functions@.last());
        }
    }
    assert forall|dd: int|
        0 <= dd < m2.native.defs@.len() implies wf_native_fn(
        sigs,
        (#[trigger] m2.native.defs@[dd]).sig,
        m2.native.defs@[dd].body,
    ) by {
        if dd < m1.native.defs@.len() {
            assert(m2.native.defs@[dd] == m2.native.defs@.drop_last()[dd]);
            assert(wf_native_fn(osigs, m1.native.defs@[dd].sig, m1.native.defs@[dd].body));
            crate::native::lemma_wf_fn_sigs_extend(
                osigs,
                sigs,
                m1.native.defs@[dd].sig,
                m1.native.defs@[dd].body,
            );
        } else {
            assert(m2.native.defs@[dd] == m2.native.defs@.last());
        }
    }
}

} // verus!
