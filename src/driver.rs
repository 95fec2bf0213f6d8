//! The backend driver: the host's lifecycle callbacks, wired to the stages of
//! this crate. It holds no IR state; every context it is handed back is
//! released before it returns.

use vstd::prelude::*;

use crate::lto::{
    cached_entry, cached_parse, codegen, merge_entries, optimize_thin, prepare_thin, run_thin, thin_entry, CompiledModule, ModuleBuffer,
    ThinBuffer, WorkProduct,
};
use crate::module::ContextPool;
use crate::order::sorted_entries;
use crate::unit::{
    all_emitted_before, compile_units, context_of, is_first_failure, ok_contexts, CodegenUnit, CompileError,
    ModuleCodegen, UnitResult,
};

verus! {

/// The device backend. It carries no state.
pub struct NvvmCodegenBackend(pub ());

impl Default for NvvmCodegenBackend {
    fn default() -> (r: NvvmCodegenBackend)
        ensures
            r == NvvmCodegenBackend(()),
    {
        NvvmCodegenBackend(())
    }
}

/// The operations of the host's write-backend contract.
#[derive(Clone, Copy, Debug, PartialEq, Eq, Structural)]
pub enum WriteOp {
    RunLink,
    RunFatLto,
    RunThinLto,
    PrintPassTimings,
    Optimize,
    OptimizeThin,
    Codegen,
    PrepareThin,
    SerializeModule,
    RunLtoPassManager,
    PrintStatistics,
    OptimizeFat,
    Autodiff,
    WriteCompressedMetadata,
    TargetCpu,
    TuneCpu,
}

/// How the backend answers an operation.
#[derive(Clone, Copy, Debug, PartialEq, Eq, Structural)]
pub enum OpSupport {
    /// Carried out.
    Supported,
    /// Accepted and deliberately does nothing.
    Inert,
    /// Not implemented by this backend; refused, never silently skipped.
    Unsupported,
}

/// Which operations this backend carries out: the thin merge path and
/// per-module work are supported, pass timings are inert, and the fat merge,
/// module linking, statistics, autodiff, compressed metadata and CPU queries
/// are unsupported.
pub open spec fn op_support(op: WriteOp) -> OpSupport {
    match op {
        WriteOp::RunThinLto | WriteOp::Optimize | WriteOp::OptimizeThin | WriteOp::Codegen
        | WriteOp::PrepareThin | WriteOp::SerializeModule => OpSupport::Supported,
        WriteOp::PrintPassTimings => OpSupport::Inert,
        _ => OpSupport::Unsupported,
    }
}

/// The host reported compile errors.
#[derive(Clone, Copy, Debug, PartialEq, Eq, Structural)]
pub struct ErrorReported;

/// The work in flight between `codegen_crate` and `join_codegen`: one
/// compiled module per unit, in unit order, and the crate's metadata.
pub struct OngoingCodegen {
    pub modules: Vec<ModuleCodegen>,
    pub metadata: Vec<u8>,
}

/// What the join hands to the link stage: the finalized modules and the metadata.
pub struct CodegenResults {
    pub modules: Vec<CompiledModule>,
    pub metadata: Vec<u8>,
}

/// The final artifact: the host's metadata blob beside the device payload.
pub struct Artifact {
    pub metadata: Vec<u8>,
    pub device_payload: Vec<u8>,
}

/// The contexts held by the modules.
pub open spec fn module_contexts(ms: Seq<ModuleCodegen>) -> Set<u64> {
    Set::new(|c: u64| exists|i: int| 0 <= i < ms.len() && ms[i].module_llvm@.context == c)
}

/// No two modules share a context.
pub open spec fn distinct_contexts(ms: Seq<ModuleCodegen>) -> bool {
    forall|i: int, j: int|
        0 <= i < j < ms.len() ==> (#[trigger] ms[i]).module_llvm@.context != (#[trigger] ms[j]).module_llvm@.context
}

/// The `(name, items)` entries of cached modules, parsed.
pub open spec fn cached_entries(cs: Seq<(ModuleBuffer, WorkProduct)>) -> Seq<(Seq<char>, Seq<u64>)> {
    cs.map_values(|c: (ModuleBuffer, WorkProduct)| cached_entry(c))
}

/// Copies the cache records out of the cached modules.
fn records_of(cached: &Vec<(ModuleBuffer, WorkProduct)>) -> (r: Vec<WorkProduct>)
    ensures
        r@ == cached@.map_values(|c: (ModuleBuffer, WorkProduct)| c.1),
{
    let mut r: Vec<WorkProduct> = Vec::new();
    let mut i: usize = 0;
    while i < cached.len()
        invariant
            i <= cached@.len(),
            r@ =~= cached@.map_values(|c: (ModuleBuffer, WorkProduct)| c.1).take(i as int),
        decreases cached@.len() - i,
    {
        r.push(WorkProduct { cgu_name: cached[i].1.cgu_name.clone() });
        i = i + 1;
    }
    assert(cached@.map_values(|c: (ModuleBuffer, WorkProduct)| c.1).take(i as int) =~= cached@.map_values(
        |c: (ModuleBuffer, WorkProduct)| c.1,
    ));
    r
}

/// The `(name, items)` entries of modules in flight.
pub open spec fn module_entries(ms: Seq<ModuleCodegen>) -> Seq<(Seq<char>, Seq<u64>)> {
    ms.map_values(|m: ModuleCodegen| (m.name@, m.module_llvm@.items))
}

/// The `(name, items)` entries of compiled modules.
pub open spec fn compiled_entries(cs: Seq<CompiledModule>) -> Seq<(Seq<char>, Seq<u64>)> {
    cs.map_values(|c: CompiledModule| (c.name@, c.items@))
}

/// Every unit compiles.
pub open spec fn all_units_compile(emitted: Seq<Vec<bool>>) -> bool {
    forall|i: int| 0 <= i < emitted.len() ==> all_emitted_before(#[trigger] emitted[i]@, emitted[i]@.len() as int)
}

proof fn lemma_module_contexts_drop_first(ms: Seq<ModuleCodegen>)
    requires
        ms.len() > 0,
        distinct_contexts(ms),
    ensures
        module_contexts(ms.subrange(1, ms.len() as int)) == module_contexts(ms).remove(ms[0].module_llvm@.context),
        distinct_contexts(ms.subrange(1, ms.len() as int)),
        module_contexts(ms).contains(ms[0].module_llvm@.context),
{
    let rest = ms.subrange(1, ms.len() as int);
    let c0 = ms[0].module_llvm@.context;
    assert forall|x: u64| module_contexts(rest).contains(x) implies module_contexts(ms).remove(c0).contains(x) by {
        let i = choose|i: int| 0 <= i < rest.len() && rest[i].module_llvm@.context == x;
        assert(ms[i + 1] == rest[i]);
    }
    assert forall|x: u64| module_contexts(ms).remove(c0).contains(x) implies module_contexts(rest).contains(x) by {
        let i = choose|i: int| 0 <= i < ms.len() && ms[i].module_llvm@.context == x;
        assert(i != 0);
        assert(rest[i - 1] == ms[i]);
    }
    assert(module_contexts(rest) =~= module_contexts(ms).remove(c0));
    assert(ms[0].module_llvm@.context == c0);
}

/// Releases the context of every module.
fn release_modules(contexts: &mut ContextPool, modules: Vec<ModuleCodegen>)
    requires
        old(contexts).wf(),
        module_contexts(modules@).subset_of(old(contexts).live()),
        distinct_contexts(modules@),
    ensures
        final(contexts).wf(),
        final(contexts).room() == old(contexts).room(),
        final(contexts).live() == old(contexts).live().difference(module_contexts(modules@)),
{
    let ghost all = module_contexts(modules@);
    let mut rest = modules;
    while rest.len() > 0
        invariant
            contexts.wf(),
            contexts.room() == old(contexts).room(),
            distinct_contexts(rest@),
            module_contexts(rest@).subset_of(contexts.live()),
            contexts.live() == old(contexts).live().difference(all).union(module_contexts(rest@)),
            module_contexts(rest@).subset_of(all),
            all.subset_of(old(contexts).live()),
        decreases rest@.len(),
    {
        proof {
            lemma_module_contexts_drop_first(rest@);
        }
        let ghost before = rest@;
        let m = rest.remove(0);
        assert(rest@ =~= before.subrange(1, before.len() as int));
        m.module_llvm.dispose(contexts);
        assert(contexts.live() =~= old(contexts).live().difference(all).union(module_contexts(rest@)));
    }
    assert(module_contexts(rest@) =~= Set::<u64>::empty()) by {
        assert forall|x: u64| !module_contexts(rest@).contains(x) by {}
    }
    assert(contexts.live() =~= old(contexts).live().difference(all));
}

proof fn lemma_module_contexts_push(ms: Seq<ModuleCodegen>, m: ModuleCodegen)
    ensures
        module_contexts(ms.push(m)) == module_contexts(ms).insert(m.module_llvm@.context),
{
    let ms2 = ms.push(m);
    assert forall|x: u64| module_contexts(ms2).contains(x) implies module_contexts(ms).insert(
        m.module_llvm@.context,
    ).contains(x) by {
        let i = choose|i: int| 0 <= i < ms2.len() && ms2[i].module_llvm@.context == x;
        if i < ms.len() {
            assert(ms[i] == ms2[i]);
        }
    }
    assert forall|x: u64| module_contexts(ms).insert(m.module_llvm@.context).contains(x) implies module_contexts(
        ms2,
    ).contains(x) by {
        if x == m.module_llvm@.context {
            assert(ms2[ms.len() as int] == m);
        } else {
            let i = choose|i: int| 0 <= i < ms.len() && ms[i].module_llvm@.context == x;
            assert(ms2[i] == ms[i]);
        }
    }
    assert(module_contexts(ms2) =~= module_contexts(ms).insert(m.module_llvm@.context));
}

proof fn lemma_ok_contexts_push(rs: Seq<UnitResult>, r: UnitResult)
    ensures
        r is Ok ==> ok_contexts(rs.push(r)) == ok_contexts(rs).insert(context_of(r)),
        r is Err ==> ok_contexts(rs.push(r)) == ok_contexts(rs),
{
    let rs2 = rs.push(r);
    assert forall|x: u64| ok_contexts(rs2).contains(x) implies (r is Ok && x == context_of(r)) || ok_contexts(
        rs,
    ).contains(x) by {
        let i = choose|i: int| 0 <= i < rs2.len() && rs2[i] is Ok && context_of(rs2[i]) == x;
        if i < rs.len() {
            assert(rs[i] == rs2[i]);
        }
    }
    assert forall|x: u64| ok_contexts(rs).contains(x) implies ok_contexts(rs2).contains(x) by {
        let i = choose|i: int| 0 <= i < rs.len() && rs[i] is Ok && context_of(rs[i]) == x;
        assert(rs2[i] == rs[i]);
    }
    if r is Ok {
        assert(rs2[rs.len() as int] == r);
        assert(ok_contexts(rs2).contains(context_of(r)));
        assert(ok_contexts(rs2) =~= ok_contexts(rs).insert(context_of(r)));
    } else {
        assert(ok_contexts(rs2) =~= ok_contexts(rs));
    }
}

/// Splits compile results into the modules of the successful units, in order,
/// and the first error, if any.
fn split_results(rs: Vec<UnitResult>) -> (r: (Vec<ModuleCodegen>, Option<CompileError>))
    requires
        forall|i: int, j: int|
            0 <= i < j < rs@.len() && rs@[i] is Ok && rs@[j] is Ok ==> context_of(#[trigger] rs@[i])
                != context_of(#[trigger] rs@[j]),
    ensures
        module_contexts(r.0@) == ok_contexts(rs@),
        distinct_contexts(r.0@),
        r.1 is None <==> forall|i: int| 0 <= i < rs@.len() ==> #[trigger] rs@[i] is Ok,
        r.1 is None ==> r.0@.len() == rs@.len() && forall|i: int|
            0 <= i < rs@.len() ==> #[trigger] r.0@[i] == rs@[i]->Ok_0.0,
        r.1 is Some ==> exists|i: int|
            0 <= i < rs@.len() && rs@[i] is Err && rs@[i]->Err_0 == r.1->Some_0 && forall|j: int|
                0 <= j < i ==> #[trigger] rs@[j] is Ok,
{
    let ghost orig = rs@;
    let mut rest = rs;
    let mut modules: Vec<ModuleCodegen> = Vec::new();
    let mut first_err: Option<CompileError> = None;
    let ghost mut taken: Seq<UnitResult> = Seq::empty();
    while rest.len() > 0
        invariant
            orig == taken + rest@,
            forall|i: int, j: int|
                0 <= i < j < orig.len() && orig[i] is Ok && orig[j] is Ok ==> context_of(#[trigger] orig[i])
                    != context_of(#[trigger] orig[j]),
            module_contexts(modules@) == ok_contexts(taken),
            distinct_contexts(modules@),
            first_err is None <==> forall|i: int| 0 <= i < taken.len() ==> #[trigger] taken[i] is Ok,
            first_err is None ==> modules@.len() == taken.len() && forall|i: int|
                0 <= i < taken.len() ==> #[trigger] modules@[i] == taken[i]->Ok_0.0,
            first_err is Some ==> exists|i: int|
                0 <= i < taken.len() && taken[i] is Err && taken[i]->Err_0 == first_err->Some_0 && forall|j: int|
                    0 <= j < i ==> #[trigger] taken[j] is Ok,
        decreases rest@.len(),
    {
        let ghost before = rest@;
        let r = rest.remove(0);
        let ghost rg = r;
        proof {
            assert(rest@ =~= before.subrange(1, before.len() as int));
            assert(orig =~= taken.push(rg) + rest@);
            assert(orig[taken.len() as int] == rg);
            lemma_ok_contexts_push(taken, rg);
        }
        match r {
            Ok((m, _)) => {
                proof {
                    let n = taken.len() as int;
                    assert(!ok_contexts(taken).contains(context_of(rg))) by {
                        if ok_contexts(taken).contains(context_of(rg)) {
                            let i = choose|i: int| 0 <= i < taken.len() && taken[i] is Ok && context_of(taken[i]) == context_of(rg);
                            assert(orig[i] == taken[i]);
                        }
                    }
                    lemma_module_contexts_push(modules@, m);
                    assert forall|i: int| 0 <= i < modules@.len() implies (#[trigger] modules@[i]).module_llvm@.context
                        != m.module_llvm@.context by {
                        assert(module_contexts(modules@).contains(modules@[i].module_llvm@.context));
                    }
                }
                modules.push(m);
                proof {
                    let t0 = taken;
                    taken = taken.push(rg);
                    assert forall|i: int| 0 <= i < t0.len() implies taken[i] == t0[i] by {}
                    assert(taken[t0.len() as int] == rg);
                    if first_err is Some {
                        let w = choose|i: int|
                            0 <= i < t0.len() && t0[i] is Err && t0[i]->Err_0 == first_err->Some_0 && forall|j: int|
                                0 <= j < i ==> #[trigger] t0[j] is Ok;
                        assert(taken[w] == t0[w]);
                    }
                }
            },
            Err(e) => {
                let ghost was_none = first_err is None;
                if first_err.is_none() {
                    first_err = Some(e);
                }
                proof {
                    let t0 = taken;
                    taken = taken.push(rg);
                    assert forall|i: int| 0 <= i < t0.len() implies taken[i] == t0[i] by {}
                    assert(taken[t0.len() as int] == rg);
                    assert(!(taken[t0.len() as int] is Ok));
                    if !was_none {
                        let w = choose|i: int|
                            0 <= i < t0.len() && t0[i] is Err && t0[i]->Err_0 == first_err->Some_0 && forall|j: int|
                                0 <= j < i ==> #[trigger] t0[j] is Ok;
                        assert(taken[w] == t0[w]);
                    } else {
                        assert(forall|j: int| 0 <= j < t0.len() ==> #[trigger] taken[j] is Ok);
                    }
                }
            },
        }
    }
    assert(taken =~= orig);
    (modules, first_err)
}

impl Artifact {
    /// Reads the host's metadata blob back out of the artifact, without
    /// looking at the device payload.
    pub fn metadata(&self) -> (r: &Vec<u8>)
        ensures
            r@ == self.metadata@,
    {
        &self.metadata
    }
}

impl NvvmCodegenBackend {
    /// How this backend answers the operation `op`.
    pub fn support(&self, op: WriteOp) -> (r: OpSupport)
        ensures
            r == op_support(op),
    {
        match op {
            WriteOp::RunThinLto | WriteOp::Optimize | WriteOp::OptimizeThin | WriteOp::Codegen
            | WriteOp::PrepareThin | WriteOp::SerializeModule => OpSupport::Supported,
            WriteOp::PrintPassTimings => OpSupport::Inert,
            _ => OpSupport::Unsupported,
        }
    }

    /// Compiles every unit of the crate. When all succeed, the work in flight
    /// holds one module per unit, in unit order, each defining exactly its
    /// unit's items in a context of its own. When one fails, the error is the
    /// one of the first failing unit, and every context created on the way is
    /// released again.
    pub fn codegen_crate(
        &self,
        contexts: &mut ContextPool,
        units: &Vec<CodegenUnit>,
        emitted: &Vec<Vec<bool>>,
        metadata: Vec<u8>,
    ) -> (r: Result<OngoingCodegen, CompileError>)
        requires
            old(contexts).wf(),
            old(contexts).room() >= units@.len(),
            emitted@.len() == units@.len(),
            forall|i: int| 0 <= i < units@.len() ==> #[trigger] emitted@[i]@.len() == units@[i].items@.len(),
            forall|i: int| 0 <= i < units@.len() ==> !(#[trigger] units@[i]).name@.contains('\0'),
        ensures
            final(contexts).wf(),
            final(contexts).room() == old(contexts).room() - units@.len(),
            r is Ok <==> all_units_compile(emitted@),
            r is Ok ==> {
                &&& r->Ok_0.metadata@ == metadata@
                &&& r->Ok_0.modules@.len() == units@.len()
                &&& forall|i: int|
                    0 <= i < units@.len() ==> {
                        &&& (#[trigger] r->Ok_0.modules@[i]).name@ == units@[i].name@
                        &&& r->Ok_0.modules@[i].module_llvm@.items == units@[i].items@
                    }
                &&& distinct_contexts(r->Ok_0.modules@)
                &&& old(contexts).live().disjoint(module_contexts(r->Ok_0.modules@))
                &&& final(contexts).live() == old(contexts).live().union(module_contexts(r->Ok_0.modules@))
            },
            r is Err ==> {
                &&& final(contexts).live() == old(contexts).live()
                &&& exists|i: int, k: int|
                    0 <= i < units@.len() && all_units_compile(emitted@.take(i)) && #[trigger] is_first_failure(
                        emitted@[i]@,
                        k,
                    ) && r->Err_0 == (CompileError::ItemFailed { item: units@[i].items@[k] })
            },
    {
        let rs = compile_units(contexts, units, emitted);
        let ghost rsv = rs@;
        let (modules, first_err) = split_results(rs);
        match first_err {
            None => {
                proof {
                    assert forall|i: int| 0 <= i < emitted@.len() implies all_emitted_before(
                        #[trigger] emitted@[i]@,
                        emitted@[i]@.len() as int,
                    ) by {
                        assert(rsv[i] is Ok);
                    }
                }
                Ok(OngoingCodegen { modules, metadata })
            },
            Some(e) => {
                proof {
                    let i = choose|i: int|
                        0 <= i < rsv.len() && rsv[i] is Err && rsv[i]->Err_0 == e && forall|j: int|
                            0 <= j < i ==> #[trigger] rsv[j] is Ok;
                    let k = choose|k: int|
                        is_first_failure(emitted@[i]@, k) && rsv[i]->Err_0 == (CompileError::ItemFailed {
                            item: units@[i].items@[k],
                        });
                    assert forall|j: int| 0 <= j < emitted@.take(i).len() implies all_emitted_before(
                        #[trigger] emitted@.take(i)[j]@,
                        emitted@.take(i)[j]@.len() as int,
                    ) by {
                        assert(rsv[j] is Ok);
                    }
                    assert(!all_emitted_before(emitted@[i]@, emitted@[i]@.len() as int));
                    assert(!all_units_compile(emitted@));
                }
                release_modules(contexts, modules);
                assert(contexts.live() =~= old(contexts).live());
                Err(e)
            },
        }
    }

    /// Joins the work in flight. If the host has reported compile errors, every
    /// module's context is released and the error is returned, so nothing is
    /// linked. Otherwise each module is prepared for the merge, the merge is
    /// planned, and each planned module is finalized: the results hold one
    /// compiled module per module in flight, with the same names and
    /// definitions, in canonical order, beside the metadata. Either way every context of the work
    /// in flight is released. The cached modules `cached` join the merge
    /// beside the fresh ones, and their records are handed back unchanged;
    /// a cached buffer that does not parse fails the join.
    pub fn join_codegen(
        &self,
        contexts: &mut ContextPool,
        ongoing: OngoingCodegen,
        cached: Vec<(ModuleBuffer, WorkProduct)>,
        host_error_count: u64,
    ) -> (r: Result<(CodegenResults, Vec<WorkProduct>), ErrorReported>)
        requires
            old(contexts).wf(),
            old(contexts).room() >= ongoing.modules@.len(),
            module_contexts(ongoing.modules@).subset_of(old(contexts).live()),
            distinct_contexts(ongoing.modules@),
            forall|i: int| 0 <= i < ongoing.modules@.len() ==> !(#[trigger] ongoing.modules@[i]).name@.contains('\0'),
            forall|i: int| 0 <= i < cached@.len() ==> !(#[trigger] cached@[i]).1.cgu_name@.contains('\0'),
            old(contexts).room() >= ongoing.modules@.len() + cached@.len(),
        ensures
            final(contexts).wf(),
            final(contexts).live() == old(contexts).live().difference(module_contexts(ongoing.modules@)),
            r is Err <==> host_error_count > 0 || !cached_parse(cached@),
            r is Ok ==> {
                &&& r->Ok_0.0.metadata@ == ongoing.metadata@
                &&& r->Ok_0.0.modules@.len() == ongoing.modules@.len() + cached@.len()
                &&& sorted_entries(compiled_entries(r->Ok_0.0.modules@))
                &&& compiled_entries(r->Ok_0.0.modules@).to_multiset() == (module_entries(ongoing.modules@)
                    + cached_entries(cached@)).to_multiset()
                &&& r->Ok_0.1@ == cached@.map_values(|c: (ModuleBuffer, WorkProduct)| c.1)
            },
    {
        let OngoingCodegen { modules, metadata } = ongoing;
        if host_error_count > 0 {
            release_modules(contexts, modules);
            return Err(ErrorReported);
        }
        let ghost orig = modules@;
        let ghost all = module_contexts(orig);
        let ghost n = orig.len();
        let mut rest = modules;
        let mut fresh: Vec<(String, ThinBuffer)> = Vec::new();
        while rest.len() > 0
            invariant
                contexts.wf(),
                contexts.room() == old(contexts).room(),
                old(contexts).room() >= n,
                n == orig.len(),
                rest@ == orig.subrange(fresh@.len() as int, n as int),
                fresh@.len() <= n,
                forall|j: int|
                    0 <= j < fresh@.len() ==> thin_entry(#[trigger] fresh@[j]) == (
                        orig[j].name@,
                        orig[j].module_llvm@.items,
                    ),
                distinct_contexts(rest@),
                module_contexts(rest@).subset_of(contexts.live()),
                contexts.live() == old(contexts).live().difference(all).union(module_contexts(rest@)),
                module_contexts(rest@).subset_of(all),
                all.subset_of(old(contexts).live()),
            decreases rest@.len(),
        {
            proof {
                lemma_module_contexts_drop_first(rest@);
            }
            let ghost before = rest@;
            let m = rest.remove(0);
            assert(rest@ =~= before.subrange(1, before.len() as int));
            let ghost mv = m;
            let p = prepare_thin(m, true, contexts);
            fresh.push(p);
            assert(contexts.live() =~= old(contexts).live().difference(all).union(module_contexts(rest@)));
            assert(rest@ =~= orig.subrange(fresh@.len() as int, n as int));
            assert(mv == orig[fresh@.len() - 1]);
        }
        assert(module_contexts(rest@) =~= Set::<u64>::empty()) by {
            assert forall|x: u64| !module_contexts(rest@).contains(x) by {}
        }
        assert(contexts.live() =~= old(contexts).live().difference(all));
        let ghost freshv = fresh@;
        let ghost cachedv = cached@;
        let records = records_of(&cached);
        let (plan, _) = match run_thin(fresh, cached) {
            Ok(merged) => merged,
            Err(_) => {
                return Err(ErrorReported);
            },
        };
        let ghost live_after = contexts.live();
        let ghost me = module_entries(orig) + cached_entries(cachedv);
        let ghost pe = plan.shared.entries();
        proof {
            assert forall|k: int| 0 <= k < me.len() implies #[trigger] merge_entries(freshv, cachedv)[k] == me[k] by {
                if k < n {
                    assert(merge_entries(freshv, cachedv)[k] == thin_entry(freshv[k]));
                } else {
                    assert(merge_entries(freshv, cachedv)[k] == cached_entry(cachedv[k - n]));
                }
            }
            assert(merge_entries(freshv, cachedv) =~= me);
        }
        let mut compiled: Vec<CompiledModule> = Vec::new();
        let mut j: usize = 0;
        while j < plan.modules.len()
            invariant
                contexts.wf(),
                contexts.live() == live_after,
                contexts.room() == old(contexts).room() - j,
                old(contexts).room() >= n,
                plan.shared.wf(),
                pe == plan.shared.entries(),
                pe.to_multiset() == me.to_multiset(),
                pe.len() == me.len(),
                old(contexts).room() >= me.len(),
                me == module_entries(orig) + cached_entries(cachedv),
                orig.len() == n,
                forall|k: int| 0 <= k < n ==> !(#[trigger] orig[k]).name@.contains('\0'),
                forall|k: int| 0 <= k < cachedv.len() ==> !(#[trigger] cachedv[k]).1.cgu_name@.contains('\0'),
                plan.modules@.len() == pe.len(),
                forall|i: int| 0 <= i < plan.modules@.len() ==> (#[trigger] plan.modules@[i]).idx == i,
                j <= plan.modules@.len(),
                compiled_entries(compiled@) =~= pe.take(j as int),
            decreases plan.modules@.len() - j,
        {
            proof {
                broadcast use vstd::seq_lib::group_to_multiset_ensures;

                let e = pe[j as int];
                assert(pe.contains(e));
                assert(pe.to_multiset().count(e) > 0);
                assert(me.contains(e));
                let k = choose|k: int| 0 <= k < me.len() && me[k] == e;
                if k < n {
                    assert(me[k] == (orig[k].name@, orig[k].module_llvm@.items));
                } else {
                    assert(me[k] == cached_entry(cachedv[k - n]));
                }
            }
            let m = optimize_thin(&plan.shared, plan.modules[j], contexts);
            let c = codegen(m, contexts);
            let ghost before = compiled@;
            compiled.push(c);
            assert(compiled_entries(compiled@) =~= compiled_entries(before).push(pe[j as int]));
            assert(pe.take(j + 1) =~= pe.take(j as int).push(pe[j as int]));
            assert(contexts.live() =~= live_after);
            j = j + 1;
        }
        assert(pe.take(pe.len() as int) =~= pe);
        Ok((CodegenResults { modules: compiled, metadata }, records))
    }

    /// Packages the results with the payload that the device-code generator
    /// produced from them: the metadata is carried unchanged beside it.
    pub fn link(&self, results: CodegenResults, device_payload: Vec<u8>) -> (r: Artifact)
        ensures
            r.metadata@ == results.metadata@,
            r.device_payload@ == device_payload@,
    {
        Artifact { metadata: results.metadata, device_payload }
    }
}

} // verus!
