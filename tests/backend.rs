use rustc_codegen_nvvm::abi::{fn_abi_query, readjust_arg_abi, readjust_fn_abi, ArgAbi, ArgKind, Conv, FnAbi, PassMode};
use rustc_codegen_nvvm::driver::{NvvmCodegenBackend, OpSupport, WriteOp};
use rustc_codegen_nvvm::lto::{
    deserialize_module, optimize_thin, prepare_thin, run_thin, serialize_module, ModuleBuffer, ThinBuffer,
    WorkProduct,
};
use rustc_codegen_nvvm::module::{ContextPool, LlvmMod};
use rustc_codegen_nvvm::target::{DATA_LAYOUT, TARGET_TRIPLE};
use rustc_codegen_nvvm::unit::{compile_codegen_unit, compile_units, CodegenUnit, CompileError, ModuleCodegen};

fn arg(size: u64, kind: ArgKind, mode: PassMode) -> ArgAbi {
    ArgAbi { size, kind, mode }
}

fn sample_abi(conv: Conv) -> FnAbi {
    FnAbi {
        args: vec![
            arg(0, ArgKind::Aggregate, PassMode::Direct),
            arg(16, ArgKind::SliceRef, PassMode::Indirect),
            arg(32, ArgKind::Array, PassMode::Indirect),
            arg(8, ArgKind::Scalar, PassMode::Direct),
            arg(24, ArgKind::Aggregate, PassMode::Indirect),
        ],
        ret: arg(12, ArgKind::Array, PassMode::Indirect),
        c_variadic: false,
        fixed_count: 5,
        conv,
        can_unwind: false,
    }
}

fn unit(name: &str, items: Vec<u64>) -> CodegenUnit {
    CodegenUnit { name: name.to_string(), items }
}

#[test]
fn adjust_rewrites_modes_by_device_rule() {
    let d = readjust_fn_abi(&sample_abi(Conv::C));
    let modes: Vec<PassMode> = d.args.iter().map(|a| a.mode).collect();
    assert_eq!(
        modes,
        vec![PassMode::Ignore, PassMode::Pair, PassMode::Direct, PassMode::Direct, PassMode::Indirect]
    );
    assert_eq!(d.ret.mode, PassMode::Direct);
    assert_eq!(d.args.len(), 5);
    assert_eq!(d.args[1].size, 16);
    assert_eq!(d.fixed_count, 5);
}

#[test]
fn adjust_leaves_host_convention_alone() {
    let d = readjust_fn_abi(&sample_abi(Conv::Rust));
    assert_eq!(d.args, sample_abi(Conv::Rust).args);
    assert_eq!(d.ret, sample_abi(Conv::Rust).ret);
}

#[test]
fn adjust_is_idempotent_on_kernel() {
    let once = readjust_fn_abi(&sample_abi(Conv::PtxKernel));
    let twice = readjust_fn_abi(&once);
    assert_eq!(once.args, twice.args);
    assert_eq!(once.ret, twice.ret);
}

#[test]
fn adjust_zero_sized_array_is_ignored() {
    let a = readjust_arg_abi(arg(0, ArgKind::Array, PassMode::Indirect));
    assert_eq!(a.mode, PassMode::Ignore);
}

#[test]
fn query_adjusts_ok_and_passes_errors() {
    let ok: Result<FnAbi, u32> = Ok(sample_abi(Conv::C));
    let r = fn_abi_query(ok).unwrap();
    assert_eq!(r.args[0].mode, PassMode::Ignore);
    let err: Result<FnAbi, u32> = Err(7);
    assert_eq!(fn_abi_query(err).unwrap_err(), 7);
}

#[test]
fn module_is_stamped_and_disposed_once() {
    let mut pool = ContextPool::new();
    let m = LlvmMod::new("kernel", &mut pool);
    assert_eq!(pool.live_count(), 1);
    assert!(pool.is_live(m.context()));
    assert_eq!(m.name(), "kernel");
    assert_eq!(m.data_layout(), DATA_LAYOUT);
    assert_eq!(m.target_triple(), TARGET_TRIPLE);
    assert_eq!(m.target_triple(), "nvptx64-nvidia-cuda");
    assert!(m.items().is_empty());
    let c = m.context();
    m.dispose(&mut pool);
    assert_eq!(pool.live_count(), 0);
    assert!(!pool.is_live(c));
}

#[test]
fn fresh_contexts_are_distinct() {
    let mut pool = ContextPool::new();
    let a = LlvmMod::new("a", &mut pool);
    let b = LlvmMod::new("b", &mut pool);
    assert_ne!(a.context(), b.context());
    assert_eq!(pool.live_count(), 2);
    a.dispose(&mut pool);
    b.dispose(&mut pool);
    assert_eq!(pool.live_count(), 0);
}

#[test]
fn unit_compiles_to_its_items() {
    let mut pool = ContextPool::new();
    let u = unit("cgu0", vec![3, 1, 4]);
    let (m, size) = compile_codegen_unit(&mut pool, &u, &vec![true, true, true]).unwrap();
    assert_eq!(m.name, "cgu0");
    assert_eq!(m.module_llvm.items(), &vec![3, 1, 4]);
    assert_eq!(size, 3);
    assert_eq!(pool.live_count(), 1);
}

#[test]
fn failed_unit_releases_its_context() {
    let mut pool = ContextPool::new();
    let u = unit("cgu0", vec![3, 1, 4]);
    let r = compile_codegen_unit(&mut pool, &u, &vec![true, false, false]);
    assert_eq!(r.err(), Some(CompileError::ItemFailed { item: 1 }));
    assert_eq!(pool.live_count(), 0);
}

#[test]
fn failure_injection_in_any_position_leaves_no_live_context() {
    for fail_at in 0..4usize {
        let mut pool = ContextPool::new();
        let units = vec![unit("a", vec![1, 2]), unit("b", vec![3, 4])];
        let mut emitted = vec![vec![true, true], vec![true, true]];
        emitted[fail_at / 2][fail_at % 2] = false;
        let backend = NvvmCodegenBackend::default();
        let r = backend.codegen_crate(&mut pool, &units, &emitted, vec![9]);
        assert_eq!(r.err(), Some(CompileError::ItemFailed { item: fail_at as u64 + 1 }));
        assert_eq!(pool.live_count(), 0);
    }
}

#[test]
fn units_partition_gives_modules_partition() {
    let mut pool = ContextPool::new();
    let units = vec![unit("a", vec![1, 5]), unit("b", vec![2]), unit("c", vec![])];
    let emitted = vec![vec![true, true], vec![true], vec![]];
    let rs = compile_units(&mut pool, &units, &emitted);
    let mut all: Vec<u64> = Vec::new();
    for r in rs.iter() {
        let (m, _) = r.as_ref().unwrap();
        all.extend(m.module_llvm.items().iter().copied());
    }
    all.sort();
    assert_eq!(all, vec![1, 2, 5]);
    assert_eq!(pool.live_count(), 3);
}

#[test]
fn flat_round_trip_is_identical() {
    let mut pool = ContextPool::new();
    let (m, _) = compile_codegen_unit(&mut pool, &unit("cgu", vec![10, 20, 30]), &vec![true, true, true]).unwrap();
    let (name, buf) = serialize_module(m, &mut pool);
    assert_eq!(name, "cgu");
    assert_eq!(pool.live_count(), 0);
    let back = deserialize_module(&name, &buf, &mut pool).unwrap();
    assert_eq!(back.module_llvm.items(), &vec![10, 20, 30]);
    let (name2, buf2) = serialize_module(back, &mut pool);
    assert_eq!(name2, name);
    assert_eq!(buf2.data(), buf.data());
    assert_eq!(pool.live_count(), 0);
}

#[test]
fn flat_form_is_little_endian_words() {
    let mut pool = ContextPool::new();
    let (m, _) = compile_codegen_unit(&mut pool, &unit("u", vec![0x0102, u64::MAX]), &vec![true, true]).unwrap();
    let (_, buf) = serialize_module(m, &mut pool);
    assert_eq!(buf.data(), &vec![2, 1, 0, 0, 0, 0, 0, 0, 255, 255, 255, 255, 255, 255, 255, 255]);
}

#[test]
fn truncated_flat_buffer_is_refused() {
    let mut pool = ContextPool::new();
    let buf = ModuleBuffer::from_bytes(vec![1, 2, 3]);
    assert!(deserialize_module("u", &buf, &mut pool).is_none());
    assert_eq!(pool.live_count(), 0);
    let ok = ModuleBuffer::from_bytes(vec![5, 0, 0, 0, 0, 0, 0, 0]);
    let m = deserialize_module("u", &ok, &mut pool).unwrap();
    assert_eq!(m.module_llvm.items(), &vec![5]);
    assert_eq!(pool.live_count(), 1);
}

#[test]
fn merge_refuses_malformed_cached_buffer() {
    let cached = vec![(ModuleBuffer::from_bytes(vec![0; 9]), WorkProduct { cgu_name: "c".to_string() })];
    assert!(run_thin(Vec::new(), cached).is_err());
}

fn thin_of(pool: &mut ContextPool, name: &str, items: Vec<u64>) -> (String, ThinBuffer) {
    let n = items.len();
    let (m, _) = compile_codegen_unit(pool, &unit(name, items), &vec![true; n]).unwrap();
    prepare_thin(m, true, pool)
}

fn flat_of(pool: &mut ContextPool, name: &str, items: Vec<u64>) -> (ModuleBuffer, WorkProduct) {
    let n = items.len();
    let (m, _) = compile_codegen_unit(pool, &unit(name, items), &vec![true; n]).unwrap();
    let (name, buf) = serialize_module(m, pool);
    (buf, WorkProduct { cgu_name: name })
}

fn merged(pool: &mut ContextPool, fresh: Vec<(String, ThinBuffer)>, cached: Vec<(ModuleBuffer, WorkProduct)>) -> Vec<(String, Vec<u64>)> {
    let (plan, wps) = run_thin(fresh, cached).unwrap();
    assert!(wps.is_empty());
    let mut out = Vec::new();
    for job in plan.modules.iter() {
        let m: ModuleCodegen = optimize_thin(&plan.shared, *job, pool);
        out.push((m.name.clone(), m.module_llvm.items().clone()));
        m.module_llvm.dispose(pool);
    }
    out
}

#[test]
fn merge_plans_in_canonical_order() {
    let mut pool = ContextPool::new();
    let fresh = vec![thin_of(&mut pool, "b", vec![2, 3]), thin_of(&mut pool, "a", vec![1])];
    let cached = vec![flat_of(&mut pool, "c", vec![4])];
    let out = merged(&mut pool, fresh, cached);
    assert_eq!(
        out,
        vec![("a".to_string(), vec![1]), ("b".to_string(), vec![2, 3]), ("c".to_string(), vec![4])]
    );
    assert_eq!(pool.live_count(), 0);
}

#[test]
fn cached_module_is_indistinguishable_from_fresh() {
    let mut pool = ContextPool::new();
    let fresh = vec![thin_of(&mut pool, "m", vec![7, 8])];
    let a = merged(&mut pool, fresh, vec![]);
    let cached = vec![flat_of(&mut pool, "m", vec![7, 8])];
    let b = merged(&mut pool, vec![], cached);
    assert_eq!(a, b);
}

#[test]
fn merge_content_ignores_arrival_order() {
    let mut pool = ContextPool::new();
    let fx = vec![thin_of(&mut pool, "a", vec![1]), thin_of(&mut pool, "b", vec![2])];
    let x = merged(&mut pool, fx, vec![]);
    let fy = vec![thin_of(&mut pool, "b", vec![2]), thin_of(&mut pool, "a", vec![1])];
    let y = merged(&mut pool, fy, vec![]);
    assert_eq!(x, y);
    assert_eq!(x, vec![("a".to_string(), vec![1]), ("b".to_string(), vec![2])]);
    let fz = vec![thin_of(&mut pool, "a", vec![1]), thin_of(&mut pool, "b", vec![2])];
    let z = merged(&mut pool, fz, vec![]);
    assert_eq!(x, z);
}

#[test]
fn call_across_units_resolves_to_one_definition() {
    // item 1 is `f(x: i64) -> i64`, defined in unit_a; unit_b only calls it
    // and defines its caller, item 2.
    let mut pool = ContextPool::new();
    let backend = NvvmCodegenBackend::default();
    let units = vec![unit("unit_a", vec![1]), unit("unit_b", vec![2])];
    let emitted = vec![vec![true], vec![true]];
    let ongoing = backend.codegen_crate(&mut pool, &units, &emitted, vec![1, 2, 3]).unwrap();
    let (results, wps) = backend.join_codegen(&mut pool, ongoing, Vec::new(), 0).unwrap();
    assert!(wps.is_empty());
    let defs_of_f = results.modules.iter().flat_map(|m| m.items.iter()).filter(|&&i| i == 1).count();
    assert_eq!(defs_of_f, 1);
    assert_eq!(results.modules[0].name, "unit_a");
    assert_eq!(results.modules[1].items, vec![2]);
    assert_eq!(pool.live_count(), 0);
}

#[test]
fn empty_crate_gives_empty_valid_artifact() {
    let mut pool = ContextPool::new();
    let backend = NvvmCodegenBackend::default();
    let ongoing = backend.codegen_crate(&mut pool, &vec![], &vec![], vec![0xAB, 0xCD]).unwrap();
    let (results, _) = backend.join_codegen(&mut pool, ongoing, Vec::new(), 0).unwrap();
    assert!(results.modules.is_empty());
    let artifact = backend.link(results, Vec::new());
    assert_eq!(artifact.metadata(), &vec![0xAB, 0xCD]);
    assert!(artifact.device_payload.is_empty());
    assert_eq!(pool.live_count(), 0);
}

#[test]
fn prior_host_error_fails_join_and_releases_contexts() {
    let mut pool = ContextPool::new();
    let backend = NvvmCodegenBackend::default();
    let units = vec![unit("a", vec![1]), unit("b", vec![2])];
    let ongoing = backend.codegen_crate(&mut pool, &units, &vec![vec![true], vec![true]], vec![5]).unwrap();
    assert_eq!(pool.live_count(), 2);
    let r = backend.join_codegen(&mut pool, ongoing, Vec::new(), 1);
    assert!(r.is_err());
    assert_eq!(pool.live_count(), 0);
}

#[test]
fn link_keeps_metadata_beside_payload() {
    let mut pool = ContextPool::new();
    let backend = NvvmCodegenBackend::default();
    let ongoing = backend.codegen_crate(&mut pool, &vec![unit("a", vec![1])], &vec![vec![true]], vec![7]).unwrap();
    let (results, _) = backend.join_codegen(&mut pool, ongoing, Vec::new(), 0).unwrap();
    let artifact = backend.link(results, vec![1, 2, 3]);
    assert_eq!(artifact.metadata(), &vec![7]);
    assert_eq!(artifact.device_payload, vec![1, 2, 3]);
}

#[test]
fn unsupported_operations_are_tagged() {
    let b = NvvmCodegenBackend::default();
    assert_eq!(b.support(WriteOp::RunThinLto), OpSupport::Supported);
    assert_eq!(b.support(WriteOp::PrepareThin), OpSupport::Supported);
    assert_eq!(b.support(WriteOp::PrintPassTimings), OpSupport::Inert);
    assert_eq!(b.support(WriteOp::RunFatLto), OpSupport::Unsupported);
    assert_eq!(b.support(WriteOp::Autodiff), OpSupport::Unsupported);
    assert_eq!(b.support(WriteOp::PrintStatistics), OpSupport::Unsupported);
    assert_eq!(b.support(WriteOp::RunLink), OpSupport::Unsupported);
}

#[test]
fn merge_orders_equal_names_by_contents() {
    let mut pool = ContextPool::new();
    let fresh = vec![thin_of(&mut pool, "m", vec![5, 1]), thin_of(&mut pool, "m", vec![5]), thin_of(&mut pool, "l", vec![9])];
    let out = merged(&mut pool, fresh, vec![]);
    assert_eq!(
        out,
        vec![("l".to_string(), vec![9]), ("m".to_string(), vec![5]), ("m".to_string(), vec![5, 1])]
    );
}

#[test]
fn thin_summary_only_when_asked() {
    let mut pool = ContextPool::new();
    let (m, _) = compile_codegen_unit(&mut pool, &unit("u", vec![4, 2]), &vec![true, true]).unwrap();
    let (_, with) = prepare_thin(m, true, &mut pool);
    assert_eq!(with.summary(), Some(&vec![4, 2]));
    assert_eq!(with.data(), &vec![4, 2]);
    let (m, _) = compile_codegen_unit(&mut pool, &unit("u", vec![4, 2]), &vec![true, true]).unwrap();
    let (_, without) = prepare_thin(m, false, &mut pool);
    assert_eq!(without.summary(), None);
    assert_eq!(pool.live_count(), 0);
}

#[test]
fn join_merges_cached_modules_and_returns_their_records() {
    let mut pool = ContextPool::new();
    let backend = NvvmCodegenBackend::default();
    let cached = vec![flat_of(&mut pool, "cached_cgu", vec![8, 9])];
    let ongoing = backend.codegen_crate(&mut pool, &vec![unit("fresh_cgu", vec![1])], &vec![vec![true]], vec![]).unwrap();
    let (results, records) = backend.join_codegen(&mut pool, ongoing, cached, 0).unwrap();
    assert_eq!(results.modules.len(), 2);
    assert_eq!(results.modules[0].name, "cached_cgu");
    assert_eq!(results.modules[0].items, vec![8, 9]);
    assert_eq!(results.modules[1].name, "fresh_cgu");
    assert_eq!(records.len(), 1);
    assert_eq!(records[0].cgu_name, "cached_cgu");
    assert_eq!(pool.live_count(), 0);
}

#[test]
fn join_fails_on_malformed_cached_buffer() {
    let mut pool = ContextPool::new();
    let backend = NvvmCodegenBackend::default();
    let cached = vec![(ModuleBuffer::from_bytes(vec![1; 5]), WorkProduct { cgu_name: "bad".to_string() })];
    let ongoing = backend.codegen_crate(&mut pool, &vec![unit("a", vec![1])], &vec![vec![true]], vec![]).unwrap();
    assert!(backend.join_codegen(&mut pool, ongoing, cached, 0).is_err());
    assert_eq!(pool.live_count(), 0);
}
