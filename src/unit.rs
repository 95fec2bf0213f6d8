//! The per-unit compiler: turns one compilation unit into one module whose
//! definitions are exactly the unit's items, releasing the module's context
//! on every failure path.

use vstd::prelude::*;

use crate::module::{ContextPool, LlvmMod};
use crate::target::{DATA_LAYOUT, TARGET_TRIPLE};

verus! {

/// A compilation unit: a named slice of the program's monomorphized items.
pub struct CodegenUnit {
    pub name: String,
    pub items: Vec<u64>,
}

/// A module being built, under its unit's name.
pub struct ModuleCodegen {
    pub name: String,
    pub module_llvm: LlvmMod,
}

/// Why a unit could not be compiled.
#[derive(Clone, Copy, Debug, PartialEq, Eq, Structural)]
pub enum CompileError {
    /// The IR builder reported failure on this item.
    ItemFailed { item: u64 },
}

/// What compiling one unit gives: a module and its size estimate, or an error.
pub type UnitResult = Result<(ModuleCodegen, u64), CompileError>;

/// The outcomes hold no `false` before index `i`.
pub open spec fn all_emitted_before(emitted: Seq<bool>, i: int) -> bool {
    forall|j: int| 0 <= j < i ==> #[trigger] emitted[j]
}

/// `i` is the first index whose outcome is a failure.
pub open spec fn is_first_failure(emitted: Seq<bool>, i: int) -> bool {
    0 <= i < emitted.len() && !emitted[i] && all_emitted_before(emitted, i)
}

/// The context of a successful result.
pub open spec fn context_of(r: UnitResult) -> u64 {
    r->Ok_0.0.module_llvm@.context
}

/// The contexts held by the successful results.
pub open spec fn ok_contexts(rs: Seq<UnitResult>) -> Set<u64> {
    Set::new(|c: u64| exists|i: int| 0 <= i < rs.len() && rs[i] is Ok && context_of(rs[i]) == c)
}

/// The items of each unit.
pub open spec fn unit_items(units: Seq<CodegenUnit>) -> Seq<Seq<u64>> {
    units.map_values(|u: CodegenUnit| u.items@)
}

/// The items defined in each successfully compiled module.
pub open spec fn module_items(rs: Seq<UnitResult>) -> Seq<Seq<u64>> {
    rs.map_values(|r: UnitResult| r->Ok_0.0.module_llvm@.items)
}

/// `parts` divides `program` without overlap: no item twice in one part or
/// in two parts, and every item of the program in some part.
pub open spec fn is_partition(parts: Seq<Seq<u64>>, program: Set<u64>) -> bool {
    &&& forall|i: int| 0 <= i < parts.len() ==> #[trigger] parts[i].no_duplicates()
    &&& forall|i: int, j: int, k: int, l: int|
        0 <= i < parts.len() && 0 <= j < parts.len() && i != j && 0 <= k < parts[i].len() && 0
            <= l < parts[j].len() ==> #[trigger] parts[i][k] != #[trigger] parts[j][l]
    &&& forall|x: u64|
        program.contains(x) <==> exists|i: int, k: int|
            0 <= i < parts.len() && 0 <= k < parts[i].len() && #[trigger] parts[i][k] == x
}

/// Compiles one unit. `emitted[i]` is what the IR builder reported for the
/// unit's `i`-th item. On success the module defines exactly the unit's items,
/// in order, its context is the one fresh live context added to the ledger,
/// and the size estimate is the number of items. On the first failed item the
/// module's context is released, so the ledger is as it was.
pub fn compile_codegen_unit(contexts: &mut ContextPool, unit: &CodegenUnit, emitted: &Vec<bool>) -> (r:
    UnitResult)
    requires
        old(contexts).wf(),
        old(contexts).has_room(),
        emitted@.len() == unit.items@.len(),
        !unit.name@.contains('\0'),
    ensures
        final(contexts).wf(),
        r is Ok <==> all_emitted_before(emitted@, emitted@.len() as int),
        r is Ok ==> {
            &&& r->Ok_0.0.name@ == unit.name@
            &&& r->Ok_0.0.module_llvm@.name == unit.name@
            &&& r->Ok_0.0.module_llvm@.items == unit.items@
            &&& r->Ok_0.0.module_llvm@.data_layout == DATA_LAYOUT@
            &&& r->Ok_0.0.module_llvm@.target_triple == TARGET_TRIPLE@
            &&& r->Ok_0.1 == unit.items@.len()
            &&& !old(contexts).live().contains(context_of(r))
            &&& final(contexts).live() == old(contexts).live().insert(context_of(r))
            &&& final(contexts).room() == old(contexts).room() - 1
        },
        r is Err ==> {
            &&& exists|i: int|
                is_first_failure(emitted@, i) && r->Err_0 == (CompileError::ItemFailed {
                    item: unit.items@[i],
                })
            &&& final(contexts).live() == old(contexts).live()
            &&& final(contexts).room() == old(contexts).room() - 1
        },
{
    let ghost old_live = contexts.live();
    let mut m = LlvmMod::new(unit.name.as_str(), contexts);
    let ghost c = m@.context;
    let mut i: usize = 0;
    while i < unit.items.len()
        invariant
            i <= unit.items@.len(),
            emitted@.len() == unit.items@.len(),
            contexts.wf(),
            contexts.room() == old(contexts).room() - 1,
            !old_live.contains(c),
            old_live == old(contexts).live(),
            contexts.live() == old_live.insert(c),
            m@.context == c,
            m@.name == unit.name@,
            m@.data_layout == DATA_LAYOUT@,
            m@.target_triple == TARGET_TRIPLE@,
            m@.items == unit.items@.take(i as int),
            all_emitted_before(emitted@, i as int),
        decreases unit.items@.len() - i,
    {
        let item = unit.items[i];
        if !emitted[i] {
            m.dispose(contexts);
            assert(contexts.live() =~= old_live);
            assert(is_first_failure(emitted@, i as int));
            return Err(CompileError::ItemFailed { item });
        }
        m.define_item(item);
        assert(m@.items =~= unit.items@.take(i + 1));
        i = i + 1;
    }
    assert(m@.items =~= unit.items@);
    let size = unit.items.len() as u64;
    Ok((ModuleCodegen { name: unit.name.clone(), module_llvm: m }, size))
}

/// Compiles every unit, each independently of the others. Each result is what
/// [`compile_codegen_unit`] gives for that unit; the live contexts afterwards
/// are those of before and one fresh context per successful unit. Where every
/// unit succeeds, the modules define exactly the units' items, so units that
/// partition the program give modules that partition it.
pub fn compile_units(contexts: &mut ContextPool, units: &Vec<CodegenUnit>, emitted: &Vec<Vec<bool>>) -> (rs:
    Vec<UnitResult>)
    requires
        old(contexts).wf(),
        old(contexts).room() >= units@.len(),
        emitted@.len() == units@.len(),
        forall|i: int| 0 <= i < units@.len() ==> #[trigger] emitted@[i]@.len() == units@[i].items@.len(),
        forall|i: int| 0 <= i < units@.len() ==> !(#[trigger] units@[i]).name@.contains('\0'),
    ensures
        final(contexts).wf(),
        final(contexts).room() == old(contexts).room() - units@.len(),
        rs@.len() == units@.len(),
        final(contexts).live() == old(contexts).live().union(ok_contexts(rs@)),
        old(contexts).live().disjoint(ok_contexts(rs@)),
        forall|i: int, j: int|
            0 <= i < j < rs@.len() && rs@[i] is Ok && rs@[j] is Ok ==> context_of(#[trigger] rs@[i])
                != context_of(#[trigger] rs@[j]),
        forall|i: int|
            0 <= i < rs@.len() ==> (#[trigger] rs@[i] is Ok <==> all_emitted_before(
                emitted@[i]@,
                emitted@[i]@.len() as int,
            )),
        forall|i: int|
            0 <= i < rs@.len() && #[trigger] rs@[i] is Ok ==> {
                &&& rs@[i]->Ok_0.0.name@ == units@[i].name@
                &&& rs@[i]->Ok_0.0.module_llvm@.items == units@[i].items@
                &&& rs@[i]->Ok_0.1 == units@[i].items@.len()
            },
        forall|i: int|
            0 <= i < rs@.len() && #[trigger] rs@[i] is Err ==> exists|k: int|
                is_first_failure(emitted@[i]@, k) && rs@[i]->Err_0 == (CompileError::ItemFailed {
                    item: units@[i].items@[k],
                }),
        (forall|i: int| 0 <= i < rs@.len() ==> #[trigger] rs@[i] is Ok) ==> module_items(rs@)
            == unit_items(units@),
        (forall|i: int| 0 <= i < rs@.len() ==> #[trigger] rs@[i] is Ok) ==> forall|p: Set<u64>|
            #[trigger] is_partition(unit_items(units@), p) ==> is_partition(module_items(rs@), p),
{
    let mut rs: Vec<UnitResult> = Vec::new();
    let mut u: usize = 0;
    while u < units.len()
        invariant
            u <= units@.len(),
            rs@.len() == u,
            emitted@.len() == units@.len(),
            forall|i: int| 0 <= i < units@.len() ==> #[trigger] emitted@[i]@.len() == units@[i].items@.len(),
            forall|i: int| 0 <= i < units@.len() ==> !(#[trigger] units@[i]).name@.contains('\0'),
            contexts.wf(),
            contexts.room() == old(contexts).room() - u,
            old(contexts).room() >= units@.len(),
            contexts.live() == old(contexts).live().union(ok_contexts(rs@)),
            old(contexts).live().disjoint(ok_contexts(rs@)),
            forall|i: int, j: int|
                0 <= i < j < rs@.len() && rs@[i] is Ok && rs@[j] is Ok ==> context_of(#[trigger] rs@[i])
                    != context_of(#[trigger] rs@[j]),
            forall|i: int|
                0 <= i < rs@.len() ==> (#[trigger] rs@[i] is Ok <==> all_emitted_before(
                    emitted@[i]@,
                    emitted@[i]@.len() as int,
                )),
            forall|i: int|
                0 <= i < rs@.len() && #[trigger] rs@[i] is Ok ==> {
                    &&& rs@[i]->Ok_0.0.name@ == units@[i].name@
                    &&& rs@[i]->Ok_0.0.module_llvm@.items == units@[i].items@
                    &&& rs@[i]->Ok_0.1 == units@[i].items@.len()
                },
            forall|i: int|
                0 <= i < rs@.len() && #[trigger] rs@[i] is Err ==> exists|k: int|
                    is_first_failure(emitted@[i]@, k) && rs@[i]->Err_0 == (CompileError::ItemFailed {
                        item: units@[i].items@[k],
                    }),
        decreases units@.len() - u,
    {
        let ghost before = rs@;
        let ghost live_before = contexts.live();
        let r = compile_codegen_unit(contexts, &units[u], &emitted[u]);
        rs.push(r);
        proof {
            if rs@[u as int] is Ok {
                let c = context_of(rs@[u as int]);
                assert(ok_contexts(rs@) =~= ok_contexts(before).insert(c)) by {
                    assert forall|x: u64| ok_contexts(rs@).contains(x) implies ok_contexts(before).insert(
                        x,
                    ).contains(x) && (x == c || ok_contexts(before).contains(x)) by {
                        let i = choose|i: int| 0 <= i < rs@.len() && rs@[i] is Ok && context_of(rs@[i]) == x;
                        if i < u {
                            assert(before[i] == rs@[i]);
                        }
                    }
                    assert forall|x: u64| ok_contexts(before).contains(x) implies ok_contexts(rs@).contains(
                        x,
                    ) by {
                        let i = choose|i: int| 0 <= i < before.len() && before[i] is Ok && context_of(before[i]) == x;
                        assert(rs@[i] == before[i]);
                    }
                    assert(ok_contexts(rs@).contains(c)) by {
                        assert(rs@[u as int] is Ok && context_of(rs@[u as int]) == c);
                    }
                }
                assert(contexts.live() =~= old(contexts).live().union(ok_contexts(rs@)));
            } else {
                assert(ok_contexts(rs@) =~= ok_contexts(before)) by {
                    assert forall|x: u64| ok_contexts(rs@).contains(x) implies ok_contexts(before).contains(x) by {
                        let i = choose|i: int| 0 <= i < rs@.len() && rs@[i] is Ok && context_of(rs@[i]) == x;
                        assert(before[i] == rs@[i]);
                    }
                    assert forall|x: u64| ok_contexts(before).contains(x) implies ok_contexts(rs@).contains(
                        x,
                    ) by {
                        let i = choose|i: int| 0 <= i < before.len() && before[i] is Ok && context_of(before[i]) == x;
                        assert(rs@[i] == before[i]);
                    }
                }
            }
            assert forall|i: int, j: int|
                0 <= i < j < rs@.len() && rs@[i] is Ok && rs@[j] is Ok implies context_of(rs@[i])
                    != context_of(rs@[j]) by {
                if j == u {
                    assert(ok_contexts(before).contains(context_of(before[i])));
                    assert(live_before.contains(context_of(rs@[i])));
                } else {
                    assert(before[i] == rs@[i] && before[j] == rs@[j]);
                }
            }
        }
        u = u + 1;
    }
    proof {
        if forall|i: int| 0 <= i < rs@.len() ==> #[trigger] rs@[i] is Ok {
            assert(module_items(rs@) =~= unit_items(units@));
        }
    }
    rs
}

} // verus!
