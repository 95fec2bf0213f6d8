//! The cross-unit merge stage: modules are prepared into thin buffers (or
//! serialized into flat buffers for the incremental cache), all buffers of a
//! crate are gathered into one merge plan, and each planned module is parsed
//! back into a fresh context and finalized.

use vstd::prelude::*;

use crate::module::{ContextPool, LlvmMod};
use crate::order::{entry_le, entry_le_exec, lemma_entry_total, lemma_entry_trans, lemma_sorted_entries_unique, sorted_entries};
use crate::unit::ModuleCodegen;

verus! {

/// A module's contents in the thin form that the merge consumes, with the
/// module's summary (the items it defines) when one was asked for.
pub struct ThinBuffer {
    data: Vec<u64>,
    summary: Option<Vec<u64>>,
}

/// A module's contents in the flat form that the incremental cache keeps:
/// each item as eight little-endian bytes.
pub struct ModuleBuffer {
    data: Vec<u8>,
}

impl View for ThinBuffer {
    type V = Seq<u64>;

    closed spec fn view(&self) -> Seq<u64> {
        self.data@
    }
}

impl View for ModuleBuffer {
    type V = Seq<u8>;

    closed spec fn view(&self) -> Seq<u8> {
        self.data@
    }
}

impl ThinBuffer {
    /// The summary the buffer carries, if any.
    pub closed spec fn spec_summary(&self) -> Option<Seq<u64>> {
        match self.summary {
            Some(v) => Some(v@),
            None => None,
        }
    }

    /// The summary the buffer carries, if any.
    pub fn summary(&self) -> (r: Option<&Vec<u64>>)
        ensures
            r is Some <==> self.spec_summary() is Some,
            r is Some ==> r->Some_0@ == self.spec_summary()->Some_0,
    {
        match &self.summary {
            Some(v) => Some(v),
            None => None,
        }
    }

    /// The buffer's contents.
    pub fn data(&self) -> (r: &Vec<u64>)
        ensures
            r@ == self@,
    {
        &self.data
    }
}

impl ModuleBuffer {
    /// A buffer holding `data`, as read back from the cache.
    pub fn from_bytes(data: Vec<u8>) -> (r: ModuleBuffer)
        ensures
            r@ == data@,
    {
        ModuleBuffer { data }
    }

    /// The buffer's bytes.
    pub fn data(&self) -> (r: &Vec<u8>)
        ensures
            r@ == self@,
    {
        &self.data
    }
}

/// An incremental-cache record, passed through without being interpreted.
pub struct WorkProduct {
    pub cgu_name: String,
}

/// The merge could not use one of its inputs.
#[derive(Clone, Copy, Debug, PartialEq, Eq, Structural)]
pub struct FatalError;

/// What the merge shares between its jobs: the name and the contents of every
/// module of the crate.
pub struct ThinShared {
    names: Vec<String>,
    data: Vec<Vec<u64>>,
}

impl ThinShared {
    /// The `(name, contents)` entries, in plan order.
    pub closed spec fn entries(&self) -> Seq<(Seq<char>, Seq<u64>)> {
        entries_of(self.names@, self.data@)
    }

    pub closed spec fn wf(&self) -> bool {
        self.names@.len() == self.data@.len()
    }

    /// The number of entries.
    pub fn len(&self) -> (r: usize)
        requires
            self.wf(),
        ensures
            r == self.entries().len(),
    {
        self.names.len()
    }
}

spec fn entries_of(names: Seq<String>, data: Seq<Vec<u64>>) -> Seq<(Seq<char>, Seq<u64>)> {
    Seq::new(names.len(), |i: int| (names[i]@, data[i]@))
}

/// Puts the entries in canonical order.
fn sort_shared(shared: ThinShared) -> (r: ThinShared)
    requires
        shared.wf(),
    ensures
        r.wf(),
        sorted_entries(r.entries()),
        r.entries().len() == shared.entries().len(),
        r.entries().to_multiset() == shared.entries().to_multiset(),
{
    let ghost input = shared.entries();
    let mut names: Vec<String> = Vec::new();
    let mut data: Vec<Vec<u64>> = Vec::new();
    assert(entries_of(names@, data@) =~= input.take(0));
    let mut i: usize = 0;
    while i < shared.names.len()
        invariant
            shared.wf(),
            input == shared.entries(),
            i <= input.len(),
            names@.len() == i,
            data@.len() == i,
            sorted_entries(entries_of(names@, data@)),
            entries_of(names@, data@).to_multiset() == input.take(i as int).to_multiset(),
        decreases input.len() - i,
    {
        let name = shared.names[i].clone();
        let items = copy_items(&shared.data[i]);
        let ghost e = (name@, items@);
        assert(e == input[i as int]);
        let ghost old_entries = entries_of(names@, data@);
        let mut p: usize = 0;
        let mut found = false;
        while p < names.len() && !found
            invariant
                names@.len() == data@.len(),
                e == (name@, items@),
                old_entries == entries_of(names@, data@),
                p <= names@.len(),
                found ==> p < names@.len() && !entry_le(old_entries[p as int], e),
                forall|k: int| 0 <= k < p ==> entry_le(#[trigger] old_entries[k], e),
            decreases names@.len() - p + (if found { 0int } else { 1int }),
        {
            assert(old_entries[p as int] == (names@[p as int]@, data@[p as int]@));
            if entry_le_exec(&names[p], &data[p], &name, &items) {
                p = p + 1;
            } else {
                found = true;
            }
        }
        names.insert(p, name);
        data.insert(p, items);
        proof {
            let ne = entries_of(names@, data@);
            assert(ne =~= old_entries.insert(p as int, e));
            if p < old_entries.len() {
                lemma_entry_total(old_entries[p as int], e);
            }
            assert forall|a: int, b: int| 0 <= a < b < ne.len() implies #[trigger] entry_le(ne[a], ne[b]) by {
                if b < p {
                    assert(ne[a] == old_entries[a] && ne[b] == old_entries[b]);
                } else if b == p {
                    assert(ne[a] == old_entries[a]);
                } else if a < p {
                    assert(ne[a] == old_entries[a] && ne[b] == old_entries[b - 1]);
                } else if a == p {
                    assert(ne[b] == old_entries[b - 1]);
                    if b - 1 > p {
                        assert(entry_le(old_entries[p as int], old_entries[b - 1]));
                        lemma_entry_trans(e, old_entries[p as int], old_entries[b - 1]);
                    }
                } else {
                    assert(ne[a] == old_entries[a - 1] && ne[b] == old_entries[b - 1]);
                }
            }
            vstd::seq_lib::to_multiset_insert(old_entries, p as int, e);
            assert(input.take(i + 1) =~= input.take(i as int).push(e));
            vstd::seq_lib::to_multiset_build(input.take(i as int), e);
        }
        i = i + 1;
    }
    assert(input.take(input.len() as int) =~= input);
    ThinShared { names, data }
}

/// One job of the merge: the module at `idx` in the shared entries.
#[derive(Clone, Copy, Debug, PartialEq, Eq, Structural)]
pub struct ThinModule {
    pub idx: usize,
}

/// A merge plan: the shared entries and one job per entry.
pub struct ThinMerge {
    pub shared: ThinShared,
    pub modules: Vec<ThinModule>,
}

/// A finalized module, ready for the link stage.
pub struct CompiledModule {
    pub name: String,
    pub items: Vec<u64>,
}

/// The entry of a freshly prepared module.
pub open spec fn thin_entry(m: (String, ThinBuffer)) -> (Seq<char>, Seq<u64>) {
    (m.0@, m.1@)
}

/// The entry of a module recovered from the cache, under its record's unit name.
pub open spec fn cached_entry(c: (ModuleBuffer, WorkProduct)) -> (Seq<char>, Seq<u64>) {
    (c.1.cgu_name@, parsed_flat(c.0@)->Some_0)
}

/// The entries of a merge: the fresh modules in order, then the cached ones.
pub open spec fn merge_entries(
    fresh: Seq<(String, ThinBuffer)>,
    cached: Seq<(ModuleBuffer, WorkProduct)>,
) -> Seq<(Seq<char>, Seq<u64>)> {
    fresh.map_values(|m: (String, ThinBuffer)| thin_entry(m)) + cached.map_values(
        |c: (ModuleBuffer, WorkProduct)| cached_entry(c),
    )
}

/// Byte `j` (from the least significant) of `x`.
pub open spec fn le_byte(x: u64, j: int) -> u8 {
    ((x >> ((8 * j) as u64)) & 0xff) as u8
}

/// The word whose little-endian bytes are `b0` to `b7`.
pub open spec fn word8(b0: u8, b1: u8, b2: u8, b3: u8, b4: u8, b5: u8, b6: u8, b7: u8) -> u64 {
    (b0 as u64) | ((b1 as u64) << 8u64) | ((b2 as u64) << 16u64) | ((b3 as u64) << 24u64) | ((b4 as u64)
        << 32u64) | ((b5 as u64) << 40u64) | ((b6 as u64) << 48u64) | ((b7 as u64) << 56u64)
}

/// The `k`-th little-endian word of `b`.
pub open spec fn le_word(b: Seq<u8>, k: int) -> u64 {
    word8(b[8 * k], b[8 * k + 1], b[8 * k + 2], b[8 * k + 3], b[8 * k + 4], b[8 * k + 5], b[8 * k + 6], b[8 * k + 7])
}

/// The flat form of a module's contents: eight little-endian bytes per item.
pub open spec fn flat_form(items: Seq<u64>) -> Seq<u8> {
    Seq::new((items.len() * 8) as nat, |i: int| le_byte(items[i / 8], i % 8))
}

/// The contents that parsing a flat buffer gives: none where its length is
/// not a whole number of items.
pub open spec fn parsed_flat(data: Seq<u8>) -> Option<Seq<u64>> {
    if data.len() % 8 == 0 {
        Some(Seq::new(data.len() / 8, |k: int| le_word(data, k)))
    } else {
        None
    }
}

proof fn lemma_word_of_bytes(x: u64)
    ensures
        word8(
            le_byte(x, 0),
            le_byte(x, 1),
            le_byte(x, 2),
            le_byte(x, 3),
            le_byte(x, 4),
            le_byte(x, 5),
            le_byte(x, 6),
            le_byte(x, 7),
        ) == x,
{
    assert(((((x >> 0u64) & 0xff) as u8) as u64) | (((((x >> 8u64) & 0xff) as u8) as u64) << 8u64) | (((((x
        >> 16u64) & 0xff) as u8) as u64) << 16u64) | (((((x >> 24u64) & 0xff) as u8) as u64) << 24u64) | (((((x
        >> 32u64) & 0xff) as u8) as u64) << 32u64) | (((((x >> 40u64) & 0xff) as u8) as u64) << 40u64) | (((((x
        >> 48u64) & 0xff) as u8) as u64) << 48u64) | (((((x >> 56u64) & 0xff) as u8) as u64) << 56u64) == x)
        by (bit_vector);
}

proof fn lemma_bytes_of_word(b0: u8, b1: u8, b2: u8, b3: u8, b4: u8, b5: u8, b6: u8, b7: u8)
    ensures
        le_byte(word8(b0, b1, b2, b3, b4, b5, b6, b7), 0) == b0,
        le_byte(word8(b0, b1, b2, b3, b4, b5, b6, b7), 1) == b1,
        le_byte(word8(b0, b1, b2, b3, b4, b5, b6, b7), 2) == b2,
        le_byte(word8(b0, b1, b2, b3, b4, b5, b6, b7), 3) == b3,
        le_byte(word8(b0, b1, b2, b3, b4, b5, b6, b7), 4) == b4,
        le_byte(word8(b0, b1, b2, b3, b4, b5, b6, b7), 5) == b5,
        le_byte(word8(b0, b1, b2, b3, b4, b5, b6, b7), 6) == b6,
        le_byte(word8(b0, b1, b2, b3, b4, b5, b6, b7), 7) == b7,
{
    let w = word8(b0, b1, b2, b3, b4, b5, b6, b7);
    assert(w == (b0 as u64) | ((b1 as u64) << 8u64) | ((b2 as u64) << 16u64) | ((b3 as u64) << 24u64) | ((b4
        as u64) << 32u64) | ((b5 as u64) << 40u64) | ((b6 as u64) << 48u64) | ((b7 as u64) << 56u64));
    assert((((w >> 0u64) & 0xff) as u8) == b0 && (((w >> 8u64) & 0xff) as u8) == b1 && (((w >> 16u64) & 0xff)
        as u8) == b2 && (((w >> 24u64) & 0xff) as u8) == b3 && (((w >> 32u64) & 0xff) as u8) == b4 && (((w
        >> 40u64) & 0xff) as u8) == b5 && (((w >> 48u64) & 0xff) as u8) == b6 && (((w >> 56u64) & 0xff) as u8)
        == b7) by (bit_vector)
        requires
            w == (b0 as u64) | ((b1 as u64) << 8u64) | ((b2 as u64) << 16u64) | ((b3 as u64) << 24u64) | ((b4
                as u64) << 32u64) | ((b5 as u64) << 40u64) | ((b6 as u64) << 48u64) | ((b7 as u64) << 56u64),
    ;
}

/// Encodes items into the flat form.
fn encode_items(items: &Vec<u64>) -> (r: Vec<u8>)
    requires
        items@.len() * 8 <= usize::MAX,
    ensures
        r@ == flat_form(items@),
{
    let mut r: Vec<u8> = Vec::new();
    let mut i: usize = 0;
    while i < items.len()
        invariant
            i <= items@.len(),
            items@.len() * 8 <= usize::MAX,
            r@ =~= flat_form(items@.take(i as int)),
        decreases items@.len() - i,
    {
        let x = items[i];
        let ghost before = r@;
        assert(i * 8 + 8 <= usize::MAX) by (nonlinear_arith)
            requires
                i < items@.len(),
                items@.len() * 8 <= usize::MAX,
        ;
        r.push(((x >> 0) & 0xff) as u8);
        r.push(((x >> 8) & 0xff) as u8);
        r.push(((x >> 16) & 0xff) as u8);
        r.push(((x >> 24) & 0xff) as u8);
        r.push(((x >> 32) & 0xff) as u8);
        r.push(((x >> 40) & 0xff) as u8);
        r.push(((x >> 48) & 0xff) as u8);
        r.push(((x >> 56) & 0xff) as u8);
        proof {
            let t = items@.take(i + 1);
            let base = 8 * i;
            assert(before.len() == base);
            assert(r@[base + 0] == le_byte(x, 0));
            assert(r@[base + 1] == le_byte(x, 1));
            assert(r@[base + 2] == le_byte(x, 2));
            assert(r@[base + 3] == le_byte(x, 3));
            assert(r@[base + 4] == le_byte(x, 4));
            assert(r@[base + 5] == le_byte(x, 5));
            assert(r@[base + 6] == le_byte(x, 6));
            assert(r@[base + 7] == le_byte(x, 7));
            assert forall|k: int| 0 <= k < r@.len() implies r@[k] == #[trigger] flat_form(t)[k] by {
                if k < base {
                    assert(r@[k] == before[k]);
                    assert(items@.take(i as int)[k / 8] == t[k / 8]);
                } else {
                    assert(k / 8 == i);
                    assert(t[k / 8] == x);
                    let j = k - base;
                    assert(k % 8 == j);
                    assert(r@[base + j] == le_byte(x, j));
                }
            }
            assert(r@ =~= flat_form(t));
        }
        i = i + 1;
    }
    assert(items@.take(items@.len() as int) =~= items@);
    r
}

/// Decodes the flat form; none where the length is not a whole number of items.
fn decode_items(b: &Vec<u8>) -> (r: Option<Vec<u64>>)
    ensures
        r is None <==> parsed_flat(b@) is None,
        r is Some ==> r->Some_0@ == parsed_flat(b@)->Some_0,
{
    let len: usize = b.len();
    if len % 8 != 0 {
        return None;
    }
    let n: usize = len / 8;
    let mut r: Vec<u64> = Vec::new();
    let mut k: usize = 0;
    while k < n
        invariant
            len == b@.len(),
            n == b@.len() / 8,
            b@.len() % 8 == 0,
            k <= n,
            r@ =~= Seq::new(k as nat, |j: int| le_word(b@, j)),
        decreases n - k,
    {
        assert(8 * k + 8 <= b@.len()) by (nonlinear_arith)
            requires
                k < n,
                n == b@.len() / 8,
                b@.len() % 8 == 0,
        ;
        let i: usize = 8 * k;
        let w = (b[i] as u64) | ((b[i + 1] as u64) << 8) | ((b[i + 2] as u64) << 16) | ((b[i + 3] as u64) << 24) | ((
        b[i + 4] as u64) << 32) | ((b[i + 5] as u64) << 40) | ((b[i + 6] as u64) << 48) | ((b[i + 7] as u64)
            << 56);
        r.push(w);
        k = k + 1;
    }
    Some(r)
}

fn copy_items(v: &Vec<u64>) -> (r: Vec<u64>)
    ensures
        r@ == v@,
{
    let mut r: Vec<u64> = Vec::with_capacity(v.len());
    let mut i: usize = 0;
    while i < v.len()
        invariant
            i <= v@.len(),
            r@ =~= v@.take(i as int),
        decreases v@.len() - i,
    {
        r.push(v[i]);
        i = i + 1;
    }
    assert(r@ =~= v@);
    r
}

/// Parses `data` into a fresh module named `name`, in a fresh context.
fn parse_module(name: &str, data: &Vec<u64>, contexts: &mut ContextPool) -> (m: ModuleCodegen)
    requires
        !name@.contains('\0'),
        old(contexts).wf(),
        old(contexts).has_room(),
    ensures
        final(contexts).wf(),
        final(contexts).room() == old(contexts).room() - 1,
        !old(contexts).live().contains(m.module_llvm@.context),
        final(contexts).live() == old(contexts).live().insert(m.module_llvm@.context),
        m.name@ == name@,
        m.module_llvm@.name == name@,
        m.module_llvm@.items == data@,
{
    let mut llmod = LlvmMod::new(name, contexts);
    let ghost c = llmod@.context;
    let mut i: usize = 0;
    while i < data.len()
        invariant
            i <= data@.len(),
            llmod@.context == c,
            llmod@.name == name@,
            llmod@.items =~= data@.take(i as int),
        decreases data@.len() - i,
    {
        llmod.define_item(data[i]);
        i = i + 1;
    }
    assert(llmod@.items =~= data@);
    ModuleCodegen { name: name.to_owned(), module_llvm: llmod }
}

/// Prepares a finished module for the merge: its name and its contents in the
/// thin form, with the module's summary exactly when `want_summary` asks for
/// it. The module's context is released.
pub fn prepare_thin(module: ModuleCodegen, want_summary: bool, contexts: &mut ContextPool) -> (r: (
    String,
    ThinBuffer,
))
    requires
        old(contexts).wf(),
        old(contexts).live().contains(module.module_llvm@.context),
    ensures
        final(contexts).wf(),
        final(contexts).room() == old(contexts).room(),
        final(contexts).live() == old(contexts).live().remove(module.module_llvm@.context),
        r.0@ == module.name@,
        r.1@ == module.module_llvm@.items,
        r.1.spec_summary() == if want_summary {
            Some(module.module_llvm@.items)
        } else {
            None
        },
{
    let data = copy_items(module.module_llvm.items());
    let summary = if want_summary {
        Some(copy_items(module.module_llvm.items()))
    } else {
        None
    };
    let ModuleCodegen { name, module_llvm } = module;
    module_llvm.dispose(contexts);
    (name, ThinBuffer { data, summary })
}

/// Serializes a module into the flat form kept by the incremental cache. The
/// module's context is released.
pub fn serialize_module(module: ModuleCodegen, contexts: &mut ContextPool) -> (r: (String, ModuleBuffer))
    requires
        old(contexts).wf(),
        old(contexts).live().contains(module.module_llvm@.context),
        module.module_llvm@.items.len() * 8 <= usize::MAX,
    ensures
        final(contexts).wf(),
        final(contexts).room() == old(contexts).room(),
        final(contexts).live() == old(contexts).live().remove(module.module_llvm@.context),
        r.0@ == module.name@,
        r.1@ == flat_form(module.module_llvm@.items),
{
    let data = encode_items(module.module_llvm.items());
    let ModuleCodegen { name, module_llvm } = module;
    module_llvm.dispose(contexts);
    (name, ModuleBuffer { data })
}

/// Parses a flat buffer back into a module named `name`, in a fresh context.
/// A buffer whose length is not a whole number of items is refused, and no
/// context is created for it.
pub fn deserialize_module(name: &str, buffer: &ModuleBuffer, contexts: &mut ContextPool) -> (r: Option<
    ModuleCodegen,
>)
    requires
        !name@.contains('\0'),
        old(contexts).wf(),
        old(contexts).has_room(),
    ensures
        final(contexts).wf(),
        r is None <==> parsed_flat(buffer@) is None,
        r is None ==> *final(contexts) == *old(contexts),
        r is Some ==> {
            &&& final(contexts).room() == old(contexts).room() - 1
            &&& !old(contexts).live().contains(r->Some_0.module_llvm@.context)
            &&& final(contexts).live() == old(contexts).live().insert(r->Some_0.module_llvm@.context)
            &&& r->Some_0.name@ == name@
            &&& r->Some_0.module_llvm@.items == parsed_flat(buffer@)->Some_0
        },
{
    match decode_items(&buffer.data) {
        Some(items) => Some(parse_module(name, &items, contexts)),
        None => None,
    }
}

/// Every cached buffer parses.
pub open spec fn cached_parse(cached: Seq<(ModuleBuffer, WorkProduct)>) -> bool {
    forall|i: int| 0 <= i < cached.len() ==> parsed_flat((#[trigger] cached[i]).0@) is Some
}

/// Plans the merge of a crate: the entries are those of the fresh modules and
/// of the cached ones, parsed, under their records' unit names, put in
/// canonical order, so that the plan does not depend on the order in which
/// the inputs arrive. There is one job per entry, in plan order. No new cache
/// records come out. A cached buffer that does not parse fails the merge.
pub fn run_thin(modules: Vec<(String, ThinBuffer)>, cached_modules: Vec<(ModuleBuffer, WorkProduct)>) -> (r:
    Result<(ThinMerge, Vec<WorkProduct>), FatalError>)
    ensures
        r is Ok <==> cached_parse(cached_modules@),
        r is Ok ==> {
            &&& r->Ok_0.0.shared.wf()
            &&& sorted_entries(r->Ok_0.0.shared.entries())
            &&& r->Ok_0.0.shared.entries().to_multiset() == merge_entries(modules@, cached_modules@).to_multiset()
            &&& r->Ok_0.0.shared.entries().len() == merge_entries(modules@, cached_modules@).len()
            &&& r->Ok_0.0.modules@.len() == r->Ok_0.0.shared.entries().len()
            &&& forall|i: int| 0 <= i < r->Ok_0.0.modules@.len() ==> (#[trigger] r->Ok_0.0.modules@[i]).idx == i
            &&& r->Ok_0.1@.len() == 0
        },
{
    let ghost target = merge_entries(modules@, cached_modules@);
    let ghost n_fresh = modules@.len();
    let mut names: Vec<String> = Vec::new();
    let mut data: Vec<Vec<u64>> = Vec::new();
    let mut i: usize = 0;
    while i < modules.len()
        invariant
            i <= modules@.len(),
            n_fresh == modules@.len(),
            target == merge_entries(modules@, cached_modules@),
            names@.len() == i,
            data@.len() == i,
            forall|j: int| 0 <= j < i ==> (#[trigger] names@[j])@ == target[j].0 && data@[j]@ == target[j].1,
        decreases modules@.len() - i,
    {
        names.push(modules[i].0.clone());
        data.push(copy_items(&modules[i].1.data));
        proof {
            let fresh_entries = modules@.map_values(|m: (String, ThinBuffer)| thin_entry(m));
            assert(target[i as int] == fresh_entries[i as int]);
            assert(fresh_entries[i as int] == thin_entry(modules@[i as int]));
        }
        i = i + 1;
    }
    assert(i == n_fresh);
    assert(forall|j: int|
        0 <= j < n_fresh + 0 ==> (#[trigger] names@[j])@ == target[j].0 && data@[j]@ == target[j].1);
    let mut k: usize = 0;
    while k < cached_modules.len()
        invariant
            k <= cached_modules@.len(),
            n_fresh == modules@.len(),
            target == merge_entries(modules@, cached_modules@),
            names@.len() == n_fresh + k,
            data@.len() == n_fresh + k,
            forall|j: int| 0 <= j < k ==> parsed_flat((#[trigger] cached_modules@[j]).0@) is Some,
            forall|j: int|
                0 <= j < n_fresh + k ==> (#[trigger] names@[j])@ == target[j].0 && data@[j]@ == target[j].1,
        decreases cached_modules@.len() - k,
    {
        match decode_items(&cached_modules[k].0.data) {
            Some(items) => {
                names.push(cached_modules[k].1.cgu_name.clone());
                data.push(items);
                proof {
                    let cached_entries = cached_modules@.map_values(
                        |c: (ModuleBuffer, WorkProduct)| cached_entry(c),
                    );
                    assert(target[n_fresh + k] == cached_entries[k as int]);
                    assert(cached_entries[k as int] == cached_entry(cached_modules@[k as int]));
                }
            },
            None => {
                return Err(FatalError);
            },
        }
        k = k + 1;
    }
    let unsorted = ThinShared { names, data };
    assert(unsorted.entries() =~= target);
    let shared = sort_shared(unsorted);
    let mut jobs: Vec<ThinModule> = Vec::new();
    let mut j: usize = 0;
    while j < shared.names.len()
        invariant
            j <= shared.names@.len(),
            jobs@.len() == j,
            forall|x: int| 0 <= x < j ==> (#[trigger] jobs@[x]).idx == x,
        decreases shared.names@.len() - j,
    {
        jobs.push(ThinModule { idx: j });
        j = j + 1;
    }
    Ok((ThinMerge { shared, modules: jobs }, Vec::new()))
}

/// Runs one merge job: parses the entry at the job's index into a fresh
/// module in a fresh context, under the entry's name.
pub fn optimize_thin(shared: &ThinShared, thin_module: ThinModule, contexts: &mut ContextPool) -> (m:
    ModuleCodegen)
    requires
        shared.wf(),
        thin_module.idx < shared.entries().len(),
        !shared.entries()[thin_module.idx as int].0.contains('\0'),
        old(contexts).wf(),
        old(contexts).has_room(),
    ensures
        final(contexts).wf(),
        final(contexts).room() == old(contexts).room() - 1,
        !old(contexts).live().contains(m.module_llvm@.context),
        final(contexts).live() == old(contexts).live().insert(m.module_llvm@.context),
        m.name@ == shared.entries()[thin_module.idx as int].0,
        m.module_llvm@.items == shared.entries()[thin_module.idx as int].1,
{
    parse_module(shared.names[thin_module.idx].as_str(), &shared.data[thin_module.idx], contexts)
}

/// Finalizes a merged module: its name and definitions become a compiled
/// module, and its context is released.
pub fn codegen(module: ModuleCodegen, contexts: &mut ContextPool) -> (r: CompiledModule)
    requires
        old(contexts).wf(),
        old(contexts).live().contains(module.module_llvm@.context),
    ensures
        final(contexts).wf(),
        final(contexts).room() == old(contexts).room(),
        final(contexts).live() == old(contexts).live().remove(module.module_llvm@.context),
        r.name@ == module.name@,
        r.items@ == module.module_llvm@.items,
{
    let items = copy_items(module.module_llvm.items());
    let ModuleCodegen { name, module_llvm } = module;
    module_llvm.dispose(contexts);
    CompiledModule { name, items }
}

/// Serializing contents and parsing the bytes gives the contents back.
pub proof fn lemma_flat_parse_serialized(items: Seq<u64>)
    ensures
        parsed_flat(flat_form(items)) == Some(items),
{
    let b = flat_form(items);
    assert(b.len() == items.len() * 8);
    assert(b.len() / 8 == items.len());
    let p = Seq::new(b.len() / 8, |k: int| le_word(b, k));
    assert forall|k: int| 0 <= k < items.len() implies #[trigger] p[k] == items[k] by {
        lemma_word_of_bytes(items[k]);
        assert forall|j: int| 0 <= j < 8 implies #[trigger] b[8 * k + j] == le_byte(items[k], j) by {
            assert((8 * k + j) / 8 == k);
            assert((8 * k + j) % 8 == j);
        }
        assert(b[8 * k + 0] == b[8 * k]);
    }
    assert(p =~= items);
}

/// A flat buffer that parses, serialized again from what it parsed to, is
/// byte for byte the same buffer.
pub proof fn lemma_flat_round_trip(data: Seq<u8>)
    requires
        parsed_flat(data) is Some,
    ensures
        flat_form(parsed_flat(data)->Some_0) == data,
{
    let items = parsed_flat(data)->Some_0;
    let b = flat_form(items);
    assert(items.len() == data.len() / 8);
    assert(b.len() == data.len());
    assert forall|i: int| 0 <= i < data.len() implies #[trigger] b[i] == data[i] by {
        let k = i / 8;
        let j = i % 8;
        assert(i == 8 * k + j);
        assert(0 <= k < items.len());
        assert(items[k] == le_word(data, k));
        lemma_bytes_of_word(
            data[8 * k],
            data[8 * k + 1],
            data[8 * k + 2],
            data[8 * k + 3],
            data[8 * k + 4],
            data[8 * k + 5],
            data[8 * k + 6],
            data[8 * k + 7],
        );
        assert(b[i] == le_byte(items[k], j));
        if j == 0 {
        } else if j == 1 {
        } else if j == 2 {
        } else if j == 3 {
        } else if j == 4 {
        } else if j == 5 {
        } else if j == 6 {
        } else {
            assert(j == 7);
        }
    }
    assert(b =~= data);
}

/// The merge does not depend on the order in which the units arrive: inputs
/// holding the same entries, in any order, give plans whose entries are the
/// same sequence.
pub proof fn lemma_merge_order_independent(
    fresh_a: Seq<(String, ThinBuffer)>,
    cached_a: Seq<(ModuleBuffer, WorkProduct)>,
    fresh_b: Seq<(String, ThinBuffer)>,
    cached_b: Seq<(ModuleBuffer, WorkProduct)>,
    plan_a: Seq<(Seq<char>, Seq<u64>)>,
    plan_b: Seq<(Seq<char>, Seq<u64>)>,
)
    requires
        fresh_a.map_values(|m: (String, ThinBuffer)| thin_entry(m)).to_multiset() == fresh_b.map_values(
            |m: (String, ThinBuffer)| thin_entry(m),
        ).to_multiset(),
        cached_a.map_values(|c: (ModuleBuffer, WorkProduct)| cached_entry(c)).to_multiset()
            == cached_b.map_values(|c: (ModuleBuffer, WorkProduct)| cached_entry(c)).to_multiset(),
        sorted_entries(plan_a),
        plan_a.to_multiset() == merge_entries(fresh_a, cached_a).to_multiset(),
        sorted_entries(plan_b),
        plan_b.to_multiset() == merge_entries(fresh_b, cached_b).to_multiset(),
    ensures
        plan_a == plan_b,
{
    vstd::seq_lib::lemma_multiset_commutative(
        fresh_a.map_values(|m: (String, ThinBuffer)| thin_entry(m)),
        cached_a.map_values(|c: (ModuleBuffer, WorkProduct)| cached_entry(c)),
    );
    vstd::seq_lib::lemma_multiset_commutative(
        fresh_b.map_values(|m: (String, ThinBuffer)| thin_entry(m)),
        cached_b.map_values(|c: (ModuleBuffer, WorkProduct)| cached_entry(c)),
    );
    lemma_sorted_entries_unique(plan_a, plan_b);
}

} // verus!
