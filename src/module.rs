//! The module resource: one IR context and one module inside it, with the
//! ledger of live contexts that makes "disposed exactly once" checkable.

use std::collections::HashSet;
use vstd::prelude::*;

use crate::target::{DATA_LAYOUT, TARGET_TRIPLE};

verus! {

broadcast use vstd::std_specs::hash::group_hash_axioms;

/// The ledger of IR contexts: hands out fresh context handles and records
/// which of them are live (created and not yet disposed).
pub struct ContextPool {
    next_id: u64,
    live: HashSet<u64>,
}

impl ContextPool {
    /// The handles of the live contexts.
    pub closed spec fn live(&self) -> Set<u64> {
        self.live@
    }

    /// Every live handle was handed out by this pool.
    pub closed spec fn wf(&self) -> bool {
        &&& self.live@.finite()
        &&& forall|c: u64| #[trigger] self.live@.contains(c) ==> c < self.next_id
    }

    /// How many more handles can be handed out.
    pub closed spec fn room(&self) -> int {
        u64::MAX - self.next_id
    }

    /// A fresh handle can still be handed out.
    pub open spec fn has_room(&self) -> bool {
        self.room() > 0
    }

    /// A well-formed ledger holds finitely many live contexts, so
    /// [`ContextPool::live_count`] counts them.
    pub proof fn lemma_live_finite(&self)
        requires
            self.wf(),
        ensures
            self.live().finite(),
    {
    }

    /// An empty ledger.
    pub fn new() -> (r: ContextPool)
        ensures
            r.wf(),
            r.room() == u64::MAX,
            r.live() == Set::<u64>::empty(),
    {
        ContextPool { next_id: 0, live: HashSet::new() }
    }

    /// The number of live contexts.
    pub fn live_count(&self) -> (r: usize)
        requires
            self.wf(),
        ensures
            r == self.live().len(),
    {
        self.live.len()
    }

    /// Whether the context `c` is live.
    pub fn is_live(&self, c: u64) -> (r: bool)
        ensures
            r == self.live().contains(c),
    {
        self.live.contains(&c)
    }

    /// Whether a fresh handle can still be handed out.
    pub fn can_create(&self) -> (r: bool)
        ensures
            r == self.has_room(),
    {
        self.next_id < u64::MAX
    }

    /// Creates a context and records it as live.
    fn create_context(&mut self) -> (c: u64)
        requires
            old(self).wf(),
            old(self).has_room(),
        ensures
            final(self).wf(),
            final(self).room() == old(self).room() - 1,
            !old(self).live().contains(c),
            final(self).live() == old(self).live().insert(c),
    {
        let c = self.next_id;
        self.live.insert(c);
        self.next_id = self.next_id + 1;
        c
    }

    /// Disposes a live context.
    fn dispose_context(&mut self, c: u64)
        requires
            old(self).wf(),
            old(self).live().contains(c),
        ensures
            final(self).wf(),
            final(self).room() == old(self).room(),
            final(self).live() == old(self).live().remove(c),
    {
        self.live.remove(&c);
    }
}

/// The mathematical value of an [`LlvmMod`].
pub struct LlvmModView {
    pub context: u64,
    pub name: Seq<char>,
    pub data_layout: Seq<char>,
    pub target_triple: Seq<char>,
    pub items: Seq<u64>,
}

/// An IR module and the context that owns it. The value is not copyable:
/// its context is released by [`LlvmMod::dispose`], which consumes it, so it
/// is released at most once. Every function of this crate that is handed a
/// module releases its context or hands the module back, on every path; a
/// caller that drops a module without disposing it leaves its context live
/// in the ledger, since the type has no `Drop` that could reach the ledger.
pub struct LlvmMod {
    context: u64,
    name: String,
    data_layout: String,
    target_triple: String,
    items: Vec<u64>,
}

impl View for LlvmMod {
    type V = LlvmModView;

    closed spec fn view(&self) -> LlvmModView {
        LlvmModView {
            context: self.context,
            name: self.name@,
            data_layout: self.data_layout@,
            target_triple: self.target_triple@,
            items: self.items@,
        }
    }
}

/// A fresh module named `name` in the context `context`, stamped with the
/// target's data layout and triple.
pub(crate) fn create_module(context: u64, name: &str) -> (m: LlvmMod)
    requires
        !name@.contains('\0'),
    ensures
        m@ == (LlvmModView {
            context,
            name: name@,
            data_layout: DATA_LAYOUT@,
            target_triple: TARGET_TRIPLE@,
            items: Seq::empty(),
        }),
{
    LlvmMod {
        context,
        name: name.to_owned(),
        data_layout: DATA_LAYOUT.to_owned(),
        target_triple: TARGET_TRIPLE.to_owned(),
        items: Vec::new(),
    }
}

impl LlvmMod {
    /// Allocates a fresh context and an empty module in it. A module name
    /// cannot hold a NUL character.
    pub fn new(name: &str, contexts: &mut ContextPool) -> (m: LlvmMod)
        requires
            !name@.contains('\0'),
            old(contexts).wf(),
            old(contexts).has_room(),
        ensures
            final(contexts).wf(),
            final(contexts).room() == old(contexts).room() - 1,
            !old(contexts).live().contains(m@.context),
            final(contexts).live() == old(contexts).live().insert(m@.context),
            m@.name == name@,
            m@.data_layout == DATA_LAYOUT@,
            m@.target_triple == TARGET_TRIPLE@,
            m@.items == Seq::<u64>::empty(),
    {
        let context = contexts.create_context();
        create_module(context, name)
    }

    /// Releases the module's context; the module is gone with it.
    pub fn dispose(self, contexts: &mut ContextPool)
        requires
            old(contexts).wf(),
            old(contexts).live().contains(self@.context),
        ensures
            final(contexts).wf(),
            final(contexts).room() == old(contexts).room(),
            final(contexts).live() == old(contexts).live().remove(self@.context),
    {
        contexts.dispose_context(self.context);
    }

    /// Adds the definition of `item` to the module.
    pub fn define_item(&mut self, item: u64)
        ensures
            final(self)@ == (LlvmModView { items: old(self)@.items.push(item), ..old(self)@ }),
    {
        self.items.push(item);
    }

    /// The handle of the module's context.
    pub fn context(&self) -> (r: u64)
        ensures
            r == self@.context,
    {
        self.context
    }

    /// The module's name.
    pub fn name(&self) -> (r: &str)
        ensures
            r@ == self@.name,
    {
        self.name.as_str()
    }

    /// The module's data layout.
    pub fn data_layout(&self) -> (r: &str)
        ensures
            r@ == self@.data_layout,
    {
        self.data_layout.as_str()
    }

    /// The module's target triple.
    pub fn target_triple(&self) -> (r: &str)
        ensures
            r@ == self@.target_triple,
    {
        self.target_triple.as_str()
    }

    /// The items defined in the module, in order of definition.
    pub fn items(&self) -> (r: &Vec<u64>)
        ensures
            r@ == self@.items,
    {
        &self.items
    }
}

} // verus!
