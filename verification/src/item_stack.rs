//! Item stacks, containers and the stack sizes of item kinds.
use vstd::prelude::*;

verus! {

/// The JSON value type of `serde_json`, carried through as it is.
#[verifier::external_type_specification]
#[verifier::external_body]
pub struct ExJsonValue(serde_json::Value);

/// `Clone` of `serde_json::Value`, which derives it: the copy is the same
/// JSON value.
#[verifier::external_body]
pub(crate) fn clone_components(components: &serde_json::Value) -> (copy: serde_json::Value)
    ensures
        copy == *components,
{
    components.clone()
}

/// A stack of items in one slot of a container. `components` holds the
/// item's data components as JSON; `components_digest` identifies them.
#[derive(Debug)]
pub struct ItemStack {
    pub id: u128,
    pub container_id: u128,
    pub item_kind: String,
    pub slot: i32,
    pub components: serde_json::Value,
    pub quantity: i32,
    pub components_digest: String,
}

impl ItemStack {
    /// A copy of the stack.
    pub fn copy(&self) -> (copy: ItemStack)
        ensures
            copy == *self,
    {
        ItemStack {
            id: self.id,
            container_id: self.container_id,
            item_kind: self.item_kind.clone(),
            slot: self.slot,
            components: clone_components(&self.components),
            quantity: self.quantity,
            components_digest: self.components_digest.clone(),
        }
    }
}

/// A container at a position of type `P`, with the item stack in each of its
/// occupied slots. `contents` never holds two stacks for one slot.
#[derive(Debug)]
pub struct Container<P> {
    pub id: u128,
    pub region_id: u128,
    pub position: P,
    pub capacity: u64,
    pub contents: Vec<(usize, ItemStack)>,
}

/// No slot of `contents` holds two stacks.
pub open spec fn distinct_slots(contents: Seq<(usize, ItemStack)>) -> bool {
    forall|i: int, j: int| 0 <= i < j < contents.len() ==> #[trigger] contents[i].0 != #[trigger] contents[j].0
}

/// The maximum stack size of item kinds, by item identifier, as the game
/// registry gives it. Identifiers that name no item kind stack to 64.
#[derive(Debug)]
pub struct StackSizes {
    pub sizes: Vec<(String, u32)>,
}

/// The stack size that `sizes[i..]` gives an identifier.
pub open spec fn stack_size_from(sizes: Seq<(String, u32)>, item_kind: Seq<char>, i: int) -> u32
    decreases sizes.len() - i,
{
    if i < 0 || i >= sizes.len() {
        64
    } else if sizes[i].0@ == item_kind {
        sizes[i].1
    } else {
        stack_size_from(sizes, item_kind, i + 1)
    }
}

pub proof fn lemma_stack_size_from_range(sizes: Seq<(String, u32)>, item_kind: Seq<char>, i: int)
    requires
        forall|j: int| 0 <= j < sizes.len() ==> 1 <= #[trigger] sizes[j].1 <= 64,
    ensures
        1 <= stack_size_from(sizes, item_kind, i) <= 64,
    decreases sizes.len() - i,
{
    if 0 <= i < sizes.len() {
        lemma_stack_size_from_range(sizes, item_kind, i + 1);
    }
}

impl StackSizes {
    /// Every recorded stack size is one of the game's, which lie in `1..=64`.
    pub open spec fn valid(&self) -> bool {
        forall|i: int| 0 <= i < self.sizes@.len() ==> 1 <= #[trigger] self.sizes@[i].1 <= 64
    }

    /// The stack size of an identifier.
    pub open spec fn size_of(&self, item_kind: Seq<char>) -> u32 {
        stack_size_from(self.sizes@, item_kind, 0)
    }

    /// Under a valid table, every item kind stacks to between 1 and 64.
    pub proof fn lemma_size_in_range(&self, item_kind: Seq<char>)
        requires
            self.valid(),
        ensures
            1 <= self.size_of(item_kind) <= 64,
    {
        lemma_stack_size_from_range(self.sizes@, item_kind, 0);
    }

    /// The stack size of `item_kind`: its recorded size, or 64 when none is recorded.
    pub fn stack_size(&self, item_kind: &String) -> (size: u32)
        requires
            self.valid(),
        ensures
            size == self.size_of(item_kind@),
            1 <= size <= 64,
    {
        let mut i: usize = 0;
        while i < self.sizes.len()
            invariant
                i <= self.sizes@.len(),
                self.valid(),
                stack_size_from(self.sizes@, item_kind@, 0) == stack_size_from(self.sizes@, item_kind@, i as int),
            decreases self.sizes.len() - i,
        {
            if self.sizes[i].0 == *item_kind {
                return self.sizes[i].1;
            }
            i = i + 1;
        }
        64
    }
}

} // verus!
