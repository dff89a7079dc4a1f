//! Work units: the transfers, crafts and indexing jobs that clients carry
//! out, and when each of them is done.
use crate::crafting::CraftIngredient;
use crate::ids::new_uuid;
use crate::item_stack::ItemStack;
use vstd::prelude::*;

verus! {

/// Moves `quantity` items between concrete slots in a container pair.
#[derive(Debug, Clone, Copy, PartialEq, Eq)]
pub struct ItemMove {
    pub from_slot: usize,
    pub to_slot: usize,
    pub quantity: u32,
}

/// The movement of item stacks between two containers at positions of type `P`.
#[derive(Debug)]
pub struct Transfer<P> {
    pub from_container: u128,
    pub from_position: P,
    pub to_container: u128,
    pub to_position: P,
    pub moves: Vec<ItemMove>,
}

/// A move whose items a client holds in its inventory, on the way to the destination.
#[derive(Debug, Clone, Copy, PartialEq, Eq)]
pub struct StagedTransferMove {
    pub move_index: usize,
    /// Offset within the 36 player inventory slots, independent of menu size.
    pub player_slot_offset: usize,
}

/// A transfer, with the moves completed and staged so far and the contents of
/// both containers once it has run.
#[derive(Debug)]
pub struct TransferWorkUnit<P> {
    pub transfer: Transfer<P>,
    pub completed: Vec<usize>,
    pub staged: Vec<StagedTransferMove>,
    pub from_contents: Option<Vec<ItemStack>>,
    pub to_contents: Option<Vec<ItemStack>>,
}

/// Indexes the container at a position.
#[derive(Debug)]
pub struct IndexContainerWorkUnit<P> {
    pub position: P,
    pub container_id: u128,
    pub output: Option<Vec<ItemStack>>,
}

/// What a craft work unit makes.
#[derive(Debug)]
pub struct CraftRecipe {
    pub recipe_id: u128,
    pub output_item_kind: String,
    pub output_yield: u32,
    pub ingredients: Vec<CraftIngredient>,
    pub crafts: u32,
}

/// Where a craft work unit runs.
#[derive(Debug)]
pub struct CraftLocations<P> {
    pub engine: P,
    pub input_container_id: u128,
    pub input_container: P,
    pub output_container_id: u128,
    pub output_container: P,
    pub output_container_capacity: u64,
}

/// How far a craft work unit has got.
#[derive(Debug)]
pub struct CraftProgress {
    pub completed_crafts: u32,
    pub input_snapshot: Option<Vec<ItemStack>>,
    pub output_snapshot: Option<Vec<ItemStack>>,
}

/// Runs `recipe.crafts` crafts of a recipe at an engine.
#[derive(Debug)]
pub struct CraftWorkUnit<P> {
    pub recipe: CraftRecipe,
    pub locations: CraftLocations<P>,
    pub progress: CraftProgress,
}

/// The work of a work unit.
#[derive(Debug)]
pub enum WorkUnitData<P> {
    IndexContainer(IndexContainerWorkUnit<P>),
    Transfer(TransferWorkUnit<P>),
    Craft(CraftWorkUnit<P>),
}

/// A unit of work with its id.
#[derive(Debug)]
pub struct WorkUnit<P> {
    pub id: u128,
    pub data: WorkUnitData<P>,
}

impl<P> WorkUnit<P> {
    /// A work unit with a fresh random id.
    pub fn new(data: WorkUnitData<P>) -> (unit: WorkUnit<P>)
        ensures
            unit.data == data,
    {
        WorkUnit { id: new_uuid(), data }
    }
}

/// Every index below `n` occurs in `completed`.
pub open spec fn covers_moves(completed: Seq<usize>, n: int) -> bool {
    forall|i: int| 0 <= i < n ==> #[trigger] completed.contains(i as usize)
}

/// A transfer is done when nothing is staged, both snapshots are there and
/// the completed moves are exactly one of each move index.
pub open spec fn transfer_done<P>(t: TransferWorkUnit<P>) -> bool {
    &&& t.staged@.len() == 0
    &&& t.from_contents is Some
    &&& t.to_contents is Some
    &&& t.completed@.len() == t.transfer.moves@.len()
    &&& covers_moves(t.completed@, t.transfer.moves@.len() as int)
}

/// Whether a unit of work has been carried out in full.
pub trait WorkUnitDone {
    fn is_done(&self) -> bool;
}

impl<P> WorkUnitDone for TransferWorkUnit<P> {
    /// Done when nothing is staged, both snapshots are there and the completed
    /// moves are exactly one of each move index.
    fn is_done(&self) -> (done: bool)
        ensures
            done == transfer_done(*self),
    {
        if !(self.staged.len() == 0 && self.from_contents.is_some() && self.to_contents.is_some()
            && self.completed.len() == self.transfer.moves.len()) {
            return false;
        }
        let n = self.transfer.moves.len();
        let mut index: usize = 0;
        while index < n
            invariant
                index <= n,
                n == self.transfer.moves@.len(),
                forall|i: int| 0 <= i < index ==> #[trigger] self.completed@.contains(i as usize),
            decreases n - index,
        {
            let mut found = false;
            let mut j: usize = 0;
            while j < self.completed.len()
                invariant
                    j <= self.completed@.len(),
                    found ==> self.completed@.contains(index),
                    !found ==> forall|k: int| 0 <= k < j ==> self.completed@[k] != index,
                decreases self.completed.len() - j,
            {
                if self.completed[j] == index {
                    found = true;
                }
                j = j + 1;
            }
            if !found {
                assert(!self.completed@.contains(index));
                assert(!self.completed@.contains((index as int) as usize));
                assert(!covers_moves(self.completed@, n as int));
                return false;
            }
            index = index + 1;
        }
        true
    }
}

impl<P> WorkUnitDone for CraftWorkUnit<P> {
    /// Done when every planned craft has run and the output has been indexed.
    fn is_done(&self) -> (done: bool)
        ensures
            done == (self.progress.completed_crafts >= self.recipe.crafts && self.progress.output_snapshot is Some),
    {
        self.progress.completed_crafts >= self.recipe.crafts && self.progress.output_snapshot.is_some()
    }
}

impl<P> WorkUnitDone for IndexContainerWorkUnit<P> {
    /// Done once the container's contents have been read.
    fn is_done(&self) -> (done: bool)
        ensures
            done == self.output is Some,
    {
        self.output.is_some()
    }
}

} // verus!
