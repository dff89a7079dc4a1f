//! Durable craft jobs: the states of their nodes and operations, the nodes
//! that are ready to stage, and the decisions taken as transfers progress.
use crate::capacity::ContainerCapacity;
use crate::crafting::{CraftIngredient, CraftSelection, CraftingEngineType};
use crate::ids::{uuid_text, uuid_to_string};
use crate::item_stack::{distinct_slots, Container, StackSizes};
use crate::staging::{
    build_staging_work_units, capacity_accepts, staged_craft_fits, staged_craft_fits_spec, staging_outcome,
    ItemKindStackRow, NewCraftTransferOperation, PassOutcome, StagingError, StagingRequirement,
};
use crate::execution::{copy_ingredients, ingredient_models};
use crate::work::{transfer_done, CraftLocations, CraftProgress, CraftRecipe, CraftWorkUnit, WorkUnit, WorkUnitData, WorkUnitDone};
use vstd::prelude::*;

verus! {

/// What a stored craft node does.
#[derive(Debug, Clone, Copy, PartialEq, Eq)]
pub enum CraftNodeKind {
    Recipe,
    Storage,
    Any,
}

impl CraftNodeKind {
    /// The name under which it is stored.
    pub open spec fn name(self) -> Seq<char> {
        match self {
            CraftNodeKind::Recipe => "recipe"@,
            CraftNodeKind::Storage => "storage"@,
            CraftNodeKind::Any => "any"@,
        }
    }

    /// The kind's stored name.
    pub fn as_str(self) -> (name: &'static str)
        ensures
            name@ == self.name(),
    {
        match self {
            CraftNodeKind::Recipe => "recipe",
            CraftNodeKind::Storage => "storage",
            CraftNodeKind::Any => "any",
        }
    }
}

/// Where a stored craft node is in its life.
#[derive(Debug, Clone, Copy, PartialEq, Eq)]
pub enum CraftNodeState {
    Pending,
    Blocked,
    Staging,
    Queued,
    Running,
    Completed,
    RetryWait,
    Failed,
    Cancelled,
}

impl CraftNodeState {
    /// The name under which it is stored.
    pub open spec fn name(self) -> Seq<char> {
        match self {
            CraftNodeState::Pending => "pending"@,
            CraftNodeState::Blocked => "blocked"@,
            CraftNodeState::Staging => "staging"@,
            CraftNodeState::Queued => "queued"@,
            CraftNodeState::Running => "running"@,
            CraftNodeState::Completed => "completed"@,
            CraftNodeState::RetryWait => "retry_wait"@,
            CraftNodeState::Failed => "failed"@,
            CraftNodeState::Cancelled => "cancelled"@,
        }
    }

    /// The state's stored name.
    pub fn as_str(self) -> (name: &'static str)
        ensures
            name@ == self.name(),
    {
        match self {
            CraftNodeState::Pending => "pending",
            CraftNodeState::Blocked => "blocked",
            CraftNodeState::Staging => "staging",
            CraftNodeState::Queued => "queued",
            CraftNodeState::Running => "running",
            CraftNodeState::Completed => "completed",
            CraftNodeState::RetryWait => "retry_wait",
            CraftNodeState::Failed => "failed",
            CraftNodeState::Cancelled => "cancelled",
        }
    }
}

/// What an operation of a craft node does.
#[derive(Debug, Clone, Copy, PartialEq, Eq, Structural)]
pub enum CraftOperationKind {
    StageTransfer,
    DependencyTransfer,
    Craft,
    CleanupTransfer,
}

impl CraftOperationKind {
    /// The name under which it is stored.
    pub open spec fn name(self) -> Seq<char> {
        match self {
            CraftOperationKind::StageTransfer => "stage_transfer"@,
            CraftOperationKind::DependencyTransfer => "dependency_transfer"@,
            CraftOperationKind::Craft => "craft"@,
            CraftOperationKind::CleanupTransfer => "cleanup_transfer"@,
        }
    }

    /// The kind's stored name.
    pub fn as_str(self) -> (name: &'static str)
        ensures
            name@ == self.name(),
    {
        match self {
            CraftOperationKind::StageTransfer => "stage_transfer",
            CraftOperationKind::DependencyTransfer => "dependency_transfer",
            CraftOperationKind::Craft => "craft",
            CraftOperationKind::CleanupTransfer => "cleanup_transfer",
        }
    }

    /// The priority at which an operation of this kind is queued: cleanup
    /// first, then staging, then crafting.
    pub fn dispatch_priority(self) -> (priority: usize)
        ensures
            priority == match self {
                CraftOperationKind::CleanupTransfer => 30usize,
                CraftOperationKind::StageTransfer | CraftOperationKind::DependencyTransfer => 20usize,
                CraftOperationKind::Craft => 10usize,
            },
    {
        match self {
            CraftOperationKind::CleanupTransfer => 30,
            CraftOperationKind::StageTransfer | CraftOperationKind::DependencyTransfer => 20,
            CraftOperationKind::Craft => 10,
        }
    }
}

/// Where an operation of a craft node is in its life.
#[derive(Debug, Clone, Copy, PartialEq, Eq)]
pub enum CraftOperationState {
    Queued,
    Claimed,
    Running,
    Completed,
    Failed,
    Cancelled,
    Interrupted,
}

impl CraftOperationState {
    /// The name under which it is stored.
    pub open spec fn name(self) -> Seq<char> {
        match self {
            CraftOperationState::Queued => "queued"@,
            CraftOperationState::Claimed => "claimed"@,
            CraftOperationState::Running => "running"@,
            CraftOperationState::Completed => "completed"@,
            CraftOperationState::Failed => "failed"@,
            CraftOperationState::Cancelled => "cancelled"@,
            CraftOperationState::Interrupted => "interrupted"@,
        }
    }

    /// The state's stored name.
    pub fn as_str(self) -> (name: &'static str)
        ensures
            name@ == self.name(),
    {
        match self {
            CraftOperationState::Queued => "queued",
            CraftOperationState::Claimed => "claimed",
            CraftOperationState::Running => "running",
            CraftOperationState::Completed => "completed",
            CraftOperationState::Failed => "failed",
            CraftOperationState::Cancelled => "cancelled",
            CraftOperationState::Interrupted => "interrupted",
        }
    }
}

/// The identity and target of a stored craft node.
#[derive(Debug)]
pub struct CraftNodeSpec {
    pub id: u128,
    pub key: String,
    pub item_kind: String,
    pub required_quantity: u32,
}

/// The recipe a craft node runs, as it was when the job was queued.
#[derive(Debug)]
pub struct CraftRecipeSnapshot {
    pub recipe_id: u128,
    pub engine_type: CraftingEngineType,
    pub ingredients: Vec<CraftIngredient>,
    pub planned_crafts: u32,
    pub output_yield: u32,
}

/// A recipe node whose inputs are available, ready to be staged.
#[derive(Debug)]
pub struct ReadyCraftNode {
    pub spec: CraftNodeSpec,
    pub job_id: u128,
    pub recipe: CraftRecipeSnapshot,
    pub completed_crafts: u32,
    pub assigned_region_id: Option<u128>,
}

/// A ready node row as the database gives it, with its recipe's ingredients
/// already read from their JSON form (or the text of why they do not parse).
#[derive(Debug)]
pub struct ReadyCraftNodeRow {
    pub id: u128,
    pub job_id: u128,
    pub key: String,
    pub item_kind: String,
    pub required_quantity: i32,
    pub recipe_id: u128,
    pub engine_type: CraftingEngineType,
    pub recipe_ingredients: Result<Vec<CraftIngredient>, String>,
    pub planned_crafts: i32,
    pub output_yield: i32,
    pub completed_crafts: i32,
    pub assigned_region_id: Option<u128>,
}

/// The first problem of a ready node row: a negative required quantity,
/// ingredients that do not parse, or a negative planned crafts, output
/// yield or completed crafts, in that order.
pub open spec fn ready_row_problem(row: ReadyCraftNodeRow) -> Option<Seq<char>> {
    if row.required_quantity < 0 {
        Some("craft node quantity cannot be negative"@)
    } else if row.recipe_ingredients is Err {
        Some(row.recipe_ingredients->Err_0@)
    } else if row.planned_crafts < 0 {
        Some("planned crafts cannot be negative"@)
    } else if row.output_yield < 0 {
        Some("output yield cannot be negative"@)
    } else if row.completed_crafts < 0 {
        Some("completed crafts cannot be negative"@)
    } else {
        None
    }
}

impl ReadyCraftNode {
    /// Reads a ready node row; fails with the text of its first problem
    /// (see [`ready_row_problem`]).
    pub fn try_from_row(row: ReadyCraftNodeRow) -> (result: Result<ReadyCraftNode, String>)
        ensures
            match result {
                Err(message) => ready_row_problem(row) == Some(message@),
                Ok(node) => {
                    &&& ready_row_problem(row) is None
                    &&& node.spec.id == row.id
                    &&& node.spec.key == row.key
                    &&& node.spec.item_kind == row.item_kind
                    &&& node.spec.required_quantity as i32 == row.required_quantity
                    &&& node.job_id == row.job_id
                    &&& node.recipe.recipe_id == row.recipe_id
                    &&& node.recipe.engine_type == row.engine_type
                    &&& row.recipe_ingredients == Ok::<Vec<CraftIngredient>, String>(node.recipe.ingredients)
                    &&& node.recipe.planned_crafts as i32 == row.planned_crafts
                    &&& node.recipe.output_yield as i32 == row.output_yield
                    &&& node.completed_crafts as i32 == row.completed_crafts
                    &&& node.assigned_region_id == row.assigned_region_id
                },
            },
    {
        if row.required_quantity < 0 {
            return Err(String::from_str("craft node quantity cannot be negative"));
        }
        let ingredients = match row.recipe_ingredients {
            Ok(ingredients) => ingredients,
            Err(message) => {
                return Err(message);
            },
        };
        if row.planned_crafts < 0 {
            return Err(String::from_str("planned crafts cannot be negative"));
        }
        if row.output_yield < 0 {
            return Err(String::from_str("output yield cannot be negative"));
        }
        if row.completed_crafts < 0 {
            return Err(String::from_str("completed crafts cannot be negative"));
        }
        Ok(ReadyCraftNode {
            spec: CraftNodeSpec {
                id: row.id,
                key: row.key,
                item_kind: row.item_kind,
                required_quantity: row.required_quantity as u32,
            },
            job_id: row.job_id,
            recipe: CraftRecipeSnapshot {
                recipe_id: row.recipe_id,
                engine_type: row.engine_type,
                ingredients,
                planned_crafts: row.planned_crafts as u32,
                output_yield: row.output_yield as u32,
            },
            completed_crafts: row.completed_crafts as u32,
            assigned_region_id: row.assigned_region_id,
        })
    }
}

/// Where a craft job is in its life.
#[derive(Debug, Clone, Copy, PartialEq, Eq, Structural)]
pub enum CraftJobState {
    Queued,
    Waiting,
    Running,
    Completed,
    Failed,
}

/// A craft job as it is shown: its target, selections, state and progress.
#[derive(Debug)]
pub struct CraftJobStatus {
    pub id: String,
    pub target_item_kind: String,
    pub target_quantity: u32,
    pub selections: Vec<(String, CraftSelection)>,
    pub state: CraftJobState,
    pub completed_quantity: u32,
    pub error: Option<String>,
}

/// A craft job row as the database gives it, with its selections already
/// read from their JSON form (or the text of why they do not parse).
#[derive(Debug)]
pub struct CraftJobRow {
    pub id: u128,
    pub target_item_kind: String,
    pub target_quantity: i32,
    pub selections: Result<Vec<(String, CraftSelection)>, String>,
    pub state: CraftJobState,
    pub completed_quantity: i32,
    pub error: Option<String>,
}

/// The first problem of a craft job row: a negative target quantity,
/// selections that do not parse, or a negative completed quantity.
pub open spec fn job_row_problem(row: CraftJobRow) -> Option<Seq<char>> {
    if row.target_quantity < 0 {
        Some("craft target quantity cannot be negative"@)
    } else if row.selections is Err {
        Some(row.selections->Err_0@)
    } else if row.completed_quantity < 0 {
        Some("completed quantity cannot be negative"@)
    } else {
        None
    }
}

/// The status of a stored craft job; fails with the text of its row's first
/// problem (see [`job_row_problem`]). The id is shown in its hyphenated form.
pub fn craft_job_status(row: CraftJobRow) -> (result: Result<CraftJobStatus, String>)
    ensures
        match result {
            Err(message) => job_row_problem(row) == Some(message@),
            Ok(status) => {
                &&& job_row_problem(row) is None
                &&& status.id@ == uuid_text(row.id)
                &&& status.target_item_kind == row.target_item_kind
                &&& status.target_quantity as i32 == row.target_quantity
                &&& row.selections == Ok::<Vec<(String, CraftSelection)>, String>(status.selections)
                &&& status.state == row.state
                &&& status.completed_quantity as i32 == row.completed_quantity
                &&& status.error == row.error
            },
        },
{
    if row.target_quantity < 0 {
        return Err(String::from_str("craft target quantity cannot be negative"));
    }
    let selections = match row.selections {
        Ok(selections) => selections,
        Err(message) => {
            return Err(message);
        },
    };
    if row.completed_quantity < 0 {
        return Err(String::from_str("completed quantity cannot be negative"));
    }
    Ok(CraftJobStatus {
        id: uuid_to_string(row.id),
        target_item_kind: row.target_item_kind,
        target_quantity: row.target_quantity as u32,
        selections,
        state: row.state,
        completed_quantity: row.completed_quantity as u32,
        error: row.error,
    })
}

/// A node whose processing region is to be cleared.
#[derive(Debug)]
pub struct CleanupCraftNode {
    pub id: u128,
    pub assigned_region_id: u128,
}

/// A stored operation of a craft node.
#[derive(Debug)]
pub struct CraftJobOperationRecord {
    pub kind: CraftOperationKind,
    pub state: CraftOperationState,
    pub completed_amount: i32,
    pub error: Option<String>,
}

/// An operation whose work unit can be handed to clients.
#[derive(Debug)]
pub struct DispatchableCraftOperation<P> {
    pub kind: CraftOperationKind,
    pub work_unit: WorkUnit<P>,
}

/// Plans the staging of a ready craft node into its processing container:
/// the staging transfers (see [`build_staging_work_units`]), kept only when
/// the ingredients of the crafts still to run are then all in the container
/// and their output fits it (see [`staged_craft_fits_spec`]). `None` means
/// the node waits and its region is released.
pub fn plan_craft_staging<P: Copy>(
    node: &ReadyCraftNode,
    requirements: &Vec<StagingRequirement>,
    stacks: &Vec<(String, crate::staging::StagingSource, ItemKindStackRow<P>)>,
    destination: &Container<P>,
    sizes: &StackSizes,
) -> (result: Result<Option<Vec<NewCraftTransferOperation<P>>>, StagingError>)
    requires
        distinct_slots(destination.contents@),
        sizes.valid(),
        forall|i: int| 0 <= i < destination.contents@.len() ==> #[trigger] destination.contents@[i].0 < usize::MAX,
    ensures
        capacity_accepts(*destination) ==> match staging_outcome(requirements@, stacks@, *destination, *sizes) {
            PassOutcome::Planned { capacity, .. } => {
                let fits = staged_craft_fits_spec(capacity, node.recipe.ingredients@, node.recipe.planned_crafts,
                    node.completed_crafts, node.spec.item_kind@, node.recipe.output_yield, *sizes);
                &&& fits ==> result is Ok && result->Ok_0 is Some
                &&& !fits ==> result matches Ok(None)
            },
            PassOutcome::NoRoom => result matches Ok(None),
            PassOutcome::BadSlot => result matches Err(StagingError::NegativeSlot),
        },
        !capacity_accepts(*destination) ==> result matches Err(StagingError::Capacity(_)),
{
    match build_staging_work_units(requirements, stacks, destination, sizes) {
        Err(e) => Err(e),
        Ok(None) => Ok(None),
        Ok(Some((operations, capacity))) => {
            let mut capacity = capacity;
            if staged_craft_fits(&mut capacity, &node.recipe.ingredients, node.recipe.planned_crafts,
                node.completed_crafts, &node.spec.item_kind, node.recipe.output_yield, sizes) {
                Ok(Some(operations))
            } else {
                Ok(None)
            }
        },
    }
}

/// What a transfer's progress is recorded as: how many of its moves are
/// completed, and whether it is done. `None` for other work, and for a count
/// that does not fit the record.
pub fn transfer_progress<P>(work_unit: &WorkUnit<P>) -> (progress: Option<(i32, bool)>)
    ensures
        match work_unit.data {
            WorkUnitData::Transfer(t) => if t.completed@.len() <= i32::MAX {
                progress == Some((t.completed@.len() as i32, transfer_done(t)))
            } else {
                progress is None
            },
            _ => progress is None,
        },
{
    match &work_unit.data {
        WorkUnitData::Transfer(t) => {
            if t.completed.len() > i32::MAX as usize {
                return None;
            }
            let done = t.is_done();
            Some((t.completed.len() as i32, done))
        },
        _ => None,
    }
}

/// What follows a transfer's recorded progress for the craft node it belongs to.
#[derive(Debug, Clone, Copy, PartialEq, Eq)]
pub enum ProgressFollowUp {
    /// Nothing more.
    Nothing,
    /// A finished cleanup: release the node's region once all its cleanup is done.
    CheckCleaned,
    /// A finished staging transfer: queue the node once all its staging is done.
    CheckStaged,
}

/// The follow-up for a transfer operation of `kind` that is done or not.
pub fn progress_follow_up(done: bool, kind: CraftOperationKind) -> (follow_up: ProgressFollowUp)
    ensures
        follow_up == if done && kind == CraftOperationKind::CleanupTransfer {
            ProgressFollowUp::CheckCleaned
        } else if done {
            ProgressFollowUp::CheckStaged
        } else {
            ProgressFollowUp::Nothing
        },
{
    if done && kind == CraftOperationKind::CleanupTransfer {
        ProgressFollowUp::CheckCleaned
    } else if done {
        ProgressFollowUp::CheckStaged
    } else {
        ProgressFollowUp::Nothing
    }
}

/// The state of a node after one of its staging transfers finished: queued
/// once all its staging is done, else still staging.
pub fn staged_node_state(all_staged: bool) -> (state: CraftNodeState)
    ensures
        state == if all_staged { CraftNodeState::Queued } else { CraftNodeState::Staging },
{
    if all_staged {
        CraftNodeState::Queued
    } else {
        CraftNodeState::Staging
    }
}

/// The crafting region leased to a node: its engine and its processing container.
#[derive(Debug)]
pub struct CraftingRegionAssignment<P> {
    pub engine_id: u128,
    pub region_id: u128,
    pub engine_position: P,
    pub container_id: u128,
    pub container_position: P,
    pub container_capacity: i32,
    pub inherited_from: Option<u128>,
}

/// The craft work unit that runs a ready node's remaining crafts in its
/// leased region: the node's recipe snapshot, the region's engine, and its
/// processing container as input and output. Fails when the container's
/// capacity is negative.
pub fn dispatch_work_unit<P: Copy>(node: &ReadyCraftNode, assignment: &CraftingRegionAssignment<P>)
    -> (result: Result<CraftWorkUnit<P>, crate::craft_run::CraftRunError>)
    ensures
        assignment.container_capacity < 0 <==> result is Err,
        result is Err ==> result matches Err(crate::craft_run::CraftRunError::NegativeCapacity),
        result matches Ok(unit) ==> {
            &&& unit.recipe.recipe_id == node.recipe.recipe_id
            &&& unit.recipe.output_item_kind@ == node.spec.item_kind@
            &&& unit.recipe.output_yield == node.recipe.output_yield
            &&& ingredient_models(unit.recipe.ingredients@) == ingredient_models(node.recipe.ingredients@)
            &&& unit.recipe.crafts == node.recipe.planned_crafts
            &&& unit.locations == (CraftLocations {
                engine: assignment.engine_position,
                input_container_id: assignment.container_id,
                input_container: assignment.container_position,
                output_container_id: assignment.container_id,
                output_container: assignment.container_position,
                output_container_capacity: assignment.container_capacity as u64,
            })
            &&& unit.progress.completed_crafts == node.completed_crafts
            &&& unit.progress.input_snapshot is None
            &&& unit.progress.output_snapshot is None
        },
{
    if assignment.container_capacity < 0 {
        return Err(crate::craft_run::CraftRunError::NegativeCapacity);
    }
    Ok(CraftWorkUnit {
        recipe: CraftRecipe {
            recipe_id: node.recipe.recipe_id,
            output_item_kind: node.spec.item_kind.clone(),
            output_yield: node.recipe.output_yield,
            ingredients: copy_ingredients(&node.recipe.ingredients),
            crafts: node.recipe.planned_crafts,
        },
        locations: CraftLocations {
            engine: assignment.engine_position,
            input_container_id: assignment.container_id,
            input_container: assignment.container_position,
            output_container_id: assignment.container_id,
            output_container: assignment.container_position,
            output_container_capacity: assignment.container_capacity as u64,
        },
        progress: CraftProgress { completed_crafts: node.completed_crafts, input_snapshot: None, output_snapshot: None },
    })
}

} // verus!
