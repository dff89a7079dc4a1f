//! Planning the transfers that stage a craft's materials into its processing
//! container, and that clear the container into bulk storage afterwards.
use crate::capacity::{
    consume_pass, has_negative_quantity, min_u32, StackModel, spec_allocate, spec_capacity_of, CapacityError, CapacityModel, ContainerCapacity,
};
use crate::grouping::{add_move, group_heads, groups_match, groups_of, moves_for, Emission, GroupKey};
use crate::crafting::{saturating_mul, saturating_mul_u32, CraftIngredient};
use crate::item_stack::{clone_components, distinct_slots, Container, StackSizes};
use crate::work::{ItemMove, Transfer, TransferWorkUnit, WorkUnit, WorkUnitData};
use vstd::prelude::*;

verus! {

/// Where staged materials come from: storage, or the output of an earlier craft node.
#[derive(Debug, Clone, Copy, PartialEq, Eq, Structural)]
pub enum StagingSource {
    Storage,
    Dependency(u128),
}

/// `quantity` items of `item_kind` that a craft needs from `source`.
#[derive(Debug)]
pub struct StagingRequirement {
    pub item_kind: String,
    pub quantity: u32,
    pub source: StagingSource,
}

/// A stack of an item kind in storage, with where it is.
#[derive(Debug)]
pub struct ItemKindStackRow<P> {
    pub stack_id: u128,
    pub container_id: u128,
    pub region_id: u128,
    pub region_type: String,
    pub position: P,
    pub slot: i32,
    pub quantity: i32,
    pub components: serde_json::Value,
    pub components_digest: String,
}

/// The role of a transfer registered for a craft node.
#[derive(Debug, Clone, Copy, PartialEq, Eq)]
pub enum NewCraftTransferKind {
    Stage,
    Dependency { source_node_id: u128 },
    Cleanup,
}

/// A transfer work unit to register for a craft node.
#[derive(Debug)]
pub struct NewCraftTransferOperation<P> {
    pub work_unit: WorkUnit<P>,
    pub kind: NewCraftTransferKind,
}

/// Why staging or cleanup could not be planned at all.
#[derive(Debug, PartialEq, Eq)]
pub enum StagingError {
    Capacity(CapacityError),
    NegativeQuantity,
    NegativeSlot,
}

/// Transfers are grouped by source and container: storage sources come
/// first, dependency sources by node id, then containers by id.
#[derive(Debug, Clone, Copy, PartialEq, Eq, Structural)]
pub struct SourceKey {
    pub source: StagingSource,
    pub container: u128,
}

pub open spec fn source_lt(a: StagingSource, b: StagingSource) -> bool {
    match (a, b) {
        (StagingSource::Storage, StagingSource::Dependency(_)) => true,
        (StagingSource::Dependency(x), StagingSource::Dependency(y)) => x < y,
        _ => false,
    }
}

impl GroupKey for SourceKey {
    open spec fn precedes(self, other: Self) -> bool {
        source_lt(self.source, other.source) || (self.source == other.source && self.container < other.container)
    }

    fn less(&self, other: &Self) -> (less: bool) {
        let first = match (self.source, other.source) {
            (StagingSource::Storage, StagingSource::Dependency(_)) => true,
            (StagingSource::Dependency(x), StagingSource::Dependency(y)) => x < y,
            _ => false,
        };
        first || (self.source == other.source && self.container < other.container)
    }

    fn same(&self, other: &Self) -> (same: bool) {
        self.source == other.source && self.container == other.container
    }
}

/// Moves for a list of placements of the stack at `from_slot`.
pub open spec fn placement_moves<K, P>(placements: Seq<(usize, u32)>, key: K, position: P, from_slot: usize) -> Seq<Emission<K, P>> {
    placements.map_values(|p: (usize, u32)| (key, position, ItemMove { from_slot, to_slot: p.0, quantity: p.1 }))
}

/// A fresh transfer work unit for `moves` from one container to another.
pub open spec fn is_fresh_transfer<P>(unit: WorkUnit<P>, from: u128, from_position: P, to: u128, to_position: P, moves: Seq<ItemMove>) -> bool {
    unit.data matches WorkUnitData::Transfer(t) && {
        &&& t.transfer.from_container == from
        &&& t.transfer.from_position == from_position
        &&& t.transfer.to_container == to
        &&& t.transfer.to_position == to_position
        &&& t.transfer.moves@ == moves
        &&& t.completed@.len() == 0
        &&& t.staged@.len() == 0
        &&& t.from_contents is None
        &&& t.to_contents is None
    }
}

/// What planning staging or cleanup gives part way.
pub enum PassOutcome<K, P> {
    Planned { emissions: Seq<Emission<K, P>>, capacity: CapacityModel, remaining: u32 },
    NoRoom,
    BadSlot,
}

/// `outcome`, with `done` emitted before what it emits.
pub open spec fn prepend<K, P>(done: Seq<Emission<K, P>>, outcome: PassOutcome<K, P>) -> PassOutcome<K, P> {
    match outcome {
        PassOutcome::Planned { emissions, capacity, remaining } => PassOutcome::Planned { emissions: done + emissions, capacity, remaining },
        other => other,
    }
}

pub proof fn lemma_prepend<K, P>(a: Seq<Emission<K, P>>, b: Seq<Emission<K, P>>, outcome: PassOutcome<K, P>)
    ensures
        prepend(a, prepend(b, outcome)) == prepend(a + b, outcome),
        prepend(Seq::empty(), outcome) == outcome,
{
    assert(a + (b + Seq::empty()) =~= (a + b) + Seq::empty());
    match outcome {
        PassOutcome::Planned { emissions, capacity, remaining } => {
            assert(a + (b + emissions) =~= (a + b) + emissions);
            assert(Seq::<Emission<K, P>>::empty() + emissions =~= emissions);
        },
        _ => {},
    }
}

pub open spec fn stack_matches<P>(requirement: StagingRequirement, row: (String, StagingSource, ItemKindStackRow<P>), destination: u128) -> bool {
    &&& row.0@ == requirement.item_kind@
    &&& row.1 == requirement.source
    &&& row.2.container_id != destination
    &&& row.2.quantity > 0
}

/// Places what remains of `requirement` from `stacks[j..]`, stack by stack.
pub open spec fn stage_stacks<P>(
    requirement: StagingRequirement,
    stacks: Seq<(String, StagingSource, ItemKindStackRow<P>)>,
    destination: u128,
    capacity: CapacityModel,
    sizes: StackSizes,
    remaining: u32,
    j: int,
) -> PassOutcome<SourceKey, P>
    decreases stacks.len() - j,
{
    if j < 0 || j >= stacks.len() {
        PassOutcome::Planned { emissions: Seq::empty(), capacity, remaining }
    } else if !stack_matches(requirement, stacks[j], destination) {
        stage_stacks(requirement, stacks, destination, capacity, sizes, remaining, j + 1)
    } else if remaining == 0 {
        PassOutcome::Planned { emissions: Seq::empty(), capacity, remaining }
    } else {
        let row = stacks[j];
        let quantity = min_u32(remaining, row.2.quantity as u32);
        match spec_allocate(capacity, row.0@, row.2.components_digest@, quantity, sizes.size_of(row.0@)) {
            None => PassOutcome::NoRoom,
            Some((placements, slots)) => if row.2.slot < 0 {
                PassOutcome::BadSlot
            } else {
                let own = placement_moves(placements, SourceKey { source: row.1, container: row.2.container_id }, row.2.position, row.2.slot as usize);
                prepend(own, stage_stacks(requirement, stacks, destination, CapacityModel { capacity: capacity.capacity, slots },
                    sizes, (remaining - quantity) as u32, j + 1))
            },
        }
    }
}

/// Places `requirements[r..]` in order; each must be placed in full.
pub open spec fn stage_requirements<P>(
    requirements: Seq<StagingRequirement>,
    stacks: Seq<(String, StagingSource, ItemKindStackRow<P>)>,
    destination: u128,
    capacity: CapacityModel,
    sizes: StackSizes,
    r: int,
) -> PassOutcome<SourceKey, P>
    decreases requirements.len() - r,
{
    if r < 0 || r >= requirements.len() {
        PassOutcome::Planned { emissions: Seq::empty(), capacity, remaining: 0 }
    } else {
        match stage_stacks(requirements[r], stacks, destination, capacity, sizes, requirements[r].quantity, 0) {
            PassOutcome::Planned { emissions, capacity, remaining } => if remaining != 0 {
                PassOutcome::NoRoom
            } else {
                prepend(emissions, stage_requirements(requirements, stacks, destination, capacity, sizes, r + 1))
            },
            other => other,
        }
    }
}

pub open spec fn staging_kind(source: StagingSource) -> NewCraftTransferKind {
    match source {
        StagingSource::Storage => NewCraftTransferKind::Stage,
        StagingSource::Dependency(id) => NewCraftTransferKind::Dependency { source_node_id: id },
    }
}


/// Nothing is left to place once `remaining` is zero.
pub proof fn lemma_nothing_remaining<P>(
    requirement: StagingRequirement,
    stacks: Seq<(String, StagingSource, ItemKindStackRow<P>)>,
    destination: u128,
    capacity: CapacityModel,
    sizes: StackSizes,
    j: int,
)
    requires
        0 <= j,
    ensures
        stage_stacks(requirement, stacks, destination, capacity, sizes, 0, j)
            == (PassOutcome::<SourceKey, P>::Planned { emissions: Seq::empty(), capacity, remaining: 0 }),
    decreases stacks.len() - j,
{
    if j < stacks.len() {
        lemma_nothing_remaining(requirement, stacks, destination, capacity, sizes, j + 1);
    }
}

/// Places one requirement from the matching stacks, adding its moves to
/// `groups`. `Ok(true)`: placed in full; `Ok(false)`: not enough items or room.
fn stage_requirement<P: Copy>(
    requirement: &StagingRequirement,
    stacks: &Vec<(String, StagingSource, ItemKindStackRow<P>)>,
    destination: u128,
    capacity: &mut ContainerCapacity,
    sizes: &StackSizes,
    groups: &mut Vec<(SourceKey, P, Vec<ItemMove>)>,
    Ghost(emissions): Ghost<Seq<Emission<SourceKey, P>>>,
) -> (result: Result<bool, StagingError>)
    requires
        sizes.valid(),
        groups_match(old(groups)@, emissions),
    ensures
        match stage_stacks(*requirement, stacks@, destination, old(capacity).model(), *sizes, requirement.quantity, 0) {
            PassOutcome::Planned { emissions: added, capacity: c, remaining } => if remaining == 0 {
                result == Ok::<bool, StagingError>(true) && final(capacity).model() == c
                    && groups_match(final(groups)@, emissions + added)
            } else {
                result == Ok::<bool, StagingError>(false)
            },
            PassOutcome::NoRoom => result == Ok::<bool, StagingError>(false),
            PassOutcome::BadSlot => result == Err::<bool, StagingError>(StagingError::NegativeSlot),
        },
{
    let ghost cap0 = capacity.model();
    let ghost whole = stage_stacks(*requirement, stacks@, destination, cap0, *sizes, requirement.quantity, 0);
    let ghost mut added: Seq<Emission<SourceKey, P>> = Seq::empty();
    let mut remaining = requirement.quantity;
    let mut j: usize = 0;
    proof {
        lemma_prepend(Seq::empty(), Seq::empty(), whole);
    }
    while j < stacks.len() && remaining > 0
        invariant
            j <= stacks@.len(),
            sizes.valid(),
            cap0 == old(capacity).model(),
            whole == stage_stacks(*requirement, stacks@, destination, cap0, *sizes, requirement.quantity, 0),
            whole == prepend(added, stage_stacks(*requirement, stacks@, destination, capacity.model(), *sizes, remaining, j as int)),
            groups_match(groups@, emissions + added),
        decreases stacks.len() - j,
    {
        let row = &stacks[j];
        if row.0 == requirement.item_kind && row.1 == requirement.source && row.2.container_id != destination
            && row.2.quantity > 0 {
            let available = row.2.quantity as u32;
            let quantity = if remaining <= available { remaining } else { available };
            let ghost before = capacity.model();
            proof {
                assert(stacks@[j as int] == *row);
                assert(stack_matches(*requirement, stacks@[j as int], destination));
            }
            match capacity.allocate(&row.0, &row.2.components_digest, quantity, sizes) {
                None => {
                    assert(stage_stacks(*requirement, stacks@, destination, before, *sizes, remaining, j as int)
                        == PassOutcome::<SourceKey, P>::NoRoom);
                    return Ok(false);
                },
                Some(placements) => {
                    if row.2.slot < 0 {
                        assert(stage_stacks(*requirement, stacks@, destination, before, *sizes, remaining, j as int)
                            == PassOutcome::<SourceKey, P>::BadSlot);
                        return Err(StagingError::NegativeSlot);
                    }
                    let from_slot = row.2.slot as usize;
                    let key = SourceKey { source: row.1, container: row.2.container_id };
                    let position = row.2.position;
                    let ghost own = placement_moves(placements@, key, position, from_slot);
                    let mut t: usize = 0;
                    while t < placements.len()
                        invariant
                            t <= placements@.len(),
                            groups_match(groups@, emissions + added + placement_moves(placements@.take(t as int), key, position, from_slot)),
                        decreases placements.len() - t,
                    {
                        let ghost so_far = emissions + added + placement_moves(placements@.take(t as int), key, position, from_slot);
                        let item_move = ItemMove { from_slot, to_slot: placements[t].0, quantity: placements[t].1 };
                        add_move(groups, key, position, item_move, Ghost(so_far));
                        assert(placement_moves(placements@.take(t + 1), key, position, from_slot)
                            =~= placement_moves(placements@.take(t as int), key, position, from_slot).push((key, position, item_move)));
                        assert(so_far.push((key, position, item_move)) =~= emissions + added
                            + placement_moves(placements@.take(t + 1), key, position, from_slot));
                        t = t + 1;
                    }
                    assert(placements@.take(t as int) =~= placements@);
                    proof {
                        lemma_prepend(added, own, stage_stacks(*requirement, stacks@, destination, capacity.model(), *sizes,
                            (remaining - quantity) as u32, j + 1));
                        assert(emissions + added + own =~= emissions + (added + own));
                        added = added + own;
                    }
                    remaining = remaining - quantity;
                },
            }
        }
        j = j + 1;
    }
    proof {
        if remaining == 0 {
            lemma_nothing_remaining(*requirement, stacks@, destination, capacity.model(), *sizes, j as int);
        }
        assert(added + Seq::<Emission<SourceKey, P>>::empty() =~= added);
    }
    Ok(remaining == 0)
}

/// The simulation of `container` can start: no negative quantity, and a
/// capacity that fits in `usize`.
pub open spec fn capacity_accepts<P>(container: Container<P>) -> bool {
    !has_negative_quantity(container.contents@) && container.capacity <= usize::MAX
}

pub open spec fn capacity_error<P>(container: Container<P>) -> CapacityError {
    if has_negative_quantity(container.contents@) {
        CapacityError::NegativeQuantity
    } else {
        CapacityError::CapacityTooLarge
    }
}

/// The transfer operations for the groups of `emissions`, one per group in
/// key order, each from the group's container to `to` with the group's moves.
pub open spec fn operations_match<K: GroupKey, P>(
    operations: Seq<NewCraftTransferOperation<P>>,
    emissions: Seq<Emission<K, P>>,
    kind: spec_fn(K) -> NewCraftTransferKind,
    from: spec_fn(K, P) -> (u128, P),
    to: spec_fn(K, P) -> (u128, P),
) -> bool {
    let groups = groups_of(emissions, emissions.len() as int);
    &&& operations.len() == groups.len()
    &&& forall|i: int| #![trigger operations[i]] 0 <= i < operations.len() ==> {
        &&& operations[i].kind == kind(groups[i].0)
        &&& is_fresh_transfer(operations[i].work_unit, from(groups[i].0, groups[i].1).0, from(groups[i].0, groups[i].1).1,
            to(groups[i].0, groups[i].1).0, to(groups[i].0, groups[i].1).1, moves_for(emissions, groups[i].0, emissions.len() as int))
    }
}

/// What staging `requirements` into `destination` comes to.
pub open spec fn staging_outcome<P>(
    requirements: Seq<StagingRequirement>,
    stacks: Seq<(String, StagingSource, ItemKindStackRow<P>)>,
    destination: Container<P>,
    sizes: StackSizes,
) -> PassOutcome<SourceKey, P> {
    stage_requirements(requirements, stacks, destination.id,
        spec_capacity_of(destination.contents@, destination.capacity as int, sizes), sizes, 0)
}

pub open spec fn staging_kinds() -> spec_fn(SourceKey) -> NewCraftTransferKind {
    |k: SourceKey| staging_kind(k.source)
}

pub open spec fn group_source<P>() -> spec_fn(SourceKey, P) -> (u128, P) {
    |k: SourceKey, p: P| (k.container, p)
}

pub open spec fn fixed_end<K, P>(container: u128, position: P) -> spec_fn(K, P) -> (u128, P) {
    |k: K, p: P| (container, position)
}

/// One staging operation per group, in order: a fresh transfer of the
/// group's moves from the group's container to the destination.
fn staging_operations<P: Copy>(groups: Vec<(SourceKey, P, Vec<ItemMove>)>, destination: u128, destination_position: P)
    -> (operations: Vec<NewCraftTransferOperation<P>>)
    ensures
        operations@.len() == groups@.len(),
        forall|i: int| #![trigger operations@[i]] 0 <= i < operations@.len() ==> {
            &&& operations@[i].kind == staging_kind(groups@[i].0.source)
            &&& is_fresh_transfer(operations@[i].work_unit, groups@[i].0.container, groups@[i].1,
                destination, destination_position, groups@[i].2@)
        },
{
    let ghost all = groups@;
    let mut rest = groups;
    let mut operations: Vec<NewCraftTransferOperation<P>> = Vec::new();
    while rest.len() > 0
        invariant
            operations@.len() + rest@.len() == all.len(),
            rest@ == all.skip(operations@.len() as int),
            forall|i: int| #![trigger operations@[i]] 0 <= i < operations@.len() ==> {
                &&& operations@[i].kind == staging_kind(all[i].0.source)
                &&& is_fresh_transfer(operations@[i].work_unit, all[i].0.container, all[i].1,
                    destination, destination_position, all[i].2@)
            },
        decreases rest.len(),
    {
        let ghost done = operations@.len() as int;
        let (key, position, moves) = rest.remove(0);
        assert(all[done] == (key, position, moves));
        let kind = match key.source {
            StagingSource::Storage => NewCraftTransferKind::Stage,
            StagingSource::Dependency(id) => NewCraftTransferKind::Dependency { source_node_id: id },
        };
        let work_unit = WorkUnit::new(WorkUnitData::Transfer(TransferWorkUnit {
            transfer: Transfer {
                from_container: key.container,
                from_position: position,
                to_container: destination,
                to_position: destination_position,
                moves,
            },
            completed: Vec::new(),
            staged: Vec::new(),
            from_contents: None,
            to_contents: None,
        }));
        operations.push(NewCraftTransferOperation { work_unit, kind });
        assert(rest@ =~= all.skip(operations@.len() as int));
    }
    operations
}

/// Plans the transfers that stage `requirements` into `destination`: each
/// requirement in order takes from the stacks of its item kind and source
/// (outside the destination, in the order given) until it is met, merging
/// into the destination's stacks before starting new ones (see
/// [`stage_requirements`]). The moves are grouped by source and container in
/// key order. Gives the operations and the simulated destination after them,
/// `None` when a requirement cannot be met or does not fit, and an error when
/// the destination cannot be simulated or a stack has a negative slot.
/// `sizes` gives the stack size of each item kind.
pub fn build_staging_work_units<P: Copy>(
    requirements: &Vec<StagingRequirement>,
    stacks: &Vec<(String, StagingSource, ItemKindStackRow<P>)>,
    destination: &Container<P>,
    sizes: &StackSizes,
) -> (result: Result<Option<(Vec<NewCraftTransferOperation<P>>, ContainerCapacity)>, StagingError>)
    requires
        distinct_slots(destination.contents@),
        sizes.valid(),
        forall|i: int| 0 <= i < destination.contents@.len() ==> #[trigger] destination.contents@[i].0 < usize::MAX,
    ensures
        match result {
            Err(StagingError::Capacity(e)) => !capacity_accepts(*destination) && e == capacity_error(*destination),
            Err(StagingError::NegativeQuantity) => false,
            Err(StagingError::NegativeSlot) => capacity_accepts(*destination)
                && staging_outcome(requirements@, stacks@, *destination, *sizes) is BadSlot,
            Ok(None) => capacity_accepts(*destination)
                && staging_outcome(requirements@, stacks@, *destination, *sizes) is NoRoom,
            Ok(Some((operations, capacity))) => capacity_accepts(*destination)
                && match staging_outcome(requirements@, stacks@, *destination, *sizes) {
                    PassOutcome::Planned { emissions, capacity: c, .. } => capacity.model() == c
                        && operations_match(operations@, emissions, staging_kinds(), group_source(),
                            fixed_end(destination.id, destination.position)),
                    _ => false,
                },
        },
{
    let mut capacity = match ContainerCapacity::new(destination, sizes) {
        Ok(c) => c,
        Err(e) => {
            return Err(StagingError::Capacity(e));
        },
    };
    let ghost whole = staging_outcome(requirements@, stacks@, *destination, *sizes);
    let ghost mut emissions: Seq<Emission<SourceKey, P>> = Seq::empty();
    let mut groups: Vec<(SourceKey, P, Vec<ItemMove>)> = Vec::new();
    proof {
        lemma_prepend(Seq::empty(), Seq::empty(), whole);
        assert(group_heads(groups@) =~= groups_of(emissions, 0));
    }
    let mut r: usize = 0;
    while r < requirements.len()
        invariant
            r <= requirements@.len(),
            sizes.valid(),
            capacity_accepts(*destination),
            whole == staging_outcome(requirements@, stacks@, *destination, *sizes),
            whole == prepend(emissions, stage_requirements(requirements@, stacks@, destination.id, capacity.model(), *sizes, r as int)),
            groups_match(groups@, emissions),
        decreases requirements.len() - r,
    {
        let ghost before = capacity.model();
        let ghost placed = stage_stacks(requirements@[r as int], stacks@, destination.id, before, *sizes, requirements@[r as int].quantity, 0);
        let staged = stage_requirement(&requirements[r], stacks, destination.id, &mut capacity, sizes, &mut groups, Ghost(emissions));
        match staged {
            Err(e) => {
                assert(stage_requirements(requirements@, stacks@, destination.id, before, *sizes, r as int)
                    == PassOutcome::<SourceKey, P>::BadSlot);
                return Err(e);
            },
            Ok(false) => {
                assert(stage_requirements(requirements@, stacks@, destination.id, before, *sizes, r as int)
                    == PassOutcome::<SourceKey, P>::NoRoom);
                return Ok(None);
            },
            Ok(true) => {
                proof {
                    let added = placed->emissions;
                    lemma_prepend(emissions, added, stage_requirements(requirements@, stacks@, destination.id, capacity.model(), *sizes, r + 1));
                    emissions = emissions + added;
                }
            },
        }
        r = r + 1;
    }
    proof {
        lemma_prepend(emissions, Seq::empty(), PassOutcome::Planned { emissions: Seq::empty(), capacity: capacity.model(), remaining: 0 });
        assert(emissions + Seq::<Emission<SourceKey, P>>::empty() =~= emissions);
    }
    let operations = staging_operations(groups, destination.id, destination.position);
    Ok(Some((operations, capacity)))
}

/// `ingredients[i..]`, each taken `crafts` times, consumed from the
/// simulation in order; `None` when one of them is not all there.
pub open spec fn consume_ingredients(slots: Seq<Option<StackModel>>, ingredients: Seq<CraftIngredient>, crafts: u32, i: int)
    -> Option<Seq<Option<StackModel>>>
    decreases ingredients.len() - i,
{
    if i < 0 || i >= ingredients.len() {
        Some(slots)
    } else {
        let taken = consume_pass(slots, ingredients[i].item_kind@, saturating_mul(ingredients[i].quantity, crafts), 0);
        if taken.1 {
            consume_ingredients(taken.0, ingredients, crafts, i + 1)
        } else {
            None
        }
    }
}

/// Whether a staged craft fits its processing container: the ingredients
/// of the crafts still to run can be taken out of the simulation `m`, and
/// the output of those crafts then placed into it.
pub open spec fn staged_craft_fits_spec(
    m: CapacityModel,
    ingredients: Seq<CraftIngredient>,
    planned_crafts: u32,
    completed_crafts: u32,
    output_item_kind: Seq<char>,
    output_yield: u32,
    sizes: StackSizes,
) -> bool {
    let crafts = if planned_crafts >= completed_crafts { (planned_crafts - completed_crafts) as u32 } else { 0u32 };
    match consume_ingredients(m.slots, ingredients, crafts, 0) {
        None => false,
        Some(slots) => spec_allocate(CapacityModel { capacity: m.capacity, slots }, output_item_kind, Seq::empty(),
            saturating_mul(output_yield, crafts), sizes.size_of(output_item_kind)) is Some,
    }
}

/// Checks that a staged craft fits its processing container (see
/// [`staged_craft_fits_spec`]), consuming the ingredients and placing the
/// output in the simulation as it goes.
pub fn staged_craft_fits(
    capacity: &mut ContainerCapacity,
    ingredients: &Vec<CraftIngredient>,
    planned_crafts: u32,
    completed_crafts: u32,
    output_item_kind: &String,
    output_yield: u32,
    sizes: &StackSizes,
) -> (fits: bool)
    requires
        sizes.valid(),
    ensures
        fits == staged_craft_fits_spec(old(capacity).model(), ingredients@, planned_crafts, completed_crafts,
            output_item_kind@, output_yield, *sizes),
{
    let crafts = if planned_crafts >= completed_crafts { planned_crafts - completed_crafts } else { 0 };
    let ghost m0 = capacity.model();
    let mut i: usize = 0;
    while i < ingredients.len()
        invariant
            i <= ingredients@.len(),
            m0 == old(capacity).model(),
            crafts == (if planned_crafts >= completed_crafts { (planned_crafts - completed_crafts) as u32 } else { 0u32 }),
            capacity.model().capacity == m0.capacity,
            consume_ingredients(m0.slots, ingredients@, crafts, 0) == consume_ingredients(capacity.model().slots, ingredients@, crafts, i as int),
        decreases ingredients.len() - i,
    {
        let amount = saturating_mul_u32(ingredients[i].quantity, crafts);
        if !capacity.consume(&ingredients[i].item_kind, amount) {
            return false;
        }
        i = i + 1;
    }
    let output = saturating_mul_u32(output_yield, crafts);
    let no_digest = String::new();
    proof {
        assert(capacity.model() == CapacityModel { capacity: m0.capacity, slots: capacity.model().slots });
    }
    let placed = capacity.allocate(output_item_kind, &no_digest, output, sizes);
    placed.is_some()
}

/// Item kinds a craft node needs, and how many of each.
#[derive(Debug)]
pub struct CraftItemRequirement {
    pub item_kind: String,
    pub quantity: u32,
}

/// Items a craft node needs from the output of an earlier node, which sits
/// in that node's processing region.
#[derive(Debug)]
pub struct CraftDependencyRequirement {
    pub source_node_id: u128,
    pub region_id: u128,
    pub requirement: CraftItemRequirement,
}

/// What tells a stack row's copies apart from other rows.
pub struct RowModel<P> {
    pub stack_id: u128,
    pub container_id: u128,
    pub region_id: u128,
    pub region_type: Seq<char>,
    pub position: P,
    pub slot: i32,
    pub quantity: i32,
    pub components_digest: Seq<char>,
}

pub open spec fn row_model<P>(row: ItemKindStackRow<P>) -> RowModel<P> {
    RowModel {
        stack_id: row.stack_id,
        container_id: row.container_id,
        region_id: row.region_id,
        region_type: row.region_type@,
        position: row.position,
        slot: row.slot,
        quantity: row.quantity,
        components_digest: row.components_digest@,
    }
}

/// The staging rows, each as its item kind, source and row model.
pub open spec fn row_keys<P>(rows: Seq<(String, StagingSource, ItemKindStackRow<P>)>) -> Seq<(Seq<char>, StagingSource, RowModel<P>)> {
    rows.map_values(|r: (String, StagingSource, ItemKindStackRow<P>)| (r.0@, r.1, row_model(r.2)))
}

/// The rows of `stacks[..k]` outside processing regions, as storage rows for `item_kind`.
pub open spec fn storage_row_keys<P>(item_kind: Seq<char>, stacks: Seq<ItemKindStackRow<P>>, k: int)
    -> Seq<(Seq<char>, StagingSource, RowModel<P>)>
    decreases k,
{
    if k <= 0 {
        Seq::empty()
    } else if stacks[k - 1].region_type@ != "processing"@ {
        storage_row_keys(item_kind, stacks, k - 1).push((item_kind, StagingSource::Storage, row_model(stacks[k - 1])))
    } else {
        storage_row_keys(item_kind, stacks, k - 1)
    }
}

/// The storage rows of the raw requirements `raw[..n]`, requirement after requirement.
pub open spec fn raw_row_keys<P>(raw: Seq<CraftItemRequirement>, raw_stacks: Seq<Vec<ItemKindStackRow<P>>>, n: int)
    -> Seq<(Seq<char>, StagingSource, RowModel<P>)>
    decreases n,
{
    if n <= 0 {
        Seq::empty()
    } else {
        raw_row_keys(raw, raw_stacks, n - 1) + storage_row_keys(raw[n - 1].item_kind@, raw_stacks[n - 1]@, raw_stacks[n - 1]@.len() as int)
    }
}

/// The rows of `stacks[..k]` in the dependency's region, as rows from the dependency.
pub open spec fn region_row_keys<P>(dependency: CraftDependencyRequirement, stacks: Seq<ItemKindStackRow<P>>, k: int)
    -> Seq<(Seq<char>, StagingSource, RowModel<P>)>
    decreases k,
{
    if k <= 0 {
        Seq::empty()
    } else if stacks[k - 1].region_id == dependency.region_id {
        region_row_keys(dependency, stacks, k - 1).push((dependency.requirement.item_kind@,
            StagingSource::Dependency(dependency.source_node_id), row_model(stacks[k - 1])))
    } else {
        region_row_keys(dependency, stacks, k - 1)
    }
}

/// The indices of the dependencies among `dependencies[..n]` outside `region_id`.
pub open spec fn included_dependencies(dependencies: Seq<CraftDependencyRequirement>, region_id: u128, n: int) -> Seq<int>
    decreases n,
{
    if n <= 0 {
        Seq::empty()
    } else if dependencies[n - 1].region_id != region_id {
        included_dependencies(dependencies, region_id, n - 1).push(n - 1)
    } else {
        included_dependencies(dependencies, region_id, n - 1)
    }
}

/// The rows of the dependencies among `dependencies[..n]` outside `region_id`.
pub open spec fn dependency_row_keys<P>(
    dependencies: Seq<CraftDependencyRequirement>,
    dependency_stacks: Seq<Vec<ItemKindStackRow<P>>>,
    region_id: u128,
    n: int,
) -> Seq<(Seq<char>, StagingSource, RowModel<P>)>
    decreases n,
{
    if n <= 0 {
        Seq::empty()
    } else if dependencies[n - 1].region_id != region_id {
        dependency_row_keys(dependencies, dependency_stacks, region_id, n - 1)
            + region_row_keys(dependencies[n - 1], dependency_stacks[n - 1]@, dependency_stacks[n - 1]@.len() as int)
    } else {
        dependency_row_keys(dependencies, dependency_stacks, region_id, n - 1)
    }
}

impl<P: Copy> ItemKindStackRow<P> {
    /// A copy of the row.
    pub fn clone_row(&self) -> (copy: ItemKindStackRow<P>)
        ensures
            row_model(copy) == row_model(*self),
    {
        ItemKindStackRow {
            stack_id: self.stack_id,
            container_id: self.container_id,
            region_id: self.region_id,
            region_type: self.region_type.clone(),
            position: self.position,
            slot: self.slot,
            quantity: self.quantity,
            components: clone_components(&self.components),
            components_digest: self.components_digest.clone(),
        }
    }
}

/// Whether the row lies in a processing region.
fn row_is_processing<P>(row: &ItemKindStackRow<P>) -> (processing: bool)
    ensures
        processing == (row.region_type@ == "processing"@),
{
    let expected = "processing";
    proof {
        reveal_strlit("processing");
    }
    let text = row.region_type.as_str();
    if text.unicode_len() != expected.unicode_len() {
        return false;
    }
    let mut i: usize = 0;
    while i < expected.unicode_len()
        invariant
            text@.len() == expected@.len(),
            text@ == row.region_type@,
            expected@ == "processing"@,
            i <= expected@.len(),
            forall|j: int| 0 <= j < i ==> text@[j] == expected@[j],
        decreases expected@.len() - i,
    {
        if text.get_char(i) != expected.get_char(i) {
            return false;
        }
        i = i + 1;
    }
    assert(text@ =~= expected@);
    true
}

/// What staging a craft node takes, built from its raw requirements (with
/// the storage stacks fetched for each) and its dependency requirements
/// (with the stacks fetched for each). Raw requirements come first, from
/// storage outside processing regions; each dependency whose region is not
/// `region_id` follows, from the stacks in the dependency's region.
pub fn staging_inputs<P: Copy>(
    raw: &Vec<CraftItemRequirement>,
    raw_stacks: &Vec<Vec<ItemKindStackRow<P>>>,
    dependencies: &Vec<CraftDependencyRequirement>,
    dependency_stacks: &Vec<Vec<ItemKindStackRow<P>>>,
    region_id: u128,
) -> (inputs: (Vec<StagingRequirement>, Vec<(String, StagingSource, ItemKindStackRow<P>)>))
    requires
        raw_stacks@.len() == raw@.len(),
        dependency_stacks@.len() == dependencies@.len(),
    ensures
        inputs.0@.len() == raw@.len() + included_dependencies(dependencies@, region_id, dependencies@.len() as int).len(),
        forall|i: int| 0 <= i < raw@.len() ==> {
            &&& #[trigger] inputs.0@[i].item_kind@ == raw@[i].item_kind@
            &&& inputs.0@[i].quantity == raw@[i].quantity
            &&& inputs.0@[i].source == StagingSource::Storage
        },
        forall|j: int| 0 <= j < included_dependencies(dependencies@, region_id, dependencies@.len() as int).len() ==> {
            let d = dependencies@[included_dependencies(dependencies@, region_id, dependencies@.len() as int)[j]];
            &&& #[trigger] inputs.0@[raw@.len() + j].item_kind@ == d.requirement.item_kind@
            &&& inputs.0@[raw@.len() + j].quantity == d.requirement.quantity
            &&& inputs.0@[raw@.len() + j].source == StagingSource::Dependency(d.source_node_id)
        },
        row_keys(inputs.1@) == raw_row_keys(raw@, raw_stacks@, raw@.len() as int)
            + dependency_row_keys(dependencies@, dependency_stacks@, region_id, dependencies@.len() as int),
{
    let mut requirements: Vec<StagingRequirement> = Vec::new();
    let mut rows: Vec<(String, StagingSource, ItemKindStackRow<P>)> = Vec::new();
    let mut i: usize = 0;
    while i < raw.len()
        invariant
            i <= raw@.len(),
            raw_stacks@.len() == raw@.len(),
            requirements@.len() == i,
            forall|k: int| 0 <= k < i ==> {
                &&& #[trigger] requirements@[k].item_kind@ == raw@[k].item_kind@
                &&& requirements@[k].quantity == raw@[k].quantity
                &&& requirements@[k].source == StagingSource::Storage
            },
            row_keys(rows@) == raw_row_keys(raw@, raw_stacks@, i as int),
        decreases raw.len() - i,
    {
        let stacks = &raw_stacks[i];
        let ghost start = rows@;
        let mut k: usize = 0;
        while k < stacks.len()
            invariant
                i < raw@.len(),
                raw_stacks@.len() == raw@.len(),
                stacks@ == raw_stacks@[i as int]@,
                k <= stacks@.len(),
                row_keys(rows@) == row_keys(start) + storage_row_keys(raw@[i as int].item_kind@, stacks@, k as int),
            decreases stacks.len() - k,
        {
            let row = stacks[k].clone_row();
            if !row_is_processing(&row) {
                let ghost before = rows@;
                rows.push((raw[i].item_kind.clone(), StagingSource::Storage, row));
                proof {
                    assert(row_keys(rows@) =~= row_keys(before).push((raw@[i as int].item_kind@, StagingSource::Storage, row_model(stacks@[k as int]))));
                }
            }
            k = k + 1;
        }
        let ghost before = requirements@;
        requirements.push(StagingRequirement { item_kind: raw[i].item_kind.clone(), quantity: raw[i].quantity, source: StagingSource::Storage });
        proof {
            assert forall|m: int| 0 <= m < i + 1 implies {
                &&& #[trigger] requirements@[m].item_kind@ == raw@[m].item_kind@
                &&& requirements@[m].quantity == raw@[m].quantity
                &&& requirements@[m].source == StagingSource::Storage
            } by {
                if m < i {
                    assert(requirements@[m] == before[m]);
                }
            }
            assert(row_keys(start) + storage_row_keys(raw@[i as int].item_kind@, stacks@, stacks@.len() as int)
                =~= raw_row_keys(raw@, raw_stacks@, i + 1));
        }
        i = i + 1;
    }
    let ghost raw_rows = row_keys(rows@);
    let mut d: usize = 0;
    while d < dependencies.len()
        invariant
            d <= dependencies@.len(),
            dependency_stacks@.len() == dependencies@.len(),
            requirements@.len() == raw@.len() + included_dependencies(dependencies@, region_id, d as int).len(),
            forall|k: int| 0 <= k < raw@.len() ==> {
                &&& #[trigger] requirements@[k].item_kind@ == raw@[k].item_kind@
                &&& requirements@[k].quantity == raw@[k].quantity
                &&& requirements@[k].source == StagingSource::Storage
            },
            forall|j: int| 0 <= j < included_dependencies(dependencies@, region_id, d as int).len() ==> {
                let dep = dependencies@[included_dependencies(dependencies@, region_id, d as int)[j]];
                &&& #[trigger] requirements@[raw@.len() + j].item_kind@ == dep.requirement.item_kind@
                &&& requirements@[raw@.len() + j].quantity == dep.requirement.quantity
                &&& requirements@[raw@.len() + j].source == StagingSource::Dependency(dep.source_node_id)
            },
            row_keys(rows@) == raw_rows + dependency_row_keys(dependencies@, dependency_stacks@, region_id, d as int),
        decreases dependencies.len() - d,
    {
        let dependency = &dependencies[d];
        if dependency.region_id != region_id {
            let stacks = &dependency_stacks[d];
            let source = StagingSource::Dependency(dependency.source_node_id);
            let ghost start = rows@;
            let mut k: usize = 0;
            while k < stacks.len()
                invariant
                    d < dependencies@.len(),
                    dependency_stacks@.len() == dependencies@.len(),
                    stacks@ == dependency_stacks@[d as int]@,
                    *dependency == dependencies@[d as int],
                    source == StagingSource::Dependency(dependencies@[d as int].source_node_id),
                    k <= stacks@.len(),
                    row_keys(rows@) == row_keys(start) + region_row_keys(dependencies@[d as int], stacks@, k as int),
                decreases stacks.len() - k,
            {
                if stacks[k].region_id == dependency.region_id {
                    let ghost before = rows@;
                    rows.push((dependency.requirement.item_kind.clone(), source, stacks[k].clone_row()));
                    proof {
                        assert(row_keys(rows@) =~= row_keys(before).push((dependencies@[d as int].requirement.item_kind@,
                            StagingSource::Dependency(dependencies@[d as int].source_node_id), row_model(stacks@[k as int]))));
                    }
                }
                k = k + 1;
            }
            let ghost before = requirements@;
            requirements.push(StagingRequirement {
                item_kind: dependency.requirement.item_kind.clone(),
                quantity: dependency.requirement.quantity,
                source,
            });
            proof {
                let inc = included_dependencies(dependencies@, region_id, d as int);
                assert(included_dependencies(dependencies@, region_id, d + 1) == inc.push(d as int));
                assert(raw@.len() <= before.len());
                assert forall|m: int| 0 <= m < raw@.len() implies {
                    &&& #[trigger] requirements@[m].item_kind@ == raw@[m].item_kind@
                    &&& requirements@[m].quantity == raw@[m].quantity
                    &&& requirements@[m].source == StagingSource::Storage
                } by {
                    assert(requirements@[m] == before[m]);
                    assert(before[m].item_kind@ == raw@[m].item_kind@);
                }
                assert forall|j: int| 0 <= j < inc.len() + 1 implies {
                    let dep = dependencies@[inc.push(d as int)[j]];
                    &&& #[trigger] requirements@[raw@.len() + j].item_kind@ == dep.requirement.item_kind@
                    &&& requirements@[raw@.len() + j].quantity == dep.requirement.quantity
                    &&& requirements@[raw@.len() + j].source == StagingSource::Dependency(dep.source_node_id)
                } by {
                    if j < inc.len() {
                        assert(requirements@[raw@.len() + j] == before[raw@.len() + j]);
                        assert(inc.push(d as int)[j] == inc[j]);
                    }
                }
                assert(raw_rows + dependency_row_keys(dependencies@, dependency_stacks@, region_id, d as int)
                    + region_row_keys(dependencies@[d as int], stacks@, stacks@.len() as int)
                    =~= raw_rows + dependency_row_keys(dependencies@, dependency_stacks@, region_id, d + 1));
            }
        }
        d = d + 1;
    }
    (requirements, rows)
}

} // verus!
