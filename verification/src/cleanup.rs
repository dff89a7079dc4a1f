//! Planning the transfers that clear a processing container into bulk
//! storage once its craft is done.
use crate::capacity::{min_u32, spec_allocate, spec_available, spec_capacity_of, CapacityModel, ContainerCapacity};
use crate::grouping::{add_move, group_heads, groups_match, groups_of, Emission};
use crate::item_stack::{distinct_slots, Container, ItemStack, StackSizes};
use crate::staging::{
    capacity_accepts, capacity_error, fixed_end, operations_match, placement_moves, NewCraftTransferKind,
    NewCraftTransferOperation, StagingError, is_fresh_transfer,
};
use crate::work::{ItemMove, Transfer, TransferWorkUnit, WorkUnit, WorkUnitData};
use vstd::prelude::*;

verus! {

/// What clearing a container comes to, part way.
pub enum CleanupOutcome<P> {
    Planned { emissions: Seq<Emission<u128, P>>, capacities: Seq<CapacityModel>, remaining: u32 },
    NoRoom,
    BadSlot,
    BadQuantity,
}

/// `outcome`, with `done` emitted before what it emits.
pub open spec fn prepend_cleanup<P>(done: Seq<Emission<u128, P>>, outcome: CleanupOutcome<P>) -> CleanupOutcome<P> {
    match outcome {
        CleanupOutcome::Planned { emissions, capacities, remaining } =>
            CleanupOutcome::Planned { emissions: done + emissions, capacities, remaining },
        other => other,
    }
}

pub proof fn lemma_prepend_cleanup<P>(a: Seq<Emission<u128, P>>, b: Seq<Emission<u128, P>>, outcome: CleanupOutcome<P>)
    ensures
        prepend_cleanup(a, prepend_cleanup(b, outcome)) == prepend_cleanup(a + b, outcome),
        prepend_cleanup(Seq::empty(), outcome) == outcome,
{
    match outcome {
        CleanupOutcome::Planned { emissions, capacities, remaining } => {
            assert(a + (b + emissions) =~= (a + b) + emissions);
            assert(Seq::<Emission<u128, P>>::empty() + emissions =~= emissions);
        },
        _ => {},
    }
}

/// Index of the last of `destinations[..n]` with id `id`, or -1: the one
/// whose simulation a map keyed by id keeps.
pub open spec fn last_with_id<P>(destinations: Seq<Container<P>>, id: u128, n: int) -> int
    decreases n,
{
    if n <= 0 {
        -1
    } else if destinations[n - 1].id == id {
        n - 1
    } else {
        last_with_id(destinations, id, n - 1)
    }
}

pub proof fn lemma_last_with_id<P>(destinations: Seq<Container<P>>, d: int, n: int)
    requires
        0 <= d < n <= destinations.len(),
    ensures
        d <= last_with_id(destinations, destinations[d].id, n) < n,
    decreases n,
{
    if n - 1 > d && destinations[n - 1].id != destinations[d].id {
        lemma_last_with_id(destinations, d, n - 1);
    }
}

/// The simulations of all destinations.
pub open spec fn capacity_models(capacities: Seq<ContainerCapacity>) -> Seq<CapacityModel> {
    capacities.map_values(|c: ContainerCapacity| c.model())
}

/// The simulations of the destinations as they are at the start.
pub open spec fn initial_capacities<P>(destinations: Seq<Container<P>>, sizes: StackSizes) -> Seq<CapacityModel> {
    Seq::new(destinations.len(), |i: int| spec_capacity_of(destinations[i].contents@, destinations[i].capacity as int, sizes))
}

/// Places `remaining` items of `stack` into `destinations[d..]` in order:
/// each takes what its simulation (the last one for its id) says fits, up to
/// what remains.
pub open spec fn place_stack<P>(
    stack: ItemStack,
    destinations: Seq<Container<P>>,
    capacities: Seq<CapacityModel>,
    sizes: StackSizes,
    remaining: u32,
    d: int,
) -> CleanupOutcome<P>
    decreases destinations.len() - d,
{
    if d < 0 || d >= destinations.len() || remaining == 0 {
        CleanupOutcome::Planned { emissions: Seq::empty(), capacities, remaining }
    } else {
        let c = last_with_id(destinations, destinations[d].id, destinations.len() as int);
        let size = sizes.size_of(stack.item_kind@);
        let attempt = min_u32(remaining, spec_available(capacities[c], stack.item_kind@, stack.components_digest@, size));
        if attempt == 0 {
            place_stack(stack, destinations, capacities, sizes, remaining, d + 1)
        } else {
            match spec_allocate(capacities[c], stack.item_kind@, stack.components_digest@, attempt, size) {
                None => place_stack(stack, destinations, capacities, sizes, remaining, d + 1),
                Some((placements, slots)) => if placements.len() > 0 && stack.slot < 0 {
                    CleanupOutcome::BadSlot
                } else {
                    prepend_cleanup(
                        placement_moves(placements, destinations[d].id, destinations[d].position, stack.slot as usize),
                        place_stack(stack, destinations, capacities.update(c, CapacityModel { capacity: capacities[c].capacity, slots }),
                            sizes, (remaining - attempt) as u32, d + 1),
                    )
                },
            }
        }
    }
}

/// Where a stack at `slot` goes among the stacks in `order[i..]`: after
/// every stack at a slot not above it, so that stacks keep their order on ties.
pub open spec fn slot_insert_index(contents: Seq<(usize, ItemStack)>, order: Seq<usize>, slot: i32, i: int) -> int
    decreases order.len() - i,
{
    if i < 0 || i >= order.len() {
        order.len() as int
    } else if contents[order[i] as int].1.slot > slot {
        i
    } else {
        slot_insert_index(contents, order, slot, i + 1)
    }
}

/// The first `n` stacks of `contents`, as indices, stably sorted by slot.
pub open spec fn slot_order(contents: Seq<(usize, ItemStack)>, n: int) -> Seq<usize>
    decreases n,
{
    if n <= 0 {
        Seq::empty()
    } else {
        let order = slot_order(contents, n - 1);
        order.insert(slot_insert_index(contents, order, contents[n - 1].1.slot, 0), (n - 1) as usize)
    }
}

/// Places the stacks `order[k..]` of `contents` in turn; each must be placed in full.
pub open spec fn place_stacks<P>(
    contents: Seq<(usize, ItemStack)>,
    order: Seq<usize>,
    destinations: Seq<Container<P>>,
    capacities: Seq<CapacityModel>,
    sizes: StackSizes,
    k: int,
) -> CleanupOutcome<P>
    decreases order.len() - k,
{
    if k < 0 || k >= order.len() {
        CleanupOutcome::Planned { emissions: Seq::empty(), capacities, remaining: 0 }
    } else {
        let stack = contents[order[k] as int].1;
        if stack.quantity < 0 {
            CleanupOutcome::BadQuantity
        } else {
            match place_stack(stack, destinations, capacities, sizes, stack.quantity as u32, 0) {
                CleanupOutcome::Planned { emissions, capacities, remaining } => if remaining != 0 {
                    CleanupOutcome::NoRoom
                } else {
                    prepend_cleanup(emissions, place_stacks(contents, order, destinations, capacities, sizes, k + 1))
                },
                other => other,
            }
        }
    }
}

/// What clearing `source` into `destinations` comes to.
pub open spec fn cleanup_outcome<P>(source: Container<P>, destinations: Seq<Container<P>>, sizes: StackSizes) -> CleanupOutcome<P> {
    place_stacks(source.contents@, slot_order(source.contents@, source.contents@.len() as int), destinations,
        initial_capacities(destinations, sizes), sizes, 0)
}

pub open spec fn cleanup_kind() -> spec_fn(u128) -> NewCraftTransferKind {
    |k: u128| NewCraftTransferKind::Cleanup
}

pub open spec fn group_destination<P>() -> spec_fn(u128, P) -> (u128, P) {
    |k: u128, p: P| (k, p)
}

pub proof fn lemma_slot_insert_index(contents: Seq<(usize, ItemStack)>, order: Seq<usize>, slot: i32, i: int)
    requires
        0 <= i <= order.len(),
    ensures
        i <= slot_insert_index(contents, order, slot, i) <= order.len(),
    decreases order.len() - i,
{
    if i < order.len() {
        lemma_slot_insert_index(contents, order, slot, i + 1);
    }
}

pub proof fn lemma_slot_order(contents: Seq<(usize, ItemStack)>, n: int)
    requires
        0 <= n <= contents.len(),
    ensures
        slot_order(contents, n).len() == n,
        forall|i: int| 0 <= i < n ==> #[trigger] slot_order(contents, n)[i] < n,
    decreases n,
{
    if n > 0 {
        lemma_slot_order(contents, n - 1);
        let order = slot_order(contents, n - 1);
        let at = slot_insert_index(contents, order, contents[n - 1].1.slot, 0);
        lemma_slot_insert_index(contents, order, contents[n - 1].1.slot, 0);
        let o2 = order.insert(at, (n - 1) as usize);
        assert forall|i: int| 0 <= i < n implies #[trigger] o2[i] < n by {
            if i < at {
                assert(o2[i] == order[i]);
            } else if i > at {
                assert(o2[i] == order[i - 1]);
            }
        }
    }
}

/// Where a stack at `slot` goes among the sorted stacks `order`.
fn slot_position(contents: &Vec<(usize, ItemStack)>, order: &Vec<usize>, slot: i32) -> (at: usize)
    requires
        forall|m: int| 0 <= m < order@.len() ==> #[trigger] order@[m] < contents@.len(),
    ensures
        at == slot_insert_index(contents@, order@, slot, 0),
{
    let mut i: usize = 0;
    while i < order.len()
        invariant
            i <= order@.len(),
            forall|m: int| 0 <= m < order@.len() ==> #[trigger] order@[m] < contents@.len(),
            slot_insert_index(contents@, order@, slot, 0) == slot_insert_index(contents@, order@, slot, i as int),
        decreases order.len() - i,
    {
        if contents[order[i]].1.slot > slot {
            return i;
        }
        i = i + 1;
    }
    i
}

/// The indices of the stacks of `contents`, stably sorted by slot.
fn sort_by_slot(contents: &Vec<(usize, ItemStack)>) -> (order: Vec<usize>)
    ensures
        order@ == slot_order(contents@, contents@.len() as int),
{
    let mut order: Vec<usize> = Vec::new();
    let mut n: usize = 0;
    while n < contents.len()
        invariant
            n <= contents@.len(),
            order@ == slot_order(contents@, n as int),
        decreases contents.len() - n,
    {
        proof {
            lemma_slot_order(contents@, n as int);
            lemma_slot_insert_index(contents@, order@, contents@[n as int].1.slot, 0);
        }
        let at = slot_position(contents, &order, contents[n].1.slot);
        order.insert(at, n);
        n = n + 1;
    }
    order
}

/// Index of the last destination with the id of `destinations[d]`.
fn capacity_index<P>(destinations: &Vec<Container<P>>, d: usize) -> (c: usize)
    requires
        d < destinations@.len(),
    ensures
        c as int == last_with_id(destinations@, destinations@[d as int].id, destinations@.len() as int),
        d <= c < destinations@.len(),
{
    proof {
        lemma_last_with_id(destinations@, d as int, destinations@.len() as int);
    }
    let id = destinations[d].id;
    let mut n: usize = destinations.len();
    while n > d + 1
        invariant
            d < n <= destinations@.len(),
            id == destinations@[d as int].id,
            last_with_id(destinations@, id, destinations@.len() as int) == last_with_id(destinations@, id, n as int),
        decreases n,
    {
        if destinations[n - 1].id == id {
            return n - 1;
        }
        n = n - 1;
    }
    d
}

/// Places `stack` into the destinations in order, adding its moves to
/// `groups`. `Ok(true)`: placed in full; `Ok(false)`: not all of it fits.
fn place_one_stack<P: Copy>(
    stack: &ItemStack,
    destinations: &Vec<Container<P>>,
    capacities: &mut Vec<ContainerCapacity>,
    sizes: &StackSizes,
    groups: &mut Vec<(u128, P, Vec<ItemMove>)>,
    Ghost(emissions): Ghost<Seq<Emission<u128, P>>>,
) -> (result: Result<bool, StagingError>)
    requires
        stack.quantity >= 0,
        sizes.valid(),
        old(capacities)@.len() == destinations@.len(),
        groups_match(old(groups)@, emissions),
    ensures
        final(capacities)@.len() == destinations@.len(),
        match place_stack(*stack, destinations@, capacity_models(old(capacities)@), *sizes, stack.quantity as u32, 0) {
            CleanupOutcome::Planned { emissions: added, capacities: cs, remaining } => if remaining == 0 {
                result == Ok::<bool, StagingError>(true) && capacity_models(final(capacities)@) == cs
                    && groups_match(final(groups)@, emissions + added)
            } else {
                result == Ok::<bool, StagingError>(false)
            },
            CleanupOutcome::BadSlot => result == Err::<bool, StagingError>(StagingError::NegativeSlot),
            _ => false,
        },
{
    let ghost whole = place_stack(*stack, destinations@, capacity_models(capacities@), *sizes, stack.quantity as u32, 0);
    let ghost mut added: Seq<Emission<u128, P>> = Seq::empty();
    let mut remaining = stack.quantity as u32;
    let mut d: usize = 0;
    proof {
        lemma_prepend_cleanup(Seq::empty(), Seq::empty(), whole);
    }
    while d < destinations.len() && remaining > 0
        invariant
            d <= destinations@.len(),
            sizes.valid(),
            capacities@.len() == destinations@.len(),
            whole == place_stack(*stack, destinations@, capacity_models(old(capacities)@), *sizes, stack.quantity as u32, 0),
            whole == prepend_cleanup(added, place_stack(*stack, destinations@, capacity_models(capacities@), *sizes, remaining, d as int)),
            groups_match(groups@, emissions + added),
        decreases destinations.len() - d,
    {
        let ghost models = capacity_models(capacities@);
        let c = capacity_index(destinations, d);
        assert(models[c as int] == capacities@[c as int].model());
        let available = capacities[c].available(&stack.item_kind, &stack.components_digest, sizes);
        let attempt = if remaining <= available { remaining } else { available };
        if attempt > 0 {
            let mut capacity = capacities.remove(c);
            let allocated = capacity.allocate(&stack.item_kind, &stack.components_digest, attempt, sizes);
            let ghost after = capacity.model();
            capacities.insert(c, capacity);
            match allocated {
                None => {
                    assert(capacity_models(capacities@) =~= models);
                },
                Some(placements) => {
                    if placements.len() > 0 && stack.slot < 0 {
                        assert(place_stack(*stack, destinations@, models, *sizes, remaining, d as int) == CleanupOutcome::<P>::BadSlot);
                        return Err(StagingError::NegativeSlot);
                    }
                    assert(capacity_models(capacities@) =~= models.update(c as int, after));
                    let from_slot: usize = if stack.slot >= 0 { stack.slot as usize } else { 0 };
                    let key = destinations[d].id;
                    let position = destinations[d].position;
                    let ghost own = placement_moves(placements@, key, position, stack.slot as usize);
                    let mut t: usize = 0;
                    while t < placements.len()
                        invariant
                            t <= placements@.len(),
                            placements@.len() > 0 ==> from_slot == stack.slot as usize,
                            groups_match(groups@, emissions + added + placement_moves(placements@.take(t as int), key, position, stack.slot as usize)),
                        decreases placements.len() - t,
                    {
                        let ghost so_far = emissions + added + placement_moves(placements@.take(t as int), key, position, stack.slot as usize);
                        let item_move = ItemMove { from_slot, to_slot: placements[t].0, quantity: placements[t].1 };
                        add_move(groups, key, position, item_move, Ghost(so_far));
                        assert(placement_moves(placements@.take(t + 1), key, position, stack.slot as usize)
                            =~= placement_moves(placements@.take(t as int), key, position, stack.slot as usize).push((key, position, item_move)));
                        assert(so_far.push((key, position, item_move)) =~= emissions + added
                            + placement_moves(placements@.take(t + 1), key, position, stack.slot as usize));
                        t = t + 1;
                    }
                    assert(placements@.take(t as int) =~= placements@);
                    proof {
                        lemma_prepend_cleanup(added, own, place_stack(*stack, destinations@, capacity_models(capacities@), *sizes,
                            (remaining - attempt) as u32, d + 1));
                        assert(emissions + added + own =~= emissions + (added + own));
                        added = added + own;
                    }
                    remaining = remaining - attempt;
                },
            }
        }
        d = d + 1;
    }
    proof {
        assert(added + Seq::<Emission<u128, P>>::empty() =~= added);
    }
    Ok(remaining == 0)
}

/// One cleanup operation per group, in order: a fresh transfer of the
/// group's moves from the source to the group's container.
fn cleanup_operations<P: Copy>(groups: Vec<(u128, P, Vec<ItemMove>)>, source: u128, source_position: P)
    -> (operations: Vec<NewCraftTransferOperation<P>>)
    ensures
        operations@.len() == groups@.len(),
        forall|i: int| #![trigger operations@[i]] 0 <= i < operations@.len() ==> {
            &&& operations@[i].kind == NewCraftTransferKind::Cleanup
            &&& is_fresh_transfer(operations@[i].work_unit, source, source_position, groups@[i].0, groups@[i].1, groups@[i].2@)
        },
{
    let ghost all = groups@;
    let mut rest = groups;
    let mut operations: Vec<NewCraftTransferOperation<P>> = Vec::new();
    while rest.len() > 0
        invariant
            operations@.len() + rest@.len() == all.len(),
            rest@ == all.skip(operations@.len() as int),
            forall|i: int| #![trigger operations@[i]] 0 <= i < operations@.len() ==> {
                &&& operations@[i].kind == NewCraftTransferKind::Cleanup
                &&& is_fresh_transfer(operations@[i].work_unit, source, source_position, all[i].0, all[i].1, all[i].2@)
            },
        decreases rest.len(),
    {
        let ghost done = operations@.len() as int;
        let (to_container, to_position, moves) = rest.remove(0);
        assert(all[done] == (to_container, to_position, moves));
        let work_unit = WorkUnit::new(WorkUnitData::Transfer(TransferWorkUnit {
            transfer: Transfer { from_container: source, from_position: source_position, to_container, to_position, moves },
            completed: Vec::new(),
            staged: Vec::new(),
            from_contents: None,
            to_contents: None,
        }));
        operations.push(NewCraftTransferOperation { work_unit, kind: NewCraftTransferKind::Cleanup });
        assert(rest@ =~= all.skip(operations@.len() as int));
    }
    operations
}

/// Every destination can be simulated.
pub open spec fn all_accepted<P>(destinations: Seq<Container<P>>) -> bool {
    forall|i: int| 0 <= i < destinations.len() ==> #[trigger] capacity_accepts(destinations[i])
}

/// `destinations[i]` is the first destination that cannot be simulated.
pub open spec fn first_rejected<P>(destinations: Seq<Container<P>>, i: int) -> bool {
    &&& 0 <= i < destinations.len()
    &&& !capacity_accepts(destinations[i])
    &&& forall|j: int| 0 <= j < i ==> #[trigger] capacity_accepts(destinations[j])
}

/// Plans the transfers that clear `source` into `destinations`: its stacks,
/// stably sorted by slot, go in turn into the destinations in the order
/// given, each destination taking what still fits, merging into its stacks
/// before starting new ones (see [`place_stack`]). The moves are grouped by
/// destination id in id order. Gives the operations, `None` when a stack does
/// not fit in full, and an error when a destination cannot be simulated, a
/// stack of the source holds a negative quantity, or a stack to move has a
/// negative slot. `sizes` gives the stack size of each item kind.
pub fn build_cleanup_work_units<P: Copy>(
    source: &Container<P>,
    destinations: &Vec<Container<P>>,
    sizes: &StackSizes,
) -> (result: Result<Option<Vec<NewCraftTransferOperation<P>>>, StagingError>)
    requires
        sizes.valid(),
        forall|i: int| 0 <= i < destinations@.len() ==> #[trigger] distinct_slots(destinations@[i].contents@),
        forall|i: int, j: int| 0 <= i < destinations@.len() && 0 <= j < destinations@[i].contents@.len()
            ==> #[trigger] destinations@[i].contents@[j].0 < usize::MAX,
    ensures
        match result {
            Err(StagingError::Capacity(e)) => exists|i: int| first_rejected(destinations@, i)
                && e == capacity_error(#[trigger] destinations@[i]),
            Err(StagingError::NegativeQuantity) => all_accepted(destinations@)
                && cleanup_outcome(*source, destinations@, *sizes) is BadQuantity,
            Err(StagingError::NegativeSlot) => all_accepted(destinations@)
                && cleanup_outcome(*source, destinations@, *sizes) is BadSlot,
            Ok(None) => all_accepted(destinations@) && cleanup_outcome(*source, destinations@, *sizes) is NoRoom,
            Ok(Some(operations)) => all_accepted(destinations@) && match cleanup_outcome(*source, destinations@, *sizes) {
                CleanupOutcome::Planned { emissions, .. } => operations_match(operations@, emissions, cleanup_kind(),
                    fixed_end(source.id, source.position), group_destination()),
                _ => false,
            },
        },
{
    let mut capacities: Vec<ContainerCapacity> = Vec::new();
    let mut i: usize = 0;
    while i < destinations.len()
        invariant
            i <= destinations@.len(),
            sizes.valid(),
            forall|i: int| 0 <= i < destinations@.len() ==> #[trigger] distinct_slots(destinations@[i].contents@),
            forall|i: int, j: int| 0 <= i < destinations@.len() && 0 <= j < destinations@[i].contents@.len()
                ==> #[trigger] destinations@[i].contents@[j].0 < usize::MAX,
            capacities@.len() == i,
            forall|j: int| 0 <= j < i ==> #[trigger] capacity_accepts(destinations@[j]),
            forall|j: int| 0 <= j < i ==> #[trigger] capacity_models(capacities@)[j] == initial_capacities(destinations@, *sizes)[j],
        decreases destinations.len() - i,
    {
        assert(forall|j: int| 0 <= j < destinations@[i as int].contents@.len()
            ==> #[trigger] destinations@[i as int].contents@[j].0 < usize::MAX);
        match ContainerCapacity::new(&destinations[i], sizes) {
            Ok(c) => {
                let ghost before = capacities@;
                capacities.push(c);
                assert forall|j: int| 0 <= j < i + 1 implies #[trigger] capacity_models(capacities@)[j]
                    == initial_capacities(destinations@, *sizes)[j] by {
                    if j < i {
                        assert(capacities@[j] == before[j]);
                        assert(capacity_models(before)[j] == initial_capacities(destinations@, *sizes)[j]);
                    }
                }
            },
            Err(e) => {
                assert(first_rejected(destinations@, i as int));
                return Err(StagingError::Capacity(e));
            },
        }
        i = i + 1;
    }
    assert(capacity_models(capacities@) =~= initial_capacities(destinations@, *sizes));
    let contents = &source.contents;
    let order = sort_by_slot(contents);
    proof {
        lemma_slot_order(contents@, contents@.len() as int);
    }
    let ghost whole = cleanup_outcome(*source, destinations@, *sizes);
    let ghost mut emissions: Seq<Emission<u128, P>> = Seq::empty();
    let mut groups: Vec<(u128, P, Vec<ItemMove>)> = Vec::new();
    proof {
        lemma_prepend_cleanup(Seq::empty(), Seq::empty(), whole);
        assert(group_heads(groups@) =~= groups_of(emissions, 0));
    }
    let mut k: usize = 0;
    while k < order.len()
        invariant
            k <= order@.len(),
            sizes.valid(),
            order@ == slot_order(contents@, contents@.len() as int),
            order@.len() == contents@.len(),
            forall|m: int| 0 <= m < order@.len() ==> #[trigger] order@[m] < contents@.len(),
            contents@ == source.contents@,
            all_accepted(destinations@),
            capacities@.len() == destinations@.len(),
            whole == cleanup_outcome(*source, destinations@, *sizes),
            whole == prepend_cleanup(emissions, place_stacks(contents@, order@, destinations@, capacity_models(capacities@), *sizes, k as int)),
            groups_match(groups@, emissions),
        decreases order.len() - k,
    {
        let ghost before = capacity_models(capacities@);
        let stack = &contents[order[k]].1;
        if stack.quantity < 0 {
            assert(place_stacks(contents@, order@, destinations@, before, *sizes, k as int) == CleanupOutcome::<P>::BadQuantity);
            return Err(StagingError::NegativeQuantity);
        }
        let ghost placed = place_stack(*stack, destinations@, before, *sizes, stack.quantity as u32, 0);
        match place_one_stack(stack, destinations, &mut capacities, sizes, &mut groups, Ghost(emissions)) {
            Err(e) => {
                assert(place_stacks(contents@, order@, destinations@, before, *sizes, k as int) == CleanupOutcome::<P>::BadSlot);
                return Err(e);
            },
            Ok(false) => {
                assert(place_stacks(contents@, order@, destinations@, before, *sizes, k as int) == CleanupOutcome::<P>::NoRoom);
                return Ok(None);
            },
            Ok(true) => {
                proof {
                    let added = placed->emissions;
                    lemma_prepend_cleanup(emissions, added, place_stacks(contents@, order@, destinations@,
                        capacity_models(capacities@), *sizes, k + 1));
                    emissions = emissions + added;
                }
            },
        }
        k = k + 1;
    }
    proof {
        lemma_prepend_cleanup(emissions, Seq::empty(), CleanupOutcome::Planned {
            emissions: Seq::empty(),
            capacities: capacity_models(capacities@),
            remaining: 0,
        });
        assert(emissions + Seq::<Emission<u128, P>>::empty() =~= emissions);
    }
    Ok(Some(cleanup_operations(groups, source.id, source.position)))
}

} // verus!
