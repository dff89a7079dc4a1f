//! Running a resolved crafting plan directly: whether it can run, the
//! transfers that bring its raw materials into the processing container,
//! and the recipe nodes it crafts, deepest first.
use crate::capacity::min_u32;
use crate::crafting::{CraftNode, CraftNodeKind, CraftPlan, NodeKindModel, NodeModel, RawMaterialRequirement};
use crate::item_stack::{distinct_slots, Container, ItemStack};
use crate::execution::{copy_ingredients, ingredient_models, last_recipe, last_recipe_index, lemma_last_recipe};
use crate::ids::{parse_uuid, uuid_parse};
use crate::work::{CraftLocations, CraftProgress, CraftRecipe, CraftWorkUnit, ItemMove, Transfer};
use vstd::prelude::*;

verus! {

/// Why running a crafting plan stopped.
#[derive(Debug)]
pub enum CraftRunError {
    /// The plan still has open choices.
    UnresolvedChoices,
    /// The plan's target is not made by a recipe.
    TargetNotRecipe,
    /// The processing container has no free slot left.
    NoFreeProcessingSlot,
    /// Indexed storage does not hold enough of an item kind.
    InsufficientStorage { item_kind: String },
    /// A recipe node's recipe id does not parse.
    InvalidRecipeId { text: String },
    /// A recipe node's recipe is not among the known recipes.
    RecipeNotFound { recipe_id: u128 },
    /// Bulk storage has no free slot for a stack of craft output.
    NoBulkSlot,
    /// A processing container's capacity is negative.
    NegativeCapacity,
}

/// Whether `plan` can run now. Errors when it has open choices or its
/// target is not made by a recipe; `Ok(false)` (wait) when storage holds
/// less than the plan takes of some raw material.
pub fn check_craft_plan(plan: &CraftPlan) -> (ready: Result<bool, CraftRunError>)
    ensures
        plan.unresolved ==> ready matches Err(CraftRunError::UnresolvedChoices),
        !plan.unresolved && !(plan.root.kind is Recipe) ==> ready matches Err(CraftRunError::TargetNotRecipe),
        !plan.unresolved && plan.root.kind is Recipe ==> ready == Ok::<bool, CraftRunError>(forall|i: int|
            0 <= i < plan.raw_materials@.len() ==> #[trigger] plan.raw_materials@[i].quantity <= plan.raw_materials@[i].available),
{
    if plan.unresolved {
        return Err(CraftRunError::UnresolvedChoices);
    }
    match &plan.root.kind {
        CraftNodeKind::Recipe { .. } => {},
        _ => {
            return Err(CraftRunError::TargetNotRecipe);
        },
    }
    let mut i: usize = 0;
    while i < plan.raw_materials.len()
        invariant
            i <= plan.raw_materials@.len(),
            !plan.unresolved,
            plan.root.kind is Recipe,
            forall|j: int| 0 <= j < i ==> #[trigger] plan.raw_materials@[j].quantity <= plan.raw_materials@[j].available,
        decreases plan.raw_materials.len() - i,
    {
        if plan.raw_materials[i].quantity > plan.raw_materials[i].available {
            return Ok(false);
        }
        i = i + 1;
    }
    Ok(true)
}

/// Whether `slot` holds a stack of `contents`.
pub open spec fn slot_taken(contents: Seq<(usize, crate::item_stack::ItemStack)>, slot: int) -> bool {
    exists|i: int| 0 <= i < contents.len() && #[trigger] contents[i].0 == slot
}

/// The first free slot of `container` from `cursor` on, below its capacity.
pub open spec fn next_free_slot<P>(container: Container<P>, cursor: int) -> Option<usize>
    decreases (container.capacity as usize) - cursor,
{
    if cursor < 0 || cursor >= container.capacity as usize {
        None
    } else if !slot_taken(container.contents@, cursor) {
        Some(cursor as usize)
    } else {
        next_free_slot(container, cursor + 1)
    }
}

pub proof fn lemma_next_free_slot<P>(container: Container<P>, cursor: int)
    requires
        0 <= cursor,
    ensures
        next_free_slot(container, cursor) matches Some(s) ==> cursor <= s < container.capacity as usize,
    decreases (container.capacity as usize) - cursor,
{
    if cursor < container.capacity as usize && slot_taken(container.contents@, cursor) {
        lemma_next_free_slot(container, cursor + 1);
    }
}

/// The first free slot of `container` from `cursor` on, if any.
fn find_free_slot<P>(container: &Container<P>, cursor: usize) -> (slot: Option<usize>)
    ensures
        slot == next_free_slot(*container, cursor as int),
{
    let capacity = container.capacity as usize;
    let mut candidate = cursor;
    while candidate < capacity
        invariant
            cursor <= candidate,
            capacity == container.capacity as usize,
            next_free_slot(*container, cursor as int) == next_free_slot(*container, candidate as int),
        decreases capacity - candidate,
    {
        let mut taken = false;
        let mut i: usize = 0;
        while i < container.contents.len()
            invariant
                i <= container.contents@.len(),
                taken <==> exists|j: int| 0 <= j < i && #[trigger] container.contents@[j].0 == candidate,
            decreases container.contents.len() - i,
        {
            if container.contents[i].0 == candidate {
                taken = true;
            }
            i = i + 1;
        }
        if !taken {
            return Some(candidate);
        }
        candidate = candidate + 1;
    }
    None
}

/// One raw-material transfer: from the container with this id at this
/// position, a single move into the processing container.
pub type RawEmission<P> = (u128, P, ItemMove);

/// Why raw-material staging stops part way.
pub enum RawStop {
    NoFreeSlot,
    /// Storage is short for the requirement with this index.
    Short(int),
}

/// The transfers raw-material staging makes, and why it stops, if it does.
pub enum RawPlan<P> {
    Done(Seq<RawEmission<P>>),
    Stopped(Seq<RawEmission<P>>, RawStop),
}

pub open spec fn prepend_raw<P>(done: Seq<RawEmission<P>>, plan: RawPlan<P>) -> RawPlan<P> {
    match plan {
        RawPlan::Done(emissions) => RawPlan::Done(done + emissions),
        RawPlan::Stopped(emissions, stop) => RawPlan::Stopped(done + emissions, stop),
    }
}

pub proof fn lemma_prepend_raw<P>(a: Seq<RawEmission<P>>, b: Seq<RawEmission<P>>, plan: RawPlan<P>)
    ensures
        prepend_raw(a, prepend_raw(b, plan)) == prepend_raw(a + b, plan),
        prepend_raw(Seq::empty(), plan) == plan,
{
    match plan {
        RawPlan::Done(emissions) => {
            assert(a + (b + emissions) =~= (a + b) + emissions);
            assert(Seq::<RawEmission<P>>::empty() + emissions =~= emissions);
        },
        RawPlan::Stopped(emissions, stop) => {
            assert(a + (b + emissions) =~= (a + b) + emissions);
            assert(Seq::<RawEmission<P>>::empty() + emissions =~= emissions);
        },
    }
}

/// The quantities of the stacks of each container.
pub open spec fn stack_quantities<P>(containers: Seq<Container<P>>) -> Seq<Seq<i32>> {
    containers.map_values(|c: Container<P>| c.contents@.map_values(|e: (usize, crate::item_stack::ItemStack)| e.1.quantity))
}

/// The quantity that a requirement starts with.
pub open spec fn first_quantity(requirements: Seq<RawMaterialRequirement>, r: int) -> u32 {
    if 0 <= r < requirements.len() { requirements[r].quantity } else { 0 }
}

/// Staging raw materials from the requirement `r`, source container `s`
/// and its stack `k` on: each requirement takes, container by container and
/// stack by stack, from the stacks of its item kind (with `quantities`, as
/// earlier requirements left them) until met, each withdrawal a transfer
/// into the next free processing slot (from `cursor` on).
pub open spec fn raw_plan<P>(
    requirements: Seq<RawMaterialRequirement>,
    sources: Seq<Container<P>>,
    quantities: Seq<Seq<i32>>,
    processing: Container<P>,
    r: int,
    s: int,
    k: int,
    remaining: u32,
    cursor: int,
) -> RawPlan<P>
    decreases requirements.len() - r, sources.len() - s, sources[s].contents@.len() - k,
{
    if r < 0 || r >= requirements.len() {
        RawPlan::Done(Seq::empty())
    } else if s < 0 || s >= sources.len() {
        if remaining != 0 {
            RawPlan::Stopped(Seq::empty(), RawStop::Short(r))
        } else {
            raw_plan(requirements, sources, quantities, processing, r + 1, 0, 0, first_quantity(requirements, r + 1), cursor)
        }
    } else if k < 0 || k >= sources[s].contents@.len() {
        raw_plan(requirements, sources, quantities, processing, r, s + 1, 0, remaining, cursor)
    } else {
        let stack = sources[s].contents@[k].1;
        let quantity = quantities[s][k];
        if stack.item_kind@ != requirements[r].item_kind@ || remaining == 0 {
            raw_plan(requirements, sources, quantities, processing, r, s, k + 1, remaining, cursor)
        } else {
            let take = min_u32(remaining, if quantity > 0 { quantity as u32 } else { 0 });
            match next_free_slot(processing, cursor) {
                None => RawPlan::Stopped(Seq::empty(), RawStop::NoFreeSlot),
                Some(slot) => prepend_raw(
                    seq![(sources[s].id, sources[s].position, ItemMove { from_slot: stack.slot as usize, to_slot: slot, quantity: take })],
                    raw_plan(requirements, sources, quantities.update(s, quantities[s].update(k, (quantity - take) as i32)),
                        processing, r, s, k + 1, (remaining - take) as u32, slot + 1),
                ),
            }
        }
    }
}

/// The transfer of one raw-material emission into the processing container.
pub open spec fn raw_transfer_matches<P>(transfer: Transfer<P>, emission: RawEmission<P>, processing: Container<P>) -> bool {
    &&& transfer.from_container == emission.0
    &&& transfer.from_position == emission.1
    &&& transfer.to_container == processing.id
    &&& transfer.to_position == processing.position
    &&& transfer.moves@ == seq![emission.2]
}

pub open spec fn raw_transfers_match<P>(transfers: Seq<Transfer<P>>, emissions: Seq<RawEmission<P>>, processing: Container<P>) -> bool {
    &&& transfers.len() == emissions.len()
    &&& forall|i: int| 0 <= i < transfers.len() ==> raw_transfer_matches(#[trigger] transfers[i], emissions[i], processing)
}

/// The quantities of the stacks of each container, as a nested list.
fn quantities_of<P>(sources: &Vec<Container<P>>) -> (quantities: Vec<Vec<i32>>)
    ensures
        quantities@.map_values(|v: Vec<i32>| v@) == stack_quantities(sources@),
        quantities@.len() == sources@.len(),
        forall|t: int| 0 <= t < sources@.len() ==> #[trigger] quantities@[t]@.len() == sources@[t].contents@.len(),
{
    let mut quantities: Vec<Vec<i32>> = Vec::new();
    let mut s: usize = 0;
    while s < sources.len()
        invariant
            s <= sources@.len(),
            quantities@.len() == s,
            forall|t: int| 0 <= t < s ==> #[trigger] quantities@[t]@ == stack_quantities(sources@)[t],
        decreases sources.len() - s,
    {
        let mut row: Vec<i32> = Vec::new();
        let mut k: usize = 0;
        while k < sources[s].contents.len()
            invariant
                s < sources@.len(),
                k <= sources@[s as int].contents@.len(),
                row@ == sources@[s as int].contents@.map_values(|e: (usize, crate::item_stack::ItemStack)| e.1.quantity).subrange(0, k as int),
            decreases sources[s as int].contents@.len() - k,
        {
            row.push(sources[s].contents[k].1.quantity);
            proof {
                assert(row@ =~= sources@[s as int].contents@.map_values(|e: (usize, crate::item_stack::ItemStack)| e.1.quantity).subrange(0, k + 1));
            }
            k = k + 1;
        }
        let ghost before = quantities@;
        proof {
            assert(row@ =~= sources@[s as int].contents@.map_values(|e: (usize, crate::item_stack::ItemStack)| e.1.quantity));
        }
        quantities.push(row);
        proof {
            assert forall|t: int| 0 <= t < s + 1 implies #[trigger] quantities@[t]@ == stack_quantities(sources@)[t] by {
                if t < s {
                    assert(quantities@[t] == before[t]);
                }
            }
        }
        s = s + 1;
    }
    proof {
        assert(quantities@.map_values(|v: Vec<i32>| v@) =~= stack_quantities(sources@));
    }
    quantities
}

/// Plans the transfers that bring the plan's raw materials into the
/// processing container (see [`raw_plan`]): the transfers to run, in order,
/// and why staging stops after them, if it does.
pub fn plan_raw_material_transfers<P: Copy>(
    requirements: &Vec<RawMaterialRequirement>,
    sources: &Vec<Container<P>>,
    processing: &Container<P>,
) -> (planned: (Vec<Transfer<P>>, Option<CraftRunError>))
    ensures
        match raw_plan(requirements@, sources@, stack_quantities(sources@), *processing, 0, 0, 0, first_quantity(requirements@, 0), 0) {
            RawPlan::Done(emissions) => raw_transfers_match(planned.0@, emissions, *processing) && planned.1 is None,
            RawPlan::Stopped(emissions, RawStop::NoFreeSlot) => raw_transfers_match(planned.0@, emissions, *processing)
                && planned.1 matches Some(CraftRunError::NoFreeProcessingSlot),
            RawPlan::Stopped(emissions, RawStop::Short(r)) => raw_transfers_match(planned.0@, emissions, *processing)
                && 0 <= r < requirements@.len() && match planned.1 {
                    Some(CraftRunError::InsufficientStorage { item_kind }) => item_kind@ == requirements@[r].item_kind@,
                    _ => false,
                },
        },
{
    let ghost whole = raw_plan(requirements@, sources@, stack_quantities(sources@), *processing, 0, 0, 0, first_quantity(requirements@, 0), 0);
    let mut quantities = quantities_of(sources);
    let mut transfers: Vec<Transfer<P>> = Vec::new();
    let ghost mut emitted: Seq<RawEmission<P>> = Seq::empty();
    let mut r: usize = 0;
    let mut s: usize = 0;
    let mut k: usize = 0;
    let mut remaining: u32 = if requirements.len() > 0 { requirements[0].quantity } else { 0 };
    let mut cursor: usize = 0;
    proof {
        lemma_prepend_raw(Seq::empty(), Seq::empty(), whole);
    }
    while r < requirements.len()
        invariant
            s <= sources@.len(),
            s < sources@.len() ==> k <= sources@[s as int].contents@.len(),
            quantities@.len() == sources@.len(),
            forall|t: int| 0 <= t < sources@.len() ==> #[trigger] quantities@[t]@.len() == sources@[t].contents@.len(),
            whole == raw_plan(requirements@, sources@, stack_quantities(sources@), *processing, 0, 0, 0, first_quantity(requirements@, 0), 0),
            whole == prepend_raw(emitted, raw_plan(requirements@, sources@, quantities@.map_values(|v: Vec<i32>| v@), *processing,
                r as int, s as int, k as int, remaining, cursor as int)),
            raw_transfers_match(transfers@, emitted, *processing),
        decreases requirements.len() - r, sources.len() - s, sources@[s as int].contents@.len() - k,
    {
        let ghost q = quantities@.map_values(|v: Vec<i32>| v@);
        if s >= sources.len() {
            if remaining != 0 {
                proof {
                    lemma_prepend_raw(emitted, Seq::empty(), RawPlan::Stopped(Seq::empty(), RawStop::Short(r as int)));
                    assert(emitted + Seq::<RawEmission<P>>::empty() =~= emitted);
                }
                return (transfers, Some(CraftRunError::InsufficientStorage { item_kind: requirements[r].item_kind.clone() }));
            }
            r = r + 1;
            s = 0;
            k = 0;
            remaining = if r < requirements.len() { requirements[r].quantity } else { 0 };
        } else if k >= sources[s].contents.len() {
            s = s + 1;
            k = 0;
        } else {
            let entry = &sources[s].contents[k];
            let quantity = quantities[s][k];
            assert(q[s as int][k as int] == quantity);
            if entry.1.item_kind != requirements[r].item_kind || remaining == 0 {
                k = k + 1;
            } else {
                let available: u32 = if quantity > 0 { quantity as u32 } else { 0 };
                let take = if remaining <= available { remaining } else { available };
                match find_free_slot(processing, cursor) {
                    None => {
                        proof {
                            lemma_prepend_raw(emitted, Seq::empty(), RawPlan::Stopped(Seq::empty(), RawStop::NoFreeSlot));
                            assert(emitted + Seq::<RawEmission<P>>::empty() =~= emitted);
                        }
                        return (transfers, Some(CraftRunError::NoFreeProcessingSlot));
                    },
                    Some(slot) => {
                        proof {
                            lemma_next_free_slot(*processing, cursor as int);
                        }
                        let item_move = ItemMove { from_slot: entry.1.slot as usize, to_slot: slot, quantity: take };
                        let mut moves: Vec<ItemMove> = Vec::new();
                        moves.push(item_move);
                        let ghost before = transfers@;
                        transfers.push(Transfer {
                            from_container: sources[s].id,
                            from_position: sources[s].position,
                            to_container: processing.id,
                            to_position: processing.position,
                            moves,
                        });
                        let mut row = quantities.remove(s);
                        row.set(k, quantity - take as i32);
                        quantities.insert(s, row);
                        proof {
                            let e = (sources@[s as int].id, sources@[s as int].position, item_move);
                            assert(quantities@.map_values(|v: Vec<i32>| v@) =~= q.update(s as int, q[s as int].update(k as int, (quantity - take) as i32)));
                            lemma_prepend_raw(emitted, seq![e], raw_plan(requirements@, sources@, quantities@.map_values(|v: Vec<i32>| v@),
                                *processing, r as int, s as int, k + 1, (remaining - take) as u32, slot + 1));
                            assert forall|i: int| 0 <= i < transfers@.len() implies raw_transfer_matches(#[trigger] transfers@[i], (emitted + seq![e])[i], *processing) by {
                                if i < before.len() {
                                    assert(transfers@[i] == before[i]);
                                }
                            }
                            emitted = emitted + seq![e];
                        }
                        remaining = remaining - take;
                        cursor = slot + 1;
                        k = k + 1;
                    },
                }
            }
        }
    }
    proof {
        assert(emitted + Seq::<RawEmission<P>>::empty() =~= emitted);
    }
    (transfers, None)
}

/// The recipe nodes of a plan's subtree, children before their parent.
pub open spec fn recipe_nodes(node: NodeModel) -> Seq<NodeModel>
    decreases node,
{
    children_recipe_nodes(node.children, node.children.len() as int)
        + if node.kind is Recipe { seq![node] } else { Seq::empty() }
}

/// The recipe nodes of the subtrees of `children[..n]`, in order.
pub open spec fn children_recipe_nodes(children: Seq<NodeModel>, n: int) -> Seq<NodeModel>
    decreases children, n,
{
    if n <= 0 || n > children.len() {
        Seq::empty()
    } else {
        children_recipe_nodes(children, n - 1) + recipe_nodes(children[n - 1])
    }
}

/// Adds the recipe nodes of `node`'s subtree to `nodes`, children before
/// their parent.
pub fn collect_recipe_nodes<'a>(node: &'a CraftNode, nodes: &mut Vec<&'a CraftNode>)
    ensures
        final(nodes)@.map_values(|n: &CraftNode| n.model()) == old(nodes)@.map_values(|n: &CraftNode| n.model())
            + recipe_nodes(node.model()),
    decreases node,
{
    let ghost start = nodes@.map_values(|n: &CraftNode| n.model());
    let mut i: usize = 0;
    while i < node.children.len()
        invariant
            i <= node.children@.len(),
            node.model().children.len() == node.children@.len(),
            nodes@.map_values(|n: &CraftNode| n.model()) == start + children_recipe_nodes(node.model().children, i as int),
        decreases node.children.len() - i,
    {
        assert(node.model().children[i as int] == node.children@[i as int].model());
        collect_recipe_nodes(&node.children[i], nodes);
        proof {
            assert(start + children_recipe_nodes(node.model().children, i as int) + recipe_nodes(node.children@[i as int].model())
                =~= start + children_recipe_nodes(node.model().children, i + 1));
        }
        i = i + 1;
    }
    let is_recipe = match &node.kind {
        CraftNodeKind::Recipe { .. } => true,
        _ => false,
    };
    let ghost before = nodes@;
    if is_recipe {
        nodes.push(node);
        proof {
            assert(nodes@.map_values(|n: &CraftNode| n.model()) =~= before.map_values(|n: &CraftNode| n.model()).push(node.model()));
        }
    }
    proof {
        assert(node.model().kind == node.kind.model());
        if is_recipe {
            assert(node.model().kind is Recipe);
            assert(start + children_recipe_nodes(node.model().children, node.children@.len() as int) + seq![node.model()]
                =~= start + recipe_nodes(node.model()));
        } else {
            assert(!(node.model().kind is Recipe));
            assert(start + children_recipe_nodes(node.model().children, node.children@.len() as int)
                =~= start + recipe_nodes(node.model()));
        }
    }
}

/// The craft work unit that runs a recipe node of a plan at `engine`, with
/// the processing container as both input and output; `None` for nodes that
/// are not recipes. Fails when the node's recipe id does not parse or names
/// no known recipe (the last one with the id counts).
pub fn recipe_work_unit<P: Copy>(
    node: &CraftNode,
    recipes: &Vec<crate::crafting::Recipe>,
    engine: P,
    container_id: u128,
    container_position: P,
    container_capacity: u64,
) -> (result: Result<Option<CraftWorkUnit<P>>, CraftRunError>)
    ensures
        match node.kind.model() {
            NodeKindModel::Recipe { recipe_id, crafts, .. } => match uuid_parse(recipe_id) {
                None => result matches Err(CraftRunError::InvalidRecipeId { text }) && text@ == recipe_id,
                Some(id) => match last_recipe(recipes@, id, recipes@.len() as int) {
                    None => result matches Err(CraftRunError::RecipeNotFound { recipe_id: missing }) && missing == id,
                    Some(r) => result matches Ok(Some(unit)) && {
                        &&& unit.recipe.recipe_id == id
                        &&& unit.recipe.output_item_kind@ == recipes@[r].output_item_kind@
                        &&& unit.recipe.output_yield == recipes@[r].output_yield
                        &&& ingredient_models(unit.recipe.ingredients@) == ingredient_models(recipes@[r].ingredients@)
                        &&& unit.recipe.crafts == crafts
                        &&& unit.locations == (CraftLocations {
                            engine,
                            input_container_id: container_id,
                            input_container: container_position,
                            output_container_id: container_id,
                            output_container: container_position,
                            output_container_capacity: container_capacity,
                        })
                        &&& unit.progress.completed_crafts == 0
                        &&& unit.progress.input_snapshot is None
                        &&& unit.progress.output_snapshot is None
                    },
                },
            },
            _ => result matches Ok(None),
        },
{
    match &node.kind {
        CraftNodeKind::Recipe { recipe_id, crafts, .. } => {
            let id = match parse_uuid(recipe_id.as_str()) {
                None => {
                    return Err(CraftRunError::InvalidRecipeId { text: recipe_id.clone() });
                },
                Some(id) => id,
            };
            let r = match last_recipe_index(recipes, id) {
                None => {
                    return Err(CraftRunError::RecipeNotFound { recipe_id: id });
                },
                Some(r) => r,
            };
            proof {
                lemma_last_recipe(recipes@, id, recipes@.len() as int);
            }
            let recipe = &recipes[r];
            Ok(Some(CraftWorkUnit {
                recipe: CraftRecipe {
                    recipe_id: id,
                    output_item_kind: recipe.output_item_kind.clone(),
                    output_yield: recipe.output_yield,
                    ingredients: copy_ingredients(&recipe.ingredients),
                    crafts: *crafts,
                },
                locations: CraftLocations {
                    engine,
                    input_container_id: container_id,
                    input_container: container_position,
                    output_container_id: container_id,
                    output_container: container_position,
                    output_container_capacity: container_capacity,
                },
                progress: CraftProgress { completed_crafts: 0, input_snapshot: None, output_snapshot: None },
            }))
        },
        _ => Ok(None),
    }
}

/// Whether `container` can take one more stack of craft output: it lies in
/// one of `bulk_regions` and holds fewer stacks than it has slots.
pub open spec fn takes_output<P>(container: Container<P>, bulk_regions: Seq<u128>) -> bool {
    bulk_regions.contains(container.region_id) && container.contents@.len() < container.capacity
}

/// The first of `containers[i..]` that can take a stack of craft output.
pub open spec fn first_output_container<P>(containers: Seq<Container<P>>, bulk_regions: Seq<u128>, i: int) -> Option<int>
    decreases containers.len() - i,
{
    if i < 0 || i >= containers.len() {
        None
    } else if takes_output(containers[i], bulk_regions) {
        Some(i)
    } else {
        first_output_container(containers, bulk_regions, i + 1)
    }
}

pub proof fn lemma_first_output_container<P>(containers: Seq<Container<P>>, bulk_regions: Seq<u128>, i: int)
    requires
        0 <= i,
    ensures
        first_output_container(containers, bulk_regions, i) matches Some(d) ==> i <= d < containers.len()
            && takes_output(containers[d], bulk_regions),
    decreases containers.len() - i,
{
    if i < containers.len() && !takes_output(containers[i], bulk_regions) {
        lemma_first_output_container(containers, bulk_regions, i + 1);
    }
}

/// The move that takes `stack` out of the processing container into `slot`:
/// all of the stack, or nothing of a stack with a negative quantity.
pub open spec fn output_move(stack: ItemStack, slot: usize) -> ItemMove {
    ItemMove { from_slot: stack.slot as usize, to_slot: slot, quantity: if stack.quantity > 0 { stack.quantity as u32 } else { 0 } }
}

/// Whether `region` is one of `bulk_regions`.
fn is_bulk_region(bulk_regions: &Vec<u128>, region: u128) -> (found: bool)
    ensures
        found == bulk_regions@.contains(region),
{
    let mut i: usize = 0;
    while i < bulk_regions.len()
        invariant
            i <= bulk_regions@.len(),
            forall|j: int| 0 <= j < i ==> bulk_regions@[j] != region,
        decreases bulk_regions.len() - i,
    {
        if bulk_regions[i] == region {
            return true;
        }
        i = i + 1;
    }
    false
}

/// Places one stack of craft output from the processing container into bulk
/// storage: into the first container of `containers` that lies in a bulk
/// region and holds fewer stacks than it has slots, at its first free slot.
/// That container then holds the stack there. Returns the container's index
/// and the move; fails, changing nothing, when no such container or slot is
/// found.
pub fn place_output_stack<P>(containers: &mut Vec<Container<P>>, bulk_regions: &Vec<u128>, stack: &ItemStack) -> (placed: Result<(usize, ItemMove), CraftRunError>)
    ensures
        match first_output_container(old(containers)@, bulk_regions@, 0) {
            None => placed matches Err(CraftRunError::NoBulkSlot) && final(containers)@ == old(containers)@,
            Some(d) => match next_free_slot(old(containers)@[d], 0) {
                None => placed matches Err(CraftRunError::NoBulkSlot) && final(containers)@ == old(containers)@,
                Some(slot) => {
                    &&& placed == Ok::<(usize, ItemMove), CraftRunError>((d as usize, output_move(*stack, slot)))
                    &&& final(containers)@.len() == old(containers)@.len()
                    &&& forall|k: int| 0 <= k < old(containers)@.len() && k != d ==> #[trigger] final(containers)@[k] == old(containers)@[k]
                    &&& final(containers)@[d].id == old(containers)@[d].id
                    &&& final(containers)@[d].region_id == old(containers)@[d].region_id
                    &&& final(containers)@[d].position == old(containers)@[d].position
                    &&& final(containers)@[d].capacity == old(containers)@[d].capacity
                    &&& final(containers)@[d].contents@ == old(containers)@[d].contents@.push((slot, *stack))
                },
            },
        },
{
    let mut d: usize = 0;
    while d < containers.len()
        invariant
            d <= containers@.len(),
            containers@ == old(containers)@,
            first_output_container(old(containers)@, bulk_regions@, 0) == first_output_container(old(containers)@, bulk_regions@, d as int),
        ensures
            d <= containers@.len(),
            containers@ == old(containers)@,
            d < containers@.len() ==> first_output_container(old(containers)@, bulk_regions@, 0) == Some(d as int),
            d == containers@.len() ==> first_output_container(old(containers)@, bulk_regions@, 0) is None,
        decreases containers.len() - d,
    {
        let fits = (containers[d].contents.len() as u64) < containers[d].capacity;
        if fits && is_bulk_region(bulk_regions, containers[d].region_id) {
            break;
        }
        d = d + 1;
    }
    if d == containers.len() {
        return Err(CraftRunError::NoBulkSlot);
    }
    let slot = match find_free_slot(&containers[d], 0) {
        Some(slot) => slot,
        None => {
            return Err(CraftRunError::NoBulkSlot);
        },
    };
    let ghost before = containers@;
    let mut container = containers.remove(d);
    container.contents.push((slot, stack.copy()));
    containers.insert(d, container);
    proof {
        assert forall|k: int| 0 <= k < before.len() && k != d implies #[trigger] containers@[k] == before[k] by {
            if k < d {
                assert(containers@[k] == before.remove(d as int)[k]);
            } else {
                assert(containers@[k] == before.remove(d as int)[k - 1]);
            }
        }
    }
    let quantity: u32 = if stack.quantity > 0 { stack.quantity as u32 } else { 0 };
    Ok((d, ItemMove { from_slot: stack.slot as usize, to_slot: slot, quantity }))
}

/// The craft job a request runs for: its job id, when it has one that parses.
pub fn request_job_id(request: &crate::crafting::CraftPlanRequest) -> (job: Option<u128>)
    ensures
        job == match request.job_id {
            Some(text) => uuid_parse(text@),
            None => None,
        },
{
    match &request.job_id {
        Some(text) => parse_uuid(text.as_str()),
        None => None,
    }
}

} // verus!
