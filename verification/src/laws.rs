//! Properties of the library that span its functions: what splitting,
//! placing, lowering and grouping keep, whatever the inputs.
use crate::capacity::{after, fill_pass, merge_pass, min_u32, spec_allocate, CapacityModel, Pass, StackModel};
use crate::lowering::{first_with_items, lemma_first_with_items, lower_line, min_u64, ContainerPair, LoweringOutcome, PlannedDestination, SourcePlacement};
use crate::grouping::{groups_of, group_index, insert_group, insert_index, lemma_group_index, lemma_insert_index, Emission, GroupKey};
use crate::transfer::{job_counts, line_state, slots_for, split_quantities, TransferDocumentJob, TransferDocumentJobState, TransferLineState};
use crate::work::{covers_moves, ItemMove};
use crate::crafting::{available_of, recipe_is_available, spec_options, OptionModel, child_key, div_ceil, saturating_mul, spec_build_node, spec_children, spec_recipe_node, yields_positive, CraftIngredient, CraftSelection, NodeKindModel, Recipe};
use crate::putaway_run::{run_action, PutawayAction, PutawayError, PutawayStage};
use vstd::prelude::*;

verus! {

/// Sum of the quantities of placements.
pub open spec fn placed_total(placements: Seq<(usize, u32)>) -> int
    decreases placements.len(),
{
    if placements.len() == 0 {
        0
    } else {
        placements[0].1 + placed_total(placements.drop_first())
    }
}

pub proof fn lemma_placed_total_concat(a: Seq<(usize, u32)>, b: Seq<(usize, u32)>)
    ensures
        placed_total(a + b) == placed_total(a) + placed_total(b),
    decreases a.len(),
{
    if a.len() > 0 {
        assert((a + b).drop_first() =~= a.drop_first() + b);
        lemma_placed_total_concat(a.drop_first(), b);
    } else {
        assert(a + b =~= b);
    }
}

pub proof fn lemma_placed_single(slot: usize, q: u32)
    ensures
        placed_total(seq![(slot, q)]) == q,
{
    assert(seq![(slot, q)].drop_first() =~= Seq::<(usize, u32)>::empty());
    reveal_with_fuel(placed_total, 2);
}

/// What a merge pass places and what it leaves add up to what it was asked
/// to place, and it reports success exactly when nothing is left.
pub proof fn lemma_merge_pass_conserves(slots: Seq<Option<StackModel>>, item_kind: Seq<char>, digest: Seq<char>, remaining: u32, i: int)
    ensures
        placed_total(merge_pass(slots, item_kind, digest, remaining, i).1) + merge_pass(slots, item_kind, digest, remaining, i).2 == remaining,
        merge_pass(slots, item_kind, digest, remaining, i).3 ==> merge_pass(slots, item_kind, digest, remaining, i).2 == 0,
    decreases slots.len() - i,
{
    if 0 <= i < slots.len() {
        if crate::capacity::can_merge(slots[i], item_kind, digest) {
            let s = slots[i]->0;
            let placed = min_u32(remaining, (s.max_quantity - s.quantity) as u32);
            let next = slots.update(i, Some(StackModel { quantity: (s.quantity + placed) as u32, ..s }));
            lemma_placed_single(i as usize, placed);
            if remaining - placed != 0 {
                lemma_merge_pass_conserves(next, item_kind, digest, (remaining - placed) as u32, i + 1);
                lemma_placed_total_concat(seq![(i as usize, placed)], merge_pass(next, item_kind, digest, (remaining - placed) as u32, i + 1).1);
            }
        } else {
            lemma_merge_pass_conserves(slots, item_kind, digest, remaining, i + 1);
        }
    } else {
        assert(placed_total(Seq::<(usize, u32)>::empty()) == 0);
    }
}

/// The same holds of a fill pass.
pub proof fn lemma_fill_pass_conserves(
    slots: Seq<Option<StackModel>>,
    capacity: int,
    item_kind: Seq<char>,
    digest: Seq<char>,
    max_quantity: u32,
    remaining: u32,
    s: int,
)
    ensures
        placed_total(fill_pass(slots, capacity, item_kind, digest, max_quantity, remaining, s).1)
            + fill_pass(slots, capacity, item_kind, digest, max_quantity, remaining, s).2 == remaining,
        fill_pass(slots, capacity, item_kind, digest, max_quantity, remaining, s).3
            ==> fill_pass(slots, capacity, item_kind, digest, max_quantity, remaining, s).2 == 0,
    decreases capacity - s,
{
    if 0 <= s < capacity {
        if slots[s] is Some {
            lemma_fill_pass_conserves(slots, capacity, item_kind, digest, max_quantity, remaining, s + 1);
        } else {
            let placed = min_u32(remaining, max_quantity);
            let next = slots.update(s, Some(StackModel { item_kind, components_digest: digest, quantity: placed, max_quantity }));
            lemma_placed_single(s as usize, placed);
            if remaining - placed != 0 {
                lemma_fill_pass_conserves(next, capacity, item_kind, digest, max_quantity, (remaining - placed) as u32, s + 1);
                lemma_placed_total_concat(seq![(s as usize, placed)],
                    fill_pass(next, capacity, item_kind, digest, max_quantity, (remaining - placed) as u32, s + 1).1);
            }
        }
    } else {
        assert(placed_total(Seq::<(usize, u32)>::empty()) == 0);
    }
}

/// Whenever a placement succeeds, its placements add up to exactly the
/// quantity asked for: nothing is lost or made up.
pub proof fn law_allocate_conserves_quantity(m: CapacityModel, item_kind: Seq<char>, digest: Seq<char>, quantity: u32, max_quantity: u32)
    ensures
        spec_allocate(m, item_kind, digest, quantity, max_quantity) matches Some((placements, _))
            ==> placed_total(placements) == quantity,
{
    lemma_merge_pass_conserves(m.slots, item_kind, digest, quantity, 0);
    let merged = merge_pass(m.slots, item_kind, digest, quantity, 0);
    if !merged.3 {
        lemma_fill_pass_conserves(merged.0, m.capacity as int, item_kind, digest, max_quantity, merged.2, 0);
        let filled = fill_pass(merged.0, m.capacity as int, item_kind, digest, max_quantity, merged.2, 0);
        lemma_placed_total_concat(merged.1, filled.1);
    }
}

/// A transfer request needs exactly as many stack-sized slots as it is
/// split into jobs when accepted.
pub proof fn law_required_slots_match_jobs(quantity: u64, stack_size: i32)
    requires
        stack_size >= 1,
    ensures
        slots_for(quantity, stack_size) == split_quantities(quantity as nat, stack_size as nat).len(),
    decreases quantity,
{
    let q = quantity as int;
    let s = stack_size as int;
    if quantity == 0 {
        vstd::arithmetic::div_mod::lemma_basic_div(0, s);
        vstd::arithmetic::div_mod::lemma_small_mod(0, s as nat);
    } else if q < s {
        vstd::arithmetic::div_mod::lemma_basic_div(q, s);
        vstd::arithmetic::div_mod::lemma_small_mod(q as nat, s as nat);
    } else if q == s {
        vstd::arithmetic::div_mod::lemma_div_by_self(s);
        vstd::arithmetic::div_mod::lemma_mod_self_0(s);
    } else {
        law_required_slots_match_jobs((quantity - stack_size as u64) as u64, stack_size);
        vstd::arithmetic::div_mod::lemma_div_minus_one(q, s);
        vstd::arithmetic::div_mod::lemma_mod_sub_multiples_vanish(q, s);
        assert(-s + q == q - s);
    }
}

/// A line whose jobs are all available is itself available: in particular
/// every line of a freshly accepted document.
pub proof fn law_untouched_line_is_available(jobs: Seq<TransferDocumentJob>, key: (Seq<char>, Seq<char>, i32))
    requires
        forall|j: int| 0 <= j < jobs.len() ==> #[trigger] jobs[j].state == TransferDocumentJobState::Available,
    ensures
        line_state(jobs, key) == TransferLineState::Available,
{
    lemma_no_moved_jobs(jobs, key, jobs.len() as int);
}

pub proof fn lemma_no_moved_jobs(jobs: Seq<TransferDocumentJob>, key: (Seq<char>, Seq<char>, i32), n: int)
    requires
        0 <= n <= jobs.len(),
        forall|j: int| 0 <= j < jobs.len() ==> #[trigger] jobs[j].state == TransferDocumentJobState::Available,
    ensures
        job_counts(jobs, key, n).1 == 0,
        job_counts(jobs, key, n).2 == 0,
    decreases n,
{
    if n > 0 {
        lemma_no_moved_jobs(jobs, key, n - 1);
    }
}

/// A line whose jobs have all been completed, and that has at least one, is completed.
pub proof fn law_finished_line_is_completed(jobs: Seq<TransferDocumentJob>, key: (Seq<char>, Seq<char>, i32))
    requires
        forall|j: int| 0 <= j < jobs.len() ==> #[trigger] jobs[j].state == TransferDocumentJobState::Completed,
        exists|j: int| 0 <= j < jobs.len() && crate::transfer::sku_key(#[trigger] jobs[j].sku) == key,
    ensures
        line_state(jobs, key) == TransferLineState::Completed,
{
    lemma_all_completed_jobs(jobs, key, jobs.len() as int);
    let w = choose|j: int| 0 <= j < jobs.len() && crate::transfer::sku_key(#[trigger] jobs[j].sku) == key;
    lemma_completed_count_positive(jobs, key, jobs.len() as int, w);
}

pub proof fn lemma_all_completed_jobs(jobs: Seq<TransferDocumentJob>, key: (Seq<char>, Seq<char>, i32), n: int)
    requires
        0 <= n <= jobs.len(),
        forall|j: int| 0 <= j < jobs.len() ==> #[trigger] jobs[j].state == TransferDocumentJobState::Completed,
    ensures
        job_counts(jobs, key, n).0 == 0,
        job_counts(jobs, key, n).1 == 0,
    decreases n,
{
    if n > 0 {
        lemma_all_completed_jobs(jobs, key, n - 1);
    }
}

pub proof fn lemma_completed_count_positive(jobs: Seq<TransferDocumentJob>, key: (Seq<char>, Seq<char>, i32), n: int, w: int)
    requires
        0 <= w < n <= jobs.len(),
        crate::transfer::sku_key(jobs[w].sku) == key,
        forall|j: int| 0 <= j < jobs.len() ==> #[trigger] jobs[j].state == TransferDocumentJobState::Completed,
    ensures
        job_counts(jobs, key, n).2 > 0,
    decreases n,
{
    if w < n - 1 {
        lemma_completed_count_positive(jobs, key, n - 1, w);
    }
}

/// Sum of the quantities of moves.
pub open spec fn moved_total<K, P>(emissions: Seq<Emission<K, P>>) -> int
    decreases emissions.len(),
{
    if emissions.len() == 0 {
        0
    } else {
        emissions[0].2.quantity + moved_total(emissions.drop_first())
    }
}

pub proof fn lemma_moved_total_prepend<K, P>(e: Emission<K, P>, rest: Seq<Emission<K, P>>)
    ensures
        moved_total(seq![e] + rest) == e.2.quantity + moved_total(rest),
{
    assert((seq![e] + rest).drop_first() =~= rest);
}

/// Lowering a line moves exactly the line's quantity, each move at most a
/// stack, whenever it succeeds.
pub proof fn law_lowering_moves_line_quantity<P>(
    sources: Seq<SourcePlacement<P>>,
    destinations: Seq<PlannedDestination<P>>,
    capacity: u64,
    quantity: u64,
    si: int,
    di: int,
    room: u64,
)
    requires
        1 <= capacity <= i32::MAX,
        room <= capacity,
    ensures
        lower_line(sources, destinations, capacity, quantity, si, di, room) matches LoweringOutcome::Planned(emissions) ==> {
            &&& moved_total(emissions) == quantity
            &&& forall|k: int| 0 <= k < emissions.len() ==> 1 <= (#[trigger] emissions[k]).2.quantity <= capacity
        },
    decreases quantity,
{
    if quantity > 0 {
        let s = first_with_items(sources, if si < 0 { 0 } else { si });
        lemma_first_with_items(sources, if si < 0 { 0 } else { si });
        if 0 <= s < sources.len() && 0 <= di < destinations.len() && room != 0 {
            let source = sources[s];
            let destination = destinations[di];
            let moved = min_u64(min_u64(quantity, source.remaining), room);
            let e = (
                ContainerPair { from: source.container_id, to: destination.container_id },
                (source.position, destination.position),
                ItemMove { from_slot: source.slot, to_slot: destination.slot, quantity: moved as u32 },
            );
            let sources2 = sources.update(s, SourcePlacement { remaining: (source.remaining - moved) as u64, ..source });
            let filled = room - moved == 0;
            let di2 = if filled { di + 1 } else { di };
            let room2 = if filled { capacity } else { (room - moved) as u64 };
            law_lowering_moves_line_quantity(sources2, destinations, capacity, (quantity - moved) as u64, s, di2, room2);
            match lower_line(sources2, destinations, capacity, (quantity - moved) as u64, s, di2, room2) {
                LoweringOutcome::Planned(rest) => {
                    lemma_moved_total_prepend(e, rest);
                    let all = seq![e] + rest;
                    assert forall|k: int| 0 <= k < all.len() implies 1 <= (#[trigger] all[k]).2.quantity <= capacity by {
                        if k > 0 {
                            assert(all[k] == rest[k - 1]);
                        }
                    }
                },
                _ => {},
            }
        }
    } else {
        assert(moved_total(Seq::<Emission<ContainerPair, (P, P)>>::empty()) == 0);
    }
}

/// A transfer is done only when its completed moves are each move index
/// exactly once: none is missing and none is counted twice.
pub proof fn law_done_transfer_completes_each_move_once(completed: Seq<usize>, n: int)
    requires
        completed.len() == n,
        n <= usize::MAX,
        covers_moves(completed, n),
    ensures
        completed.no_duplicates(),
{
    broadcast use vstd::seq_lib::seq_to_set_is_finite;
    let ci = completed.map_values(|x: usize| x as int);
    let range = vstd::set_lib::set_int_range(0, n);
    vstd::set_lib::lemma_int_range(0, n);
    assert forall|i: int| range.contains(i) implies ci.to_set().contains(i) by {
        assert(completed.contains(i as usize));
        let k = choose|k: int| 0 <= k < completed.len() && completed[k] == i as usize;
        assert(ci[k] == i);
    }
    assert(range.subset_of(ci.to_set()));
    vstd::set_lib::lemma_len_subset(range, ci.to_set());
    ci.lemma_cardinality_of_set();
    ci.lemma_no_dup_set_cardinality();
    assert forall|a: int, b: int| 0 <= a < completed.len() && 0 <= b < completed.len() && a != b
        implies completed[a] != completed[b] by {
        assert(ci[a] == completed[a] as int && ci[b] == completed[b] as int);
    }
}

/// Where `insert_index` puts a key: after every group it does not precede,
/// before the one it precedes.
pub proof fn lemma_insert_index_bounds<K: GroupKey, P>(groups: Seq<(K, P)>, key: K, i: int)
    requires
        0 <= i <= groups.len(),
    ensures
        forall|m: int| i <= m < insert_index(groups, key, i) ==> !key.precedes(#[trigger] groups[m].0),
        insert_index(groups, key, i) < groups.len() ==> key.precedes(groups[insert_index(groups, key, i)].0),
    decreases groups.len() - i,
{
    if i < groups.len() && !key.precedes(groups[i].0) {
        lemma_insert_index_bounds(groups, key, i + 1);
    }
}

/// Groups in strictly increasing key order.
pub open spec fn keys_increasing<K: GroupKey, P>(groups: Seq<(K, P)>) -> bool {
    forall|a: int, b: int| 0 <= a < b < groups.len() ==> (#[trigger] groups[a].0).precedes(#[trigger] groups[b].0)
}

/// Under a strict total order on keys, the groups of any emissions come
/// out in strictly increasing key order.
pub proof fn lemma_groups_increasing<K: GroupKey, P>(emissions: Seq<Emission<K, P>>, n: int)
    requires
        0 <= n <= emissions.len(),
        forall|a: K, b: K, c: K| #[trigger] a.precedes(b) && #[trigger] b.precedes(c) ==> a.precedes(c),
        forall|a: K, b: K| a != b ==> #[trigger] a.precedes(b) || #[trigger] b.precedes(a),
        forall|a: K| !(#[trigger] a.precedes(a)),
    ensures
        keys_increasing(groups_of(emissions, n)),
    decreases n,
{
    if n > 0 {
        lemma_groups_increasing(emissions, n - 1);
        let gs = groups_of(emissions, n - 1);
        let key = emissions[n - 1].0;
        lemma_group_index(gs, key, 0);
        if group_index(gs, key, 0) is None {
            let at = insert_index(gs, key, 0);
            lemma_insert_index(gs, key, 0);
            lemma_insert_index_bounds(gs, key, 0);
            let g2 = gs.insert(at, (key, emissions[n - 1].1));
            assert(groups_of(emissions, n) == g2);
            assert forall|a: int, b: int| 0 <= a < b < g2.len() implies (#[trigger] g2[a].0).precedes(#[trigger] g2[b].0) by {
                if a == at {
                    assert(g2[b] == gs[b - 1]);
                    if b - 1 > at {
                        assert(gs[at].0.precedes(gs[b - 1].0));
                    }
                } else if b == at {
                    assert(g2[a] == gs[a]);
                    assert(!key.precedes(gs[a].0));
                    assert(gs[a].0 != key);
                } else {
                    let a0 = if a < at { a } else { a - 1 };
                    let b0 = if b < at { b } else { b - 1 };
                    assert(g2[a] == gs[a0]);
                    assert(g2[b] == gs[b0]);
                }
            }
        }
    }
}

/// Staging transfers come out in strictly increasing order of source and
/// container: storage before dependencies, dependencies by node, then by container.
pub proof fn law_staging_groups_in_order<P>(emissions: Seq<Emission<crate::staging::SourceKey, P>>)
    ensures
        keys_increasing(groups_of(emissions, emissions.len() as int)),
{
    lemma_groups_increasing(emissions, emissions.len() as int);
}

/// Cleanup transfers come out in strictly increasing order of destination container.
pub proof fn law_cleanup_groups_in_order<P>(emissions: Seq<Emission<u128, P>>)
    ensures
        keys_increasing(groups_of(emissions, emissions.len() as int)),
{
    lemma_groups_increasing(emissions, emissions.len() as int);
}

/// Lowered putaway transfers come out in strictly increasing order of
/// source, then destination container: one transfer per container pair.
pub proof fn law_lowered_transfers_in_order<P>(emissions: Seq<Emission<ContainerPair, (P, P)>>)
    ensures
        keys_increasing(groups_of(emissions, emissions.len() as int)),
{
    lemma_groups_increasing(emissions, emissions.len() as int);
}

/// Where `sorted_insert_index` puts an item: after every item it does not
/// sort before, before the one it sorts before.
pub proof fn lemma_sorted_insert_bounds<T: crate::sorting::SortKey>(sorted: Seq<T>, item: T, i: int)
    requires
        0 <= i <= sorted.len(),
    ensures
        forall|m: int| i <= m < crate::sorting::sorted_insert_index(sorted, item, i) ==> !item.sorts_before(#[trigger] sorted[m]),
        crate::sorting::sorted_insert_index(sorted, item, i) < sorted.len()
            ==> item.sorts_before(sorted[crate::sorting::sorted_insert_index(sorted, item, i)]),
    decreases sorted.len() - i,
{
    if i < sorted.len() && !item.sorts_before(sorted[i]) {
        lemma_sorted_insert_bounds(sorted, item, i + 1);
    }
}

/// No item sorts before an item ahead of it.
pub open spec fn in_sort_order<T: crate::sorting::SortKey>(items: Seq<T>) -> bool {
    forall|a: int, b: int| 0 <= a < b < items.len() ==> !(#[trigger] items[b]).sorts_before(#[trigger] items[a])
}

/// Under a strict order that is also transitive across ties, stable sorting
/// puts items in sort order.
pub proof fn lemma_stable_sorted_in_order<T: crate::sorting::SortKey>(items: Seq<T>, n: int)
    requires
        0 <= n <= items.len(),
        forall|a: T, b: T, c: T| #[trigger] a.sorts_before(b) && #[trigger] b.sorts_before(c) ==> a.sorts_before(c),
        forall|a: T, b: T, c: T| #![trigger a.sorts_before(b), c.sorts_before(b)] a.sorts_before(b) && !c.sorts_before(b) ==> a.sorts_before(c),
        forall|a: T| !(#[trigger] a.sorts_before(a)),
    ensures
        in_sort_order(crate::sorting::stable_sorted(items, n)),
    decreases n,
{
    if n > 0 {
        lemma_stable_sorted_in_order(items, n - 1);
        let prev = crate::sorting::stable_sorted(items, n - 1);
        let item = items[n - 1];
        let at = crate::sorting::sorted_insert_index(prev, item, 0);
        crate::sorting::lemma_sorted_insert_index(prev, item, 0);
        lemma_sorted_insert_bounds(prev, item, 0);
        let next = prev.insert(at, item);
        assert(crate::sorting::stable_sorted(items, n) == next);
        assert forall|a: int, b: int| 0 <= a < b < next.len() implies !(#[trigger] next[b]).sorts_before(#[trigger] next[a]) by {
            if a == at {
                assert(next[b] == prev[b - 1]);
                assert(item.sorts_before(prev[at]));
                if b - 1 > at {
                    assert(!prev[b - 1].sorts_before(prev[at]));
                    assert(item.sorts_before(prev[b - 1]));
                }
            } else if b == at {
                assert(next[a] == prev[a]);
                assert(!item.sorts_before(prev[a]));
            } else {
                let a0 = if a < at { a } else { a - 1 };
                let b0 = if b < at { b } else { b - 1 };
                assert(next[a] == prev[a0]);
                assert(next[b] == prev[b0]);
            }
        }
    }
}

/// Regions come out ordered by priority, then id.
pub proof fn law_regions_in_priority_order(keys: Seq<crate::regions::RegionKey>)
    ensures
        in_sort_order(crate::sorting::stable_sorted(keys, keys.len() as int)),
{
    lemma_stable_sorted_in_order(keys, keys.len() as int);
}

/// Work units are reported claimed first, then queued, then completed, each
/// group by priority, then id.
pub proof fn law_status_in_report_order(units: Seq<crate::status::WorkUnitStatus>)
    ensures
        in_sort_order(crate::status::report_order(units)),
{
    lemma_stable_sorted_in_order(crate::status::status_keys(units), units.len() as int);
}

/// Moves sorted for a transfer come out ordered by source, then destination slot.
pub proof fn law_moves_in_slot_order(moves: Seq<ItemMove>)
    ensures
        in_sort_order(crate::sorting::stable_sorted(moves, moves.len() as int)),
{
    lemma_stable_sorted_in_order(moves, moves.len() as int);
}

pub proof fn lemma_moved_total_concat<K, P>(a: Seq<Emission<K, P>>, b: Seq<Emission<K, P>>)
    ensures
        moved_total(a + b) == moved_total(a) + moved_total(b),
    decreases a.len(),
{
    if a.len() > 0 {
        assert((a + b).drop_first() =~= a.drop_first() + b);
        lemma_moved_total_concat(a.drop_first(), b);
    } else {
        assert(a + b =~= b);
    }
}

pub proof fn lemma_placement_moves_total<K, P>(placements: Seq<(usize, u32)>, key: K, position: P, from_slot: usize)
    ensures
        moved_total(crate::staging::placement_moves(placements, key, position, from_slot)) == placed_total(placements),
    decreases placements.len(),
{
    let moves = crate::staging::placement_moves(placements, key, position, from_slot);
    if placements.len() > 0 {
        lemma_placement_moves_total(placements.drop_first(), key, position, from_slot);
        assert(moves.drop_first() =~= crate::staging::placement_moves(placements.drop_first(), key, position, from_slot));
    }
}

/// Staging one requirement from its stacks moves what it takes, and what
/// it moves and what remains add up to what was asked.
pub proof fn lemma_stage_stacks_conserves<P>(
    requirement: crate::staging::StagingRequirement,
    stacks: Seq<(String, crate::staging::StagingSource, crate::staging::ItemKindStackRow<P>)>,
    destination: u128,
    capacity: CapacityModel,
    sizes: crate::item_stack::StackSizes,
    remaining: u32,
    j: int,
)
    ensures
        crate::staging::stage_stacks(requirement, stacks, destination, capacity, sizes, remaining, j)
            matches crate::staging::PassOutcome::Planned { emissions, remaining: left, .. }
            ==> moved_total(emissions) + left == remaining,
    decreases stacks.len() - j,
{
    if 0 <= j < stacks.len() {
        if !crate::staging::stack_matches(requirement, stacks[j], destination) {
            lemma_stage_stacks_conserves(requirement, stacks, destination, capacity, sizes, remaining, j + 1);
        } else if remaining != 0 {
            let row = stacks[j];
            let quantity = min_u32(remaining, row.2.quantity as u32);
            let size = sizes.size_of(row.0@);
            law_allocate_conserves_quantity(capacity, row.0@, row.2.components_digest@, quantity, size);
            match spec_allocate(capacity, row.0@, row.2.components_digest@, quantity, size) {
                Some((placements, slots)) => if row.2.slot >= 0 {
                    let key = crate::staging::SourceKey { source: row.1, container: row.2.container_id };
                    let own = crate::staging::placement_moves(placements, key, row.2.position, row.2.slot as usize);
                    lemma_placement_moves_total(placements, key, row.2.position, row.2.slot as usize);
                    let next = CapacityModel { capacity: capacity.capacity, slots };
                    lemma_stage_stacks_conserves(requirement, stacks, destination, next, sizes, (remaining - quantity) as u32, j + 1);
                    match crate::staging::stage_stacks(requirement, stacks, destination, next, sizes, (remaining - quantity) as u32, j + 1) {
                        crate::staging::PassOutcome::Planned { emissions, .. } => {
                            lemma_moved_total_concat(own, emissions);
                        },
                        _ => {},
                    }
                },
                None => {},
            }
        } else {
            assert(moved_total(Seq::<Emission<crate::staging::SourceKey, P>>::empty()) == 0);
        }
    } else {
        assert(moved_total(Seq::<Emission<crate::staging::SourceKey, P>>::empty()) == 0);
    }
}

/// Sum of the quantities of `requirements[r..]`.
pub open spec fn requirements_total(requirements: Seq<crate::staging::StagingRequirement>, r: int) -> int
    decreases requirements.len() - r,
{
    if r < 0 || r >= requirements.len() {
        0
    } else {
        requirements[r].quantity + requirements_total(requirements, r + 1)
    }
}

/// Whenever staging is planned, its moves carry exactly the quantities the
/// requirements ask for, in total.
pub proof fn law_staging_moves_what_is_required<P>(
    requirements: Seq<crate::staging::StagingRequirement>,
    stacks: Seq<(String, crate::staging::StagingSource, crate::staging::ItemKindStackRow<P>)>,
    destination: u128,
    capacity: CapacityModel,
    sizes: crate::item_stack::StackSizes,
    r: int,
)
    requires
        0 <= r,
    ensures
        crate::staging::stage_requirements(requirements, stacks, destination, capacity, sizes, r)
            matches crate::staging::PassOutcome::Planned { emissions, .. }
            ==> moved_total(emissions) == requirements_total(requirements, r),
    decreases requirements.len() - r,
{
    if r < requirements.len() {
        lemma_stage_stacks_conserves(requirements[r], stacks, destination, capacity, sizes, requirements[r].quantity, 0);
        match crate::staging::stage_stacks(requirements[r], stacks, destination, capacity, sizes, requirements[r].quantity, 0) {
            crate::staging::PassOutcome::Planned { emissions, capacity: next, remaining } => if remaining == 0 {
                law_staging_moves_what_is_required(requirements, stacks, destination, next, sizes, r + 1);
                match crate::staging::stage_requirements(requirements, stacks, destination, next, sizes, r + 1) {
                    crate::staging::PassOutcome::Planned { emissions: rest, .. } => {
                        lemma_moved_total_concat(emissions, rest);
                    },
                    _ => {},
                }
            },
            _ => {},
        }
    } else {
        assert(moved_total(Seq::<Emission<crate::staging::SourceKey, P>>::empty()) == 0);
    }
}

/// Siblings of a craft job's execution tree come in their stored order.
pub proof fn law_children_in_stored_order(records: Seq<crate::exec_tree::CraftJobNodeRecord>, id: u128)
    ensures
        in_sort_order(crate::exec_tree::children_of(records, id)),
{
    let refs = crate::exec_tree::child_refs(records, id, records.len() as int);
    lemma_stable_sorted_in_order(refs, refs.len() as int);
}

/// The counts of queued, claimed and completed work units add up to the total.
pub proof fn law_state_counts_add_up(units: Seq<crate::status::WorkUnitStatus>, n: int)
    requires
        0 <= n <= units.len(),
    ensures
        crate::status::count_in_state(units, crate::status::WorkUnitStatusState::Queued, n)
            + crate::status::count_in_state(units, crate::status::WorkUnitStatusState::Claimed, n)
            + crate::status::count_in_state(units, crate::status::WorkUnitStatusState::Completed, n) == n,
    decreases n,
{
    if n > 0 {
        law_state_counts_add_up(units, n - 1);
    }
}

/// A stack of craft output goes into a container of a bulk region that held
/// fewer stacks than slots, at a slot below its capacity that no stack held.
pub proof fn law_output_goes_to_free_bulk_slot<P>(containers: Seq<crate::item_stack::Container<P>>, bulk_regions: Seq<u128>)
    ensures
        crate::craft_run::first_output_container(containers, bulk_regions, 0) matches Some(d) ==> {
            &&& 0 <= d < containers.len()
            &&& bulk_regions.contains(containers[d].region_id)
            &&& containers[d].contents@.len() < containers[d].capacity
            &&& crate::craft_run::next_free_slot(containers[d], 0) matches Some(slot) ==> {
                &&& slot < containers[d].capacity as usize
                &&& !crate::craft_run::slot_taken(containers[d].contents@, slot as int)
            }
        },
{
    crate::craft_run::lemma_first_output_container(containers, bulk_regions, 0);
    if let Some(d) = crate::craft_run::first_output_container(containers, bulk_regions, 0) {
        crate::craft_run::lemma_next_free_slot(containers[d], 0);
        lemma_next_free_slot_is_free(containers[d], 0);
    }
}

/// The slot `next_free_slot` finds holds no stack.
pub proof fn lemma_next_free_slot_is_free<P>(container: crate::item_stack::Container<P>, cursor: int)
    requires
        0 <= cursor,
    ensures
        crate::craft_run::next_free_slot(container, cursor) matches Some(s)
            ==> !crate::craft_run::slot_taken(container.contents@, s as int),
    decreases (container.capacity as usize) - cursor,
{
    if cursor < container.capacity as usize && crate::craft_run::slot_taken(container.contents@, cursor) {
        lemma_next_free_slot_is_free(container, cursor + 1);
    }
}

/// Container groups are listed with known priorities first, highest first,
/// then by region id.
pub proof fn law_groups_in_listing_order(orders: Seq<crate::container_groups::GroupOrder>)
    ensures
        in_sort_order(crate::sorting::stable_sorted(orders, orders.len() as int)),
{
    lemma_stable_sorted_in_order(orders, orders.len() as int);
}

/// Stable sorting neither loses nor repeats an item: what comes out is a
/// rearrangement of what went in.
pub proof fn law_stable_sort_rearranges<T: crate::sorting::SortKey>(items: Seq<T>, n: int)
    requires
        0 <= n <= items.len(),
    ensures
        crate::sorting::stable_sorted(items, n).to_multiset() == items.take(n).to_multiset(),
    decreases n,
{
    if n == 0 {
        assert(items.take(0) =~= Seq::<T>::empty());
    } else {
        law_stable_sort_rearranges(items, n - 1);
        let prev = crate::sorting::stable_sorted(items, n - 1);
        crate::sorting::lemma_stable_sorted_len(items, n - 1);
        crate::sorting::lemma_sorted_insert_index(prev, items[n - 1], 0);
        let at = crate::sorting::sorted_insert_index(prev, items[n - 1], 0);
        vstd::seq_lib::to_multiset_insert(prev, at, items[n - 1]);
        assert(items.take(n) =~= items.take(n - 1).push(items[n - 1]));
        vstd::seq_lib::to_multiset_build(items.take(n - 1), items[n - 1]);
    }
}

/// The stack-sized slots a whole request needs are the jobs accepting it
/// creates: one slot per job, summed over the lines.
pub proof fn law_request_slots_match_jobs(lines: Seq<crate::transfer::TransferLine>, n: int)
    requires
        0 <= n <= lines.len(),
        forall|i: int| 0 <= i < lines.len() ==> #[trigger] lines[i].sku.stack_size >= 1,
    ensures
        crate::transfer::required_slots_of(lines, n) == crate::transfer::document_job_quantities(lines, n).len(),
    decreases n,
{
    if n > 0 {
        law_request_slots_match_jobs(lines, n - 1);
        law_required_slots_match_jobs(lines[n - 1].quantity, lines[n - 1].sku.stack_size);
    }
}

/// How a line's state follows from the jobs of its own SKU: available while
/// none of them has moved (also when it has none), completed once all have,
/// else in transit with the counts of its jobs in each state.
pub proof fn law_line_state_by_sku(jobs: Seq<TransferDocumentJob>, key: (Seq<char>, Seq<char>, i32))
    ensures
        (forall|j: int| 0 <= j < jobs.len() && crate::transfer::sku_key(#[trigger] jobs[j].sku) == key
            ==> jobs[j].state == TransferDocumentJobState::Available) ==> line_state(jobs, key) == TransferLineState::Available,
        (exists|j: int| 0 <= j < jobs.len() && crate::transfer::sku_key(#[trigger] jobs[j].sku) == key)
            && (forall|j: int| 0 <= j < jobs.len() && crate::transfer::sku_key(#[trigger] jobs[j].sku) == key
            ==> jobs[j].state == TransferDocumentJobState::Completed) ==> line_state(jobs, key) == TransferLineState::Completed,
        (exists|j: int| 0 <= j < jobs.len() && crate::transfer::sku_key(#[trigger] jobs[j].sku) == key
            && jobs[j].state != TransferDocumentJobState::Available)
            && (exists|j: int| 0 <= j < jobs.len() && crate::transfer::sku_key(#[trigger] jobs[j].sku) == key
            && jobs[j].state != TransferDocumentJobState::Completed)
            ==> line_state(jobs, key) == TransferLineState::InTransit(
                job_counts(jobs, key, jobs.len() as int).0 as u64,
                job_counts(jobs, key, jobs.len() as int).1 as u64,
                job_counts(jobs, key, jobs.len() as int).2 as u64,
            ),
{
    lemma_counts_by_sku(jobs, key, jobs.len() as int);
}

/// What the counts of a SKU's jobs say about its jobs.
pub proof fn lemma_counts_by_sku(jobs: Seq<TransferDocumentJob>, key: (Seq<char>, Seq<char>, i32), n: int)
    requires
        0 <= n <= jobs.len(),
    ensures
        (job_counts(jobs, key, n).1 == 0 && job_counts(jobs, key, n).2 == 0) <==> (forall|j: int| 0 <= j < n
            && crate::transfer::sku_key(#[trigger] jobs[j].sku) == key ==> jobs[j].state == TransferDocumentJobState::Available),
        (job_counts(jobs, key, n).0 == 0 && job_counts(jobs, key, n).1 == 0) <==> (forall|j: int| 0 <= j < n
            && crate::transfer::sku_key(#[trigger] jobs[j].sku) == key ==> jobs[j].state == TransferDocumentJobState::Completed),
        (job_counts(jobs, key, n).0 + job_counts(jobs, key, n).1 + job_counts(jobs, key, n).2 == 0) <==> (forall|j: int|
            0 <= j < n ==> crate::transfer::sku_key(#[trigger] jobs[j].sku) != key),
    decreases n,
{
    if n > 0 {
        lemma_counts_by_sku(jobs, key, n - 1);
    }
}

/// What a slot holds of a kind, any digest.
pub open spec fn kind_in(slot: Option<StackModel>, item_kind: Seq<char>) -> int {
    match slot {
        Some(s) => if s.item_kind == item_kind { s.quantity as int } else { 0 },
        None => 0,
    }
}

/// The items of a kind, any digest, in `slots[i..]`.
pub open spec fn kind_from(slots: Seq<Option<StackModel>>, item_kind: Seq<char>, i: int) -> int
    decreases slots.len() - i,
{
    if i < 0 || i >= slots.len() {
        0
    } else {
        kind_in(slots[i], item_kind) + kind_from(slots, item_kind, i + 1)
    }
}

pub proof fn lemma_kind_from_update(slots: Seq<Option<StackModel>>, item_kind: Seq<char>, i: int, j: int, x: Option<StackModel>)
    requires
        0 <= i,
        0 <= j < slots.len(),
    ensures
        kind_from(slots.update(j, x), item_kind, i) == kind_from(slots, item_kind, i) + if j >= i {
            kind_in(x, item_kind) - kind_in(slots[j], item_kind)
        } else {
            0
        },
    decreases slots.len() - i,
{
    if i < slots.len() {
        lemma_kind_from_update(slots, item_kind, i + 1, j, x);
    }
}

pub proof fn lemma_kind_from_nonneg(slots: Seq<Option<StackModel>>, item_kind: Seq<char>, i: int)
    ensures
        kind_from(slots, item_kind, i) >= 0,
    decreases slots.len() - i,
{
    if 0 <= i < slots.len() {
        lemma_kind_from_nonneg(slots, item_kind, i + 1);
    }
}

pub proof fn lemma_consume_pass(slots: Seq<Option<StackModel>>, item_kind: Seq<char>, remaining: u32, i: int)
    requires
        0 <= i,
        remaining > 0,
    ensures
        crate::capacity::consume_pass(slots, item_kind, remaining, i).1 <==> kind_from(slots, item_kind, i) >= remaining,
        crate::capacity::consume_pass(slots, item_kind, remaining, i).1 ==> kind_from(
            crate::capacity::consume_pass(slots, item_kind, remaining, i).0,
            item_kind,
            0,
        ) == kind_from(slots, item_kind, 0) - remaining,
        crate::capacity::consume_pass(slots, item_kind, remaining, i).0.len() == slots.len(),
        forall|j: int| 0 <= j < slots.len() && !(slots[j] is Some && slots[j]->0.item_kind == item_kind)
            ==> #[trigger] crate::capacity::consume_pass(slots, item_kind, remaining, i).0[j] == slots[j],
    decreases slots.len() - i,
{
    if i < slots.len() {
        if slots[i] is Some && slots[i]->0.item_kind == item_kind {
            let s = slots[i]->0;
            let taken = min_u32(remaining, s.quantity);
            let left = (s.quantity - taken) as u32;
            let x = if left == 0 { None } else { Some(StackModel { quantity: left, ..s }) };
            let next = slots.update(i, x);
            lemma_kind_from_nonneg(slots, item_kind, i + 1);
            lemma_kind_from_update(slots, item_kind, 0, i, x);
            lemma_kind_from_update(slots, item_kind, i + 1, i, x);
            if remaining - taken != 0 {
                lemma_consume_pass(next, item_kind, (remaining - taken) as u32, i + 1);
                assert forall|j: int| 0 <= j < slots.len() && !(slots[j] is Some && slots[j]->0.item_kind == item_kind)
                    implies #[trigger] crate::capacity::consume_pass(slots, item_kind, remaining, i).0[j] == slots[j] by {
                    assert(next[j] == slots[j]);
                }
            }
        } else {
            lemma_consume_pass(slots, item_kind, remaining, i + 1);
        }
    }
}

/// Whether a slot holds a stack of a kind.
pub open spec fn holds_kind(slot: Option<StackModel>, item_kind: Seq<char>) -> bool {
    slot is Some && slot->0.item_kind == item_kind
}

/// `after` is `before` with a kind taken in ascending slot order from slot
/// `from` on, stopping at slot `last`: the stacks of the kind before `last`
/// were emptied and their slots freed; the stack at `last` was emptied and
/// freed, or kept with fewer items; every other slot is as it was.
pub open spec fn taken_in_order(before: Seq<Option<StackModel>>, after: Seq<Option<StackModel>>, item_kind: Seq<char>, from: int, last: int) -> bool {
    &&& after.len() == before.len()
    &&& from <= last < before.len()
    &&& holds_kind(before[last], item_kind)
    &&& forall|j: int| 0 <= j < before.len() && j != last ==> #[trigger] after[j]
        == if from <= j < last && holds_kind(before[j], item_kind) { None } else { before[j] }
    &&& (after[last] is None || {
        let (o, n) = (before[last]->0, after[last]->0);
        &&& after[last] is Some
        &&& n.item_kind == o.item_kind
        &&& n.components_digest == o.components_digest
        &&& n.max_quantity == o.max_quantity
        &&& 0 < n.quantity < o.quantity
    })
}

pub proof fn lemma_consume_in_order(slots: Seq<Option<StackModel>>, item_kind: Seq<char>, remaining: u32, i: int)
    requires
        0 <= i,
        remaining > 0,
    ensures
        crate::capacity::consume_pass(slots, item_kind, remaining, i).1 ==> exists|last: int|
            #[trigger] taken_in_order(slots, crate::capacity::consume_pass(slots, item_kind, remaining, i).0, item_kind, i, last),
    decreases slots.len() - i,
{
    let result = crate::capacity::consume_pass(slots, item_kind, remaining, i);
    if i < slots.len() {
        if holds_kind(slots[i], item_kind) {
            let s = slots[i]->0;
            let taken = min_u32(remaining, s.quantity);
            let left = (s.quantity - taken) as u32;
            let x = if left == 0 { None } else { Some(StackModel { quantity: left, ..s }) };
            let next = slots.update(i, x);
            if remaining - taken == 0 {
                assert(taken_in_order(slots, result.0, item_kind, i, i));
            } else {
                lemma_consume_in_order(next, item_kind, (remaining - taken) as u32, i + 1);
                if result.1 {
                    let last = choose|last: int| #[trigger] taken_in_order(next, result.0, item_kind, i + 1, last);
                    assert(next[last] == slots[last]);
                    assert forall|j: int| 0 <= j < slots.len() && j != last implies #[trigger] result.0[j]
                        == if i <= j < last && holds_kind(slots[j], item_kind) { None } else { slots[j] } by {
                        if j != i {
                            assert(next[j] == slots[j]);
                        }
                    }
                    assert(taken_in_order(slots, result.0, item_kind, i, last));
                }
            }
        } else {
            lemma_consume_in_order(slots, item_kind, remaining, i + 1);
            if result.1 {
                let last = choose|last: int| #[trigger] taken_in_order(slots, result.0, item_kind, i + 1, last);
                assert(taken_in_order(slots, result.0, item_kind, i, last));
            }
        }
    }
}

/// Consuming a positive quantity of a kind succeeds exactly when the stacks
/// of that kind hold at least that much; it then leaves that much less of
/// the kind, and stacks of other kinds, and empty slots, as they were. It
/// takes from the stacks of the kind in ascending slot order, freeing the
/// slot of every stack it empties (see [`taken_in_order`]).
pub proof fn law_consume_takes_what_is_there(slots: Seq<Option<StackModel>>, item_kind: Seq<char>, quantity: u32)
    requires
        quantity > 0,
    ensures
        crate::capacity::consume_pass(slots, item_kind, quantity, 0).1 <==> kind_from(slots, item_kind, 0) >= quantity,
        crate::capacity::consume_pass(slots, item_kind, quantity, 0).1 ==> kind_from(
            crate::capacity::consume_pass(slots, item_kind, quantity, 0).0,
            item_kind,
            0,
        ) == kind_from(slots, item_kind, 0) - quantity,
        crate::capacity::consume_pass(slots, item_kind, quantity, 0).0.len() == slots.len(),
        forall|j: int| 0 <= j < slots.len() && !(slots[j] is Some && slots[j]->0.item_kind == item_kind)
            ==> #[trigger] crate::capacity::consume_pass(slots, item_kind, quantity, 0).0[j] == slots[j],
        crate::capacity::consume_pass(slots, item_kind, quantity, 0).1 ==> exists|last: int|
            #[trigger] taken_in_order(slots, crate::capacity::consume_pass(slots, item_kind, quantity, 0).0, item_kind, 0, last),
{
    lemma_consume_pass(slots, item_kind, quantity, 0);
    lemma_consume_in_order(slots, item_kind, quantity, 0);
}

/// The total that `entries` contribute to `item_kind`.
pub open spec fn entries_total(entries: Seq<(Seq<char>, u32)>, item_kind: Seq<char>) -> int
    decreases entries.len(),
{
    if entries.len() == 0 {
        0
    } else {
        (if entries[0].0 == item_kind { entries[0].1 as int } else { 0int })
            + entries_total(entries.subrange(1, entries.len() as int), item_kind)
    }
}

/// No two entries of `raw` are for the same item kind.
pub open spec fn kinds_distinct(raw: Seq<(Seq<char>, int)>) -> bool {
    forall|a: int, b: int| 0 <= a < b < raw.len() ==> (#[trigger] raw[a]).0 != (#[trigger] raw[b]).0
}

/// The total recorded in `raw` for `item_kind` (none when it has no entry).
pub open spec fn total_in(raw: Seq<(Seq<char>, int)>, item_kind: Seq<char>) -> int {
    match crate::crafting::entry_index(raw, item_kind, 0) {
        Some(j) => raw[j].1,
        None => 0,
    }
}

/// Whether `raw` has an entry for `item_kind`.
pub open spec fn has_kind(raw: Seq<(Seq<char>, int)>, item_kind: Seq<char>) -> bool {
    exists|j: int| 0 <= j < raw.len() && (#[trigger] raw[j]).0 == item_kind
}

pub proof fn lemma_entry_index_distinct(raw: Seq<(Seq<char>, int)>, item_kind: Seq<char>, j: int)
    requires
        kinds_distinct(raw),
        0 <= j < raw.len(),
        raw[j].0 == item_kind,
    ensures
        crate::crafting::entry_index(raw, item_kind, 0) == Some(j),
{
    crate::crafting::lemma_entry_index(raw, item_kind, 0);
    match crate::crafting::entry_index(raw, item_kind, 0) {
        Some(k) => {
            if k != j {
                if k < j {
                    assert(raw[k].0 != raw[j].0);
                } else {
                    assert(raw[j].0 != raw[k].0);
                }
            }
        },
        None => {},
    }
}

pub proof fn lemma_add_entry_totals(raw: Seq<(Seq<char>, int)>, item_kind: Seq<char>, quantity: int, k: Seq<char>)
    requires
        kinds_distinct(raw),
    ensures
        kinds_distinct(crate::crafting::add_entry(raw, item_kind, quantity)),
        has_kind(crate::crafting::add_entry(raw, item_kind, quantity), k) <==> (has_kind(raw, k) || k == item_kind),
        total_in(crate::crafting::add_entry(raw, item_kind, quantity), k) == total_in(raw, k) + if k == item_kind { quantity } else { 0 },
{
    let next = crate::crafting::add_entry(raw, item_kind, quantity);
    crate::crafting::lemma_entry_index(raw, item_kind, 0);
    crate::crafting::lemma_entry_index(raw, k, 0);
    match crate::crafting::entry_index(raw, item_kind, 0) {
        Some(j) => {
            assert forall|a: int, b: int| 0 <= a < b < next.len() implies (#[trigger] next[a]).0 != (#[trigger] next[b]).0 by {
                assert(raw[a].0 != raw[b].0);
            }
            if has_kind(raw, k) {
                let w = choose|w: int| 0 <= w < raw.len() && (#[trigger] raw[w]).0 == k;
                assert(next[w].0 == k);
            }
            if has_kind(next, k) {
                let w = choose|w: int| 0 <= w < next.len() && (#[trigger] next[w]).0 == k;
                assert(raw[w].0 == k);
            }
            match crate::crafting::entry_index(raw, k, 0) {
                Some(i) => {
                    lemma_entry_index_distinct(next, k, i);
                },
                None => {
                    crate::crafting::lemma_entry_index(next, k, 0);
                },
            }
        },
        None => {
            assert forall|a: int, b: int| 0 <= a < b < next.len() implies (#[trigger] next[a]).0 != (#[trigger] next[b]).0 by {
                if b < raw.len() {
                    assert(raw[a].0 != raw[b].0);
                } else {
                    assert(raw[a].0 != item_kind);
                }
            }
            if has_kind(raw, k) {
                let w = choose|w: int| 0 <= w < raw.len() && (#[trigger] raw[w]).0 == k;
                assert(next[w].0 == k);
            }
            if k == item_kind {
                assert(next[raw.len() as int].0 == k);
                lemma_entry_index_distinct(next, k, raw.len() as int);
            } else {
                if has_kind(next, k) {
                    let w = choose|w: int| 0 <= w < next.len() && (#[trigger] next[w]).0 == k;
                    assert(raw[w].0 == k);
                }
                match crate::crafting::entry_index(raw, k, 0) {
                    Some(i) => {
                        lemma_entry_index_distinct(next, k, i);
                    },
                    None => {
                        crate::crafting::lemma_entry_index(next, k, 0);
                    },
                }
            }
        },
    }
}

pub proof fn lemma_accumulate_totals(raw: Seq<(Seq<char>, int)>, entries: Seq<(Seq<char>, u32)>, k: Seq<char>)
    requires
        kinds_distinct(raw),
    ensures
        kinds_distinct(crate::crafting::accumulate(raw, entries)),
        has_kind(crate::crafting::accumulate(raw, entries), k) <==> (has_kind(raw, k)
            || exists|e: int| 0 <= e < entries.len() && (#[trigger] entries[e]).0 == k),
        total_in(crate::crafting::accumulate(raw, entries), k) == total_in(raw, k) + entries_total(entries, k),
    decreases entries.len(),
{
    if entries.len() > 0 {
        let next = crate::crafting::add_entry(raw, entries[0].0, entries[0].1 as int);
        let rest = entries.subrange(1, entries.len() as int);
        lemma_add_entry_totals(raw, entries[0].0, entries[0].1 as int, k);
        lemma_accumulate_totals(next, rest, k);
        if exists|e: int| 0 <= e < entries.len() && (#[trigger] entries[e]).0 == k {
            let e = choose|e: int| 0 <= e < entries.len() && (#[trigger] entries[e]).0 == k;
            if e > 0 {
                assert(rest[e - 1].0 == k);
            }
        }
        if exists|e: int| 0 <= e < rest.len() && (#[trigger] rest[e]).0 == k {
            let e = choose|e: int| 0 <= e < rest.len() && (#[trigger] rest[e]).0 == k;
            assert(entries[e + 1].0 == k);
        }
    }
}

/// A plan's raw materials list each item kind of its storage and "any"
/// nodes once, with the sum of their quantities.
pub proof fn law_raw_materials_listed_once(entries: Seq<(Seq<char>, u32)>, available: Seq<(String, u32)>, k: Seq<char>)
    ensures
        ({
            let listed = crate::crafting::raw_requirements(crate::crafting::accumulate(Seq::empty(), entries), available);
            &&& forall|a: int, b: int| 0 <= a < b < listed.len() ==> (#[trigger] listed[a]).0 != (#[trigger] listed[b]).0
            &&& (exists|j: int| 0 <= j < listed.len() && (#[trigger] listed[j]).0 == k)
                <==> (exists|e: int| 0 <= e < entries.len() && (#[trigger] entries[e]).0 == k)
            &&& forall|j: int| 0 <= j < listed.len() && (#[trigger] listed[j]).0 == k ==> listed[j].1 == entries_total(entries, k)
        }),
{
    let raw = crate::crafting::accumulate(Seq::<(Seq<char>, int)>::empty(), entries);
    lemma_accumulate_totals(Seq::empty(), entries, k);
    let listed = crate::crafting::raw_requirements(raw, available);
    assert forall|a: int, b: int| 0 <= a < b < listed.len() implies (#[trigger] listed[a]).0 != (#[trigger] listed[b]).0 by {
        assert(raw[a].0 != raw[b].0);
    }
    if exists|j: int| 0 <= j < listed.len() && (#[trigger] listed[j]).0 == k {
        let j = choose|j: int| 0 <= j < listed.len() && (#[trigger] listed[j]).0 == k;
        assert(raw[j].0 == k);
    }
    if has_kind(raw, k) {
        let j = choose|j: int| 0 <= j < raw.len() && (#[trigger] raw[j]).0 == k;
        assert(listed[j].0 == k);
    }
    assert forall|j: int| 0 <= j < listed.len() && (#[trigger] listed[j]).0 == k implies listed[j].1 == entries_total(entries, k) by {
        assert(raw[j].0 == k);
        lemma_entry_index_distinct(raw, k, j);
    }
}

/// A putaway run that has passed every region without failing finishes
/// with an error exactly when some region could not be planned, and that
/// error carries their count.
pub proof fn law_putaway_fails_iff_unplanned(regions: Seq<u128>, unplanned: int, stage: PutawayStage)
    requires
        0 <= unplanned <= regions.len(),
        !(stage is Failed),
    ensures
        (run_action(regions, regions.len() as int, unplanned, stage) == PutawayAction::Finish(Ok(()))) <==> unplanned == 0,
        unplanned > 0 ==> run_action(regions, regions.len() as int, unplanned, stage)
            == PutawayAction::Finish(Err(PutawayError::Unplanned { count: unplanned as usize })),
{
}

/// A node built for an item kind keeps the key, item kind and quantity it
/// was asked for, whichever way it is made.
pub proof fn lemma_built_node_keeps_request(
    item_kind: Seq<char>,
    quantity: u32,
    key: Seq<char>,
    selections: Seq<(String, CraftSelection)>,
    recipes: Seq<Recipe>,
    available: Seq<(String, u32)>,
    active: Seq<Seq<char>>,
    preview: bool,
)
    ensures
        spec_build_node(item_kind, quantity, key, selections, recipes, available, active, preview) matches Ok(node)
            ==> node.key == key && node.item_kind == item_kind && node.quantity == quantity,
{
}

/// The children built for `ingredients[i..]`: one per ingredient, in order,
/// keyed below `children_key` by the ingredient's index, for the
/// ingredient's kind and its quantity times the crafts (saturating).
pub proof fn lemma_children_shape(
    ingredients: Seq<CraftIngredient>,
    crafts: u32,
    children_key: Seq<char>,
    selections: Seq<(String, CraftSelection)>,
    recipes: Seq<Recipe>,
    available: Seq<(String, u32)>,
    active: Seq<Seq<char>>,
    preview: bool,
    i: int,
)
    requires
        0 <= i <= ingredients.len(),
    ensures
        spec_children(ingredients, crafts, children_key, selections, recipes, available, active, preview, i) matches Ok(cs) ==> {
            &&& cs.len() == ingredients.len() - i
            &&& forall|j: int| 0 <= j < cs.len() ==> {
                &&& (#[trigger] cs[j]).key == child_key(children_key, i + j)
                &&& cs[j].item_kind == ingredients[i + j].item_kind@
                &&& cs[j].quantity == saturating_mul(ingredients[i + j].quantity, crafts)
            }
        },
    decreases ingredients.len() - i,
{
    if i < ingredients.len() {
        lemma_built_node_keeps_request(
            ingredients[i].item_kind@, saturating_mul(ingredients[i].quantity, crafts), child_key(children_key, i),
            selections, recipes, available, active, preview);
        lemma_children_shape(ingredients, crafts, children_key, selections, recipes, available, active, preview, i + 1);
        match spec_children(ingredients, crafts, children_key, selections, recipes, available, active, preview, i) {
            Ok(cs) => {
                let rest = spec_children(ingredients, crafts, children_key, selections, recipes, available, active, preview, i + 1)->Ok_0;
                assert forall|j: int| 0 <= j < cs.len() implies {
                    &&& (#[trigger] cs[j]).key == child_key(children_key, i + j)
                    &&& cs[j].item_kind == ingredients[i + j].item_kind@
                    &&& cs[j].quantity == saturating_mul(ingredients[i + j].quantity, crafts)
                } by {
                    if j > 0 {
                        assert(cs[j] == rest[j - 1]);
                        assert(i + 1 + (j - 1) == i + j);
                    }
                }
            },
            Err(_) => {},
        }
    }
}

/// Making a node with a recipe takes the fewest crafts whose yield covers
/// the quantity; the node keeps its key, item kind and quantity, and has one
/// child per ingredient of the recipe, keyed `"{key}.{i}"`, for that
/// ingredient's kind and its quantity times the crafts (saturating at the
/// largest `u32`).
pub proof fn law_recipe_node_shape(
    item_kind: Seq<char>,
    quantity: u32,
    node_key: Seq<char>,
    children_key: Seq<char>,
    r: int,
    selections: Seq<(String, CraftSelection)>,
    recipes: Seq<Recipe>,
    available: Seq<(String, u32)>,
    active: Seq<Seq<char>>,
    preview: bool,
)
    requires
        yields_positive(recipes),
        0 <= r < recipes.len(),
    ensures
        spec_recipe_node(item_kind, quantity, node_key, children_key, r, selections, recipes, available, active, preview) matches Ok(n) ==> {
            let recipe = recipes[r];
            &&& n.key == node_key
            &&& n.item_kind == item_kind
            &&& n.quantity == quantity
            &&& n.kind matches NodeKindModel::Recipe { crafts, output_yield, .. }
            &&& output_yield == recipe.output_yield
            &&& crafts * output_yield >= quantity
            &&& forall|c: int| 0 <= c < crafts ==> #[trigger] (c * output_yield) < quantity
            &&& n.children.len() == recipe.ingredients@.len()
            &&& forall|j: int| 0 <= j < n.children.len() ==> {
                &&& (#[trigger] n.children[j]).key == child_key(children_key, j)
                &&& n.children[j].item_kind == recipe.ingredients@[j].item_kind@
                &&& n.children[j].quantity == saturating_mul(recipe.ingredients@[j].quantity, crafts)
            }
        },
{
    let recipe = recipes[r];
    let y = recipe.output_yield;
    assert(y > 0);
    let crafts = div_ceil(quantity, y);
    let x = quantity + y - 1;
    vstd::arithmetic::div_mod::lemma_fundamental_div_mod(x as int, y as int);
    vstd::arithmetic::div_mod::lemma_mod_pos_bound(x as int, y as int);
    let c0 = x / (y as int);
    assert(c0 <= quantity) by (nonlinear_arith)
        requires x == y * c0 + x % (y as int), 0 <= x % (y as int), y > 0, x == quantity + y - 1, c0 >= 0;
    assert(crafts == c0);
    assert(crafts * y >= quantity) by (nonlinear_arith)
        requires x == y * c0 + x % (y as int), x % (y as int) < y, crafts == c0, x == quantity + y - 1;
    assert forall|c: int| 0 <= c < crafts implies #[trigger] (c * y) < quantity by {
        assert(c * y <= (crafts - 1) * y) by (nonlinear_arith)
            requires 0 <= c < crafts, y > 0;
        assert((crafts - 1) * y < quantity) by (nonlinear_arith)
            requires x == y * c0 + x % (y as int), 0 <= x % (y as int), crafts == c0, x == quantity + y - 1;
    }
    lemma_children_shape(recipe.ingredients@, crafts, children_key, selections, recipes, available, active, preview, 0);
    match spec_children(recipe.ingredients@, crafts, children_key, selections, recipes, available, active, preview, 0) {
        Ok(cs) => {
            assert forall|j: int| 0 <= j < cs.len() implies (#[trigger] cs[j]).key == child_key(children_key, j) by {
                assert(0 + j == j);
            }
        },
        Err(_) => {},
    }
}

/// `crafts` is the fewest crafts of `output_yield` items each that make at
/// least `quantity` items.
pub open spec fn fewest_crafts(quantity: int, output_yield: int, crafts: int) -> bool {
    &&& crafts >= 0
    &&& crafts * output_yield >= quantity
    &&& forall|c: int| 0 <= c < crafts ==> #[trigger] (c * output_yield) < quantity
}

/// A recipe is available for `quantity` items exactly when storage holds,
/// of every ingredient, its quantity per craft times the fewest crafts that
/// make `quantity` (capped at the largest `u32`), not merely one craft's worth.
pub proof fn law_recipe_availability(recipe: Recipe, quantity: u32, available: Seq<(String, u32)>, crafts: int)
    requires
        recipe.output_yield > 0,
        fewest_crafts(quantity as int, recipe.output_yield as int, crafts),
    ensures
        recipe_is_available(recipe, quantity, available) <==> forall|i: int| 0 <= i < recipe.ingredients@.len() ==> {
            let needed = recipe.ingredients@[i].quantity * crafts;
            available_of(available, #[trigger] recipe.ingredients@[i].item_kind@) >= if needed <= u32::MAX { needed } else { u32::MAX as int }
        },
{
    let y = recipe.output_yield as int;
    let q = quantity as int;
    let x = q + y - 1;
    vstd::arithmetic::div_mod::lemma_fundamental_div_mod(x, y);
    vstd::arithmetic::div_mod::lemma_mod_pos_bound(x, y);
    let c0 = x / y;
    assert(c0 >= 0) by (nonlinear_arith)
        requires x >= 0, y > 0, c0 == x / y;
    assert(c0 * y >= q) by (nonlinear_arith)
        requires x == y * c0 + x % y, x % y < y, x == q + y - 1;
    assert((c0 - 1) * y < q) by (nonlinear_arith)
        requires x == y * c0 + x % y, 0 <= x % y, x == q + y - 1;
    assert(c0 == crafts) by {
        if c0 < crafts {
            assert(c0 * y < q);
        } else if c0 > crafts {
            assert((c0 - 1) * y >= crafts * y) by (nonlinear_arith)
                requires c0 - 1 >= crafts, y > 0;
        }
    }
    assert(c0 <= q) by (nonlinear_arith)
        requires (c0 - 1) * y < q, y >= 1, c0 >= 0, q >= 0;
    assert(crate::crafting::div_ceil(quantity, recipe.output_yield) == crafts);
}

/// The options a choice offers for the recipes at `found[i..]` come in that
/// order, each marked available exactly when its recipe is available for
/// the requested quantity.
pub proof fn lemma_options_availability(
    item_kind: Seq<char>,
    quantity: u32,
    key: Seq<char>,
    selections: Seq<(String, CraftSelection)>,
    recipes: Seq<Recipe>,
    available: Seq<(String, u32)>,
    active: Seq<Seq<char>>,
    found: Seq<int>,
    i: int,
)
    requires
        0 <= i <= found.len(),
    ensures
        spec_options(item_kind, quantity, key, selections, recipes, available, active, found, i) matches Ok(options) ==> {
            &&& options.len() == found.len() - i
            &&& forall|k: int| 0 <= k < options.len() ==> (#[trigger] options[k] matches OptionModel::Recipe { available: ok, .. }
                && ok == recipe_is_available(recipes[found[i + k]], quantity, available))
        },
    decreases found.len() - i,
{
    if i < found.len() {
        lemma_options_availability(item_kind, quantity, key, selections, recipes, available, active, found, i + 1);
        match spec_options(item_kind, quantity, key, selections, recipes, available, active, found, i) {
            Ok(options) => {
                let rest = spec_options(item_kind, quantity, key, selections, recipes, available, active, found, i + 1)->Ok_0;
                assert forall|k: int| 0 <= k < options.len() implies (#[trigger] options[k] matches OptionModel::Recipe { available: ok, .. }
                    && ok == recipe_is_available(recipes[found[i + k]], quantity, available)) by {
                    if k > 0 {
                        assert(options[k] == rest[k - 1]);
                        assert(i + 1 + (k - 1) == i + k);
                    }
                }
            },
            Err(_) => {},
        }
    }
}

/// The group a unit's state puts it in on the report: claimed units first,
/// then queued ones, then completed ones.
pub open spec fn report_group(state: crate::status::WorkUnitStatusState) -> int {
    match state {
        crate::status::WorkUnitStatusState::Claimed => 0,
        crate::status::WorkUnitStatusState::Queued => 1,
        crate::status::WorkUnitStatusState::Completed => 2,
    }
}

/// `a` may be reported before `b`: by group, then priority, then id.
pub open spec fn reported_no_later(a: crate::status::WorkUnitStatus, b: crate::status::WorkUnitStatus) -> bool {
    ||| report_group(a.state) < report_group(b.state)
    ||| report_group(a.state) == report_group(b.state) && a.priority < b.priority
    ||| report_group(a.state) == report_group(b.state) && a.priority == b.priority && a.id <= b.id
}

/// The status report lists every unit it reports from the pool's snapshot,
/// ordered lexicographically by (state group, priority, id): within every
/// group a unit of lower priority comes first, whatever the ids.
pub proof fn law_report_lexicographic(units: Seq<crate::status::WorkUnitStatus>)
    requires
        units.len() <= usize::MAX,
    ensures
        ({
            let order = crate::status::report_order(units);
            &&& order.len() == units.len()
            &&& forall|k: int| 0 <= k < order.len() ==> 0 <= (#[trigger] order[k]).index < units.len()
            &&& forall|a: int, b: int| 0 <= a < b < order.len()
                ==> reported_no_later(units[(#[trigger] order[a]).index as int], units[(#[trigger] order[b]).index as int])
        }),
{
    let keys = crate::status::status_keys(units);
    let order = crate::status::report_order(units);
    crate::sorting::lemma_stable_sorted_len(keys, keys.len() as int);
    law_status_in_report_order(units);
    law_stable_sort_rearranges(keys, keys.len() as int);
    assert(keys.take(keys.len() as int) =~= keys);
    assert forall|k: int| 0 <= k < order.len() implies {
        &&& 0 <= (#[trigger] order[k]).index < units.len()
        &&& order[k] == keys[order[k].index as int]
    } by {
        vstd::seq_lib::to_multiset_contains(order, order[k]);
        assert(order.contains(order[k])) by {
            assert(order[k] == order[k]);
        }
        vstd::seq_lib::to_multiset_contains(keys, order[k]);
        let i = choose|i: int| 0 <= i < keys.len() && keys[i] == order[k];
        assert(keys[i].index == i);
    }
    assert forall|a: int, b: int| 0 <= a < b < order.len()
        implies reported_no_later(units[(#[trigger] order[a]).index as int], units[(#[trigger] order[b]).index as int]) by {
        assert(!crate::sorting::SortKey::sorts_before(order[b], order[a]));
        let ua = units[order[a].index as int];
        let ub = units[order[b].index as int];
        assert(order[a] == keys[order[a].index as int]);
        assert(order[b] == keys[order[b].index as int]);
        assert(report_group(ua.state) == crate::status::state_rank(ua.state) as int);
        assert(report_group(ub.state) == crate::status::state_rank(ub.state) as int);
    }
}

} // verus!
