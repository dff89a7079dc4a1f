//! Lowering an accepted putaway transfer into concrete moves: taking each
//! line's items from the putaway containers and laying them into the slots
//! that bulk storage planned for them, a stack at a time.
use crate::grouping::{add_move, group_heads, groups_match, groups_of, moves_for, Emission, GroupKey};
use crate::item_stack::{Container, ItemStack, StackSizes};
use crate::sorting::{stable_sort, stable_sorted, SortKey};
use crate::transfer::{same_sku, sku_key, Sku};
use crate::work::{ItemMove, Transfer};
use vstd::prelude::*;

verus! {

/// A slot that bulk storage planned for an item.
#[derive(Debug, Clone, Copy)]
pub struct PlannedDestination<P> {
    pub container_id: u128,
    pub position: P,
    pub slot: usize,
}

/// A stack in a putaway container, with what is left of it to move.
#[derive(Debug, Clone, Copy)]
pub struct SourcePlacement<P> {
    pub container_id: u128,
    pub position: P,
    pub slot: usize,
    pub remaining: u64,
}

impl<P: Copy> SortKey for SourcePlacement<P> {
    open spec fn sorts_before(self, other: Self) -> bool {
        self.container_id < other.container_id || (self.container_id == other.container_id && self.slot < other.slot)
    }

    fn before(&self, other: &Self) -> (before: bool) {
        self.container_id < other.container_id || (self.container_id == other.container_id && self.slot < other.slot)
    }
}

impl<P: Copy> SortKey for PlannedDestination<P> {
    open spec fn sorts_before(self, other: Self) -> bool {
        self.container_id < other.container_id || (self.container_id == other.container_id && self.slot < other.slot)
    }

    fn before(&self, other: &Self) -> (before: bool) {
        self.container_id < other.container_id || (self.container_id == other.container_id && self.slot < other.slot)
    }
}

impl SortKey for ItemMove {
    open spec fn sorts_before(self, other: Self) -> bool {
        self.from_slot < other.from_slot || (self.from_slot == other.from_slot && self.to_slot < other.to_slot)
    }

    fn before(&self, other: &Self) -> (before: bool) {
        self.from_slot < other.from_slot || (self.from_slot == other.from_slot && self.to_slot < other.to_slot)
    }
}

/// Transfers are grouped by source and destination container.
#[derive(Debug, Clone, Copy, PartialEq, Eq, Structural)]
pub struct ContainerPair {
    pub from: u128,
    pub to: u128,
}

impl GroupKey for ContainerPair {
    open spec fn precedes(self, other: Self) -> bool {
        self.from < other.from || (self.from == other.from && self.to < other.to)
    }

    fn less(&self, other: &Self) -> (less: bool) {
        self.from < other.from || (self.from == other.from && self.to < other.to)
    }

    fn same(&self, other: &Self) -> (same: bool) {
        self.from == other.from && self.to == other.to
    }
}

/// Why a putaway transfer could not be lowered.
#[derive(Debug, Clone, Copy, PartialEq, Eq)]
pub enum LoweringError {
    /// The putaway contents no longer hold a line's SKU.
    SourceMissing,
    /// The bulk placement plan has no slots for a line's SKU.
    DestinationMissing,
    /// The putaway contents are short for a line.
    SourceShort,
    /// The bulk placement plan is short for a line.
    DestinationShort,
}

/// What lowering comes to, part way.
pub enum LoweringOutcome<P> {
    Planned(Seq<Emission<ContainerPair, (P, P)>>),
    Failed(LoweringError),
}

pub open spec fn prepend_lowering<P>(done: Seq<Emission<ContainerPair, (P, P)>>, outcome: LoweringOutcome<P>) -> LoweringOutcome<P> {
    match outcome {
        LoweringOutcome::Planned(emissions) => LoweringOutcome::Planned(done + emissions),
        other => other,
    }
}

pub proof fn lemma_prepend_lowering<P>(a: Seq<Emission<ContainerPair, (P, P)>>, b: Seq<Emission<ContainerPair, (P, P)>>, outcome: LoweringOutcome<P>)
    ensures
        prepend_lowering(a, prepend_lowering(b, outcome)) == prepend_lowering(a + b, outcome),
        prepend_lowering(Seq::empty(), outcome) == outcome,
{
    match outcome {
        LoweringOutcome::Planned(emissions) => {
            assert(a + (b + emissions) =~= (a + b) + emissions);
            assert(Seq::<Emission<ContainerPair, (P, P)>>::empty() + emissions =~= emissions);
        },
        _ => {},
    }
}

/// The first of `sources[i..]` with items left, or the length when none has.
pub open spec fn first_with_items<P>(sources: Seq<SourcePlacement<P>>, i: int) -> int
    decreases sources.len() - i,
{
    if i < 0 || i >= sources.len() {
        sources.len() as int
    } else if sources[i].remaining > 0 {
        i
    } else {
        first_with_items(sources, i + 1)
    }
}

pub proof fn lemma_first_with_items<P>(sources: Seq<SourcePlacement<P>>, i: int)
    requires
        0 <= i,
    ensures
        i <= first_with_items(sources, i) <= sources.len() || (i > sources.len() && first_with_items(sources, i) == sources.len()),
        first_with_items(sources, i) < sources.len() ==> sources[first_with_items(sources, i)].remaining > 0,
        forall|j: int| i <= j < first_with_items(sources, i) ==> #[trigger] sources[j].remaining == 0,
    decreases sources.len() - i,
{
    if i < sources.len() {
        lemma_first_with_items(sources, i + 1);
    }
}

pub open spec fn min_u64(a: u64, b: u64) -> u64 {
    if a <= b { a } else { b }
}

/// Lowers `quantity` items of one line: each step takes from the first
/// source with items left (from `si` on) and puts into the destination slot
/// `di`, which holds `capacity` items and has `room` left, as many items as
/// all three allow.
pub open spec fn lower_line<P>(
    sources: Seq<SourcePlacement<P>>,
    destinations: Seq<PlannedDestination<P>>,
    capacity: u64,
    quantity: u64,
    si: int,
    di: int,
    room: u64,
) -> LoweringOutcome<P>
    decreases quantity,
{
    if quantity == 0 {
        LoweringOutcome::Planned(Seq::empty())
    } else {
        let s = first_with_items(sources, if si < 0 { 0 } else { si });
        if s < 0 || s >= sources.len() {
            LoweringOutcome::Failed(LoweringError::SourceShort)
        } else if di < 0 || di >= destinations.len() || room == 0 {
            LoweringOutcome::Failed(LoweringError::DestinationShort)
        } else {
            let source = sources[s];
            let destination = destinations[di];
            let moved = min_u64(min_u64(quantity, source.remaining), room);
            proof {
                lemma_first_with_items(sources, if si < 0 { 0 } else { si });
            }
            let emission = (
                ContainerPair { from: source.container_id, to: destination.container_id },
                (source.position, destination.position),
                ItemMove { from_slot: source.slot, to_slot: destination.slot, quantity: moved as u32 },
            );
            let sources2 = sources.update(s, SourcePlacement { remaining: (source.remaining - moved) as u64, ..source });
            let filled = room - moved == 0;
            prepend_lowering(seq![emission], lower_line(sources2, destinations, capacity, (quantity - moved) as u64, s,
                if filled { di + 1 } else { di }, if filled { capacity } else { (room - moved) as u64 }))
        }
    }
}

/// The stacks with items of `key` among `contents[..k]`, in order.
pub open spec fn container_placements<P>(container: Container<P>, sizes: StackSizes, key: (Seq<char>, Seq<char>, i32), k: int)
    -> Seq<SourcePlacement<P>>
    decreases k,
{
    if k <= 0 {
        Seq::empty()
    } else {
        let entry = container.contents@[k - 1];
        let rest = container_placements(container, sizes, key, k - 1);
        if entry.1.quantity > 0 && (entry.1.item_kind@, entry.1.components_digest@, sizes.size_of(entry.1.item_kind@) as i32) == key {
            rest.push(SourcePlacement { container_id: container.id, position: container.position, slot: entry.0, remaining: entry.1.quantity as u64 })
        } else {
            rest
        }
    }
}

/// The stacks with items of `key` in `containers[..c]`, container after container.
pub open spec fn source_placements<P>(containers: Seq<Container<P>>, sizes: StackSizes, key: (Seq<char>, Seq<char>, i32), c: int)
    -> Seq<SourcePlacement<P>>
    decreases c,
{
    if c <= 0 {
        Seq::empty()
    } else {
        source_placements(containers, sizes, key, c - 1)
            + container_placements(containers[c - 1], sizes, key, containers[c - 1].contents@.len() as int)
    }
}

/// Index of the destination list for `key`, if any.
pub open spec fn destination_index<P>(destinations: Seq<(Sku, Vec<PlannedDestination<P>>)>, key: (Seq<char>, Seq<char>, i32), i: int)
    -> Option<int>
    decreases destinations.len() - i,
{
    if i < 0 || i >= destinations.len() {
        None
    } else if sku_key(destinations[i].0) == key {
        Some(i)
    } else {
        destination_index(destinations, key, i + 1)
    }
}

pub proof fn lemma_destination_index<P>(destinations: Seq<(Sku, Vec<PlannedDestination<P>>)>, key: (Seq<char>, Seq<char>, i32), i: int)
    requires
        0 <= i,
    ensures
        destination_index(destinations, key, i) matches Some(d) ==> i <= d < destinations.len(),
    decreases destinations.len() - i,
{
    if i < destinations.len() {
        lemma_destination_index(destinations, key, i + 1);
    }
}

/// The stack size a line is laid out with: its SKU's, at least one.
pub open spec fn line_capacity(sku: Sku) -> u64 {
    if sku.stack_size >= 1 { sku.stack_size as u64 } else { 1 }
}

/// Lowers the lines `requested[r..]` in order.
pub open spec fn lower_lines<P: Copy>(
    containers: Seq<Container<P>>,
    destinations: Seq<(Sku, Vec<PlannedDestination<P>>)>,
    requested: Seq<(Sku, u64)>,
    sizes: StackSizes,
    r: int,
) -> LoweringOutcome<P>
    decreases requested.len() - r,
{
    if r < 0 || r >= requested.len() {
        LoweringOutcome::Planned(Seq::empty())
    } else {
        let key = sku_key(requested[r].0);
        let found = source_placements(containers, sizes, key, containers.len() as int);
        if found.len() == 0 {
            LoweringOutcome::Failed(LoweringError::SourceMissing)
        } else {
            match destination_index(destinations, key, 0) {
                None => LoweringOutcome::Failed(LoweringError::DestinationMissing),
                Some(d) => {
                    let sources = stable_sorted(found, found.len() as int);
                    let slots = stable_sorted(destinations[d].1@, destinations[d].1@.len() as int);
                    let capacity = line_capacity(requested[r].0);
                    match lower_line(sources, slots, capacity, requested[r].1, 0, 0, capacity) {
                        LoweringOutcome::Planned(emissions) =>
                            prepend_lowering(emissions, lower_lines(containers, destinations, requested, sizes, r + 1)),
                        other => other,
                    }
                },
            }
        }
    }
}

/// The transfer of the group at `i`, its moves stably sorted by slots.
pub open spec fn transfer_matches<P>(transfer: Transfer<P>, group: (ContainerPair, (P, P)), moves: Seq<ItemMove>) -> bool {
    &&& transfer.from_container == group.0.from
    &&& transfer.to_container == group.0.to
    &&& transfer.from_position == group.1.0
    &&& transfer.to_position == group.1.1
    &&& transfer.moves@ == stable_sorted(moves, moves.len() as int)
}

/// The stacks with items of `sku` in `containers`, container after container.
fn collect_placements<P: Copy>(containers: &Vec<Container<P>>, sizes: &StackSizes, sku: &Sku) -> (found: Vec<SourcePlacement<P>>)
    requires
        sizes.valid(),
    ensures
        found@ == source_placements(containers@, *sizes, sku_key(*sku), containers@.len() as int),
{
    let mut found: Vec<SourcePlacement<P>> = Vec::new();
    let mut c: usize = 0;
    while c < containers.len()
        invariant
            c <= containers@.len(),
            sizes.valid(),
            found@ == source_placements(containers@, *sizes, sku_key(*sku), c as int),
        decreases containers.len() - c,
    {
        let container = &containers[c];
        let ghost start = found@;
        let mut k: usize = 0;
        while k < container.contents.len()
            invariant
                k <= container.contents@.len(),
                sizes.valid(),
                found@ == start + container_placements(*container, *sizes, sku_key(*sku), k as int),
            decreases container.contents.len() - k,
        {
            let entry = &container.contents[k];
            if entry.1.quantity > 0 {
                let item_sku = entry.1.sku(sizes);
                if same_sku(&item_sku, sku) {
                    found.push(SourcePlacement {
                        container_id: container.id,
                        position: container.position,
                        slot: entry.0,
                        remaining: entry.1.quantity as u64,
                    });
                }
            }
            proof {
                assert(found@ =~= start + container_placements(*container, *sizes, sku_key(*sku), k + 1));
            }
            k = k + 1;
        }
        c = c + 1;
    }
    found
}

/// Index of the destination list for `sku`, if any.
fn find_destinations<P>(destinations: &Vec<(Sku, Vec<PlannedDestination<P>>)>, sku: &Sku) -> (found: Option<usize>)
    ensures
        match found {
            Some(d) => destination_index(destinations@, sku_key(*sku), 0) == Some(d as int),
            None => destination_index(destinations@, sku_key(*sku), 0) is None,
        },
{
    let mut i: usize = 0;
    while i < destinations.len()
        invariant
            i <= destinations@.len(),
            destination_index(destinations@, sku_key(*sku), 0) == destination_index(destinations@, sku_key(*sku), i as int),
        decreases destinations.len() - i,
    {
        if same_sku(&destinations[i].0, sku) {
            return Some(i);
        }
        i = i + 1;
    }
    None
}

/// Lowers one line of `quantity` items (see [`lower_line`]), adding its
/// moves to `groups`.
fn lower_one_line<P: Copy>(
    sources: &mut Vec<SourcePlacement<P>>,
    slots: &Vec<PlannedDestination<P>>,
    capacity: u64,
    quantity: u64,
    groups: &mut Vec<(ContainerPair, (P, P), Vec<ItemMove>)>,
    Ghost(emissions): Ghost<Seq<Emission<ContainerPair, (P, P)>>>,
) -> (result: Result<(), LoweringError>)
    requires
        1 <= capacity <= i32::MAX,
        groups_match(old(groups)@, emissions),
    ensures
        match lower_line(old(sources)@, slots@, capacity, quantity, 0, 0, capacity) {
            LoweringOutcome::Planned(added) => result is Ok && groups_match(final(groups)@, emissions + added),
            LoweringOutcome::Failed(e) => result == Err::<(), LoweringError>(e),
        },
{
    let ghost whole = lower_line(sources@, slots@, capacity, quantity, 0, 0, capacity);
    let ghost mut added: Seq<Emission<ContainerPair, (P, P)>> = Seq::empty();
    let mut left = quantity;
    let mut si: usize = 0;
    let mut di: usize = 0;
    let mut room = capacity;
    proof {
        lemma_prepend_lowering(Seq::empty(), Seq::empty(), whole);
    }
    while left > 0
        invariant
            1 <= capacity <= i32::MAX,
            1 <= room <= capacity,
            si <= sources@.len(),
            whole == lower_line(old(sources)@, slots@, capacity, quantity, 0, 0, capacity),
            whole == prepend_lowering(added, lower_line(sources@, slots@, capacity, left, si as int, di as int, room)),
            groups_match(groups@, emissions + added),
        decreases left,
    {
        let ghost si0 = si;
        proof {
            lemma_first_with_items(sources@, si as int);
        }
        while si < sources.len() && sources[si].remaining == 0
            invariant
                si0 <= si <= sources@.len(),
                first_with_items(sources@, si0 as int) == first_with_items(sources@, si as int),
            decreases sources.len() - si,
        {
            si = si + 1;
        }
        proof {
            lemma_first_with_items(sources@, si as int);
        }
        if si >= sources.len() {
            return Err(LoweringError::SourceShort);
        }
        if di >= slots.len() {
            return Err(LoweringError::DestinationShort);
        }
        let source = sources[si];
        let destination = slots[di];
        let least = if left <= source.remaining { left } else { source.remaining };
        let moved = if least <= room { least } else { room };
        let key = ContainerPair { from: source.container_id, to: destination.container_id };
        let position = (source.position, destination.position);
        let item_move = ItemMove { from_slot: source.slot, to_slot: destination.slot, quantity: moved as u32 };
        add_move(groups, key, position, item_move, Ghost(emissions + added));
        sources.set(si, SourcePlacement {
            container_id: source.container_id,
            position: source.position,
            slot: source.slot,
            remaining: source.remaining - moved,
        });
        room = room - moved;
        left = left - moved;
        if room == 0 {
            di = di + 1;
            room = capacity;
        }
        proof {
            let e = (key, position, item_move);
            lemma_prepend_lowering(added, seq![e], lower_line(sources@, slots@, capacity, left, si as int, di as int, room));
            assert((emissions + added).push(e) =~= emissions + (added + seq![e]));
            added = added + seq![e];
        }
    }
    proof {
        assert(added + Seq::<Emission<ContainerPair, (P, P)>>::empty() =~= added);
    }
    Ok(())
}

/// The transfers for the groups, in order, each with its moves stably
/// sorted by source slot, then destination slot.
fn group_transfers<P: Copy>(groups: Vec<(ContainerPair, (P, P), Vec<ItemMove>)>) -> (transfers: Vec<Transfer<P>>)
    ensures
        transfers@.len() == groups@.len(),
        forall|i: int| 0 <= i < transfers@.len() ==> transfer_matches(#[trigger] transfers@[i], (groups@[i].0, groups@[i].1), groups@[i].2@),
{
    let ghost all = groups@;
    let mut rest = groups;
    let mut transfers: Vec<Transfer<P>> = Vec::new();
    while rest.len() > 0
        invariant
            transfers@.len() + rest@.len() == all.len(),
            rest@ == all.skip(transfers@.len() as int),
            forall|i: int| 0 <= i < transfers@.len() ==> transfer_matches(#[trigger] transfers@[i], (all[i].0, all[i].1), all[i].2@),
        decreases rest.len(),
    {
        let ghost done = transfers@.len() as int;
        let (key, position, moves) = rest.remove(0);
        assert(all[done] == (key, position, moves));
        let sorted = stable_sort(&moves);
        transfers.push(Transfer {
            from_container: key.from,
            from_position: position.0,
            to_container: key.to,
            to_position: position.1,
            moves: sorted,
        });
        assert(rest@ =~= all.skip(transfers@.len() as int));
    }
    transfers
}

/// Lowers the putaway lines `requested` (each SKU once) into transfers from
/// `source_containers` into the slots `destinations` planned for each SKU.
/// Each line in turn takes from the stacks of its SKU, sorted by container
/// and slot, and fills the planned slots, sorted the same way, a stack at a
/// time (see [`lower_lines`]). The transfers come one per pair of
/// containers, ordered by source and then destination container, each with
/// its moves ordered by source and then destination slot.
pub fn lower_transfers<P: Copy>(
    source_containers: &Vec<Container<P>>,
    destinations: &Vec<(Sku, Vec<PlannedDestination<P>>)>,
    requested: &Vec<(Sku, u64)>,
    sizes: &StackSizes,
) -> (result: Result<Vec<Transfer<P>>, LoweringError>)
    requires
        sizes.valid(),
        forall|i: int, j: int| 0 <= i < j < requested@.len() ==> sku_key(#[trigger] requested@[i].0) != sku_key(#[trigger] requested@[j].0),
    ensures
        match lower_lines(source_containers@, destinations@, requested@, *sizes, 0) {
            LoweringOutcome::Planned(emissions) => result matches Ok(transfers) && {
                let groups = groups_of(emissions, emissions.len() as int);
                &&& transfers@.len() == groups.len()
                &&& forall|i: int| 0 <= i < transfers@.len() ==> transfer_matches(#[trigger] transfers@[i], groups[i],
                    moves_for(emissions, groups[i].0, emissions.len() as int))
            },
            LoweringOutcome::Failed(e) => result == Err::<Vec<Transfer<P>>, LoweringError>(e),
        },
{
    let ghost whole = lower_lines(source_containers@, destinations@, requested@, *sizes, 0);
    let ghost mut emissions: Seq<Emission<ContainerPair, (P, P)>> = Seq::empty();
    let mut groups: Vec<(ContainerPair, (P, P), Vec<ItemMove>)> = Vec::new();
    proof {
        lemma_prepend_lowering(Seq::empty(), Seq::empty(), whole);
        assert(group_heads(groups@) =~= groups_of(emissions, 0));
    }
    let mut r: usize = 0;
    while r < requested.len()
        invariant
            r <= requested@.len(),
            sizes.valid(),
            whole == lower_lines(source_containers@, destinations@, requested@, *sizes, 0),
            whole == prepend_lowering(emissions, lower_lines(source_containers@, destinations@, requested@, *sizes, r as int)),
            groups_match(groups@, emissions),
        decreases requested.len() - r,
    {
        let sku = &requested[r].0;
        let found = collect_placements(source_containers, sizes, sku);
        if found.len() == 0 {
            return Err(LoweringError::SourceMissing);
        }
        let d = match find_destinations(destinations, sku) {
            None => {
                return Err(LoweringError::DestinationMissing);
            },
            Some(d) => d,
        };
        proof {
            lemma_destination_index(destinations@, sku_key(*sku), 0);
        }
        let mut sources = stable_sort(&found);
        let slots = stable_sort(&destinations[d].1);
        let capacity: u64 = if sku.stack_size >= 1 { sku.stack_size as u64 } else { 1 };
        let ghost line = lower_line(sources@, slots@, capacity, requested@[r as int].1, 0, 0, capacity);
        match lower_one_line(&mut sources, &slots, capacity, requested[r].1, &mut groups, Ghost(emissions)) {
            Err(e) => {
                return Err(e);
            },
            Ok(()) => {
                proof {
                    let added = line->Planned_0;
                    lemma_prepend_lowering(emissions, added, lower_lines(source_containers@, destinations@, requested@, *sizes, r + 1));
                    emissions = emissions + added;
                }
            },
        }
        r = r + 1;
    }
    proof {
        assert(emissions + Seq::<Emission<ContainerPair, (P, P)>>::empty() =~= emissions);
    }
    let transfers = group_transfers(groups);
    Ok(transfers)
}

} // verus!
