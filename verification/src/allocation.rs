//! What placing items in a simulated container guarantees: a placement
//! succeeds exactly when the items fit, and it tops up the stacks that have
//! room before it starts new ones, each slot once, with a positive amount.
use crate::capacity::{can_merge, fill_pass, merge_pass, merge_room, min_u32, occupied, spec_allocate, spec_available,
    spec_capacity_of, CapacityModel, StackModel};
use crate::item_stack::{ItemStack, StackSizes};
use vstd::prelude::*;

verus! {

/// Room for more items of a kind and digest on the stack in a slot.
pub open spec fn room_of(slot: Option<StackModel>, item_kind: Seq<char>, digest: Seq<char>) -> int {
    if can_merge(slot, item_kind, digest) {
        slot->0.max_quantity - slot->0.quantity
    } else {
        0
    }
}

/// Room for more items of a kind and digest on the stacks at `slots[i..]`.
pub open spec fn room_from(slots: Seq<Option<StackModel>>, item_kind: Seq<char>, digest: Seq<char>, i: int) -> int
    decreases slots.len() - i,
{
    if i < 0 || i >= slots.len() {
        0
    } else {
        room_of(slots[i], item_kind, digest) + room_from(slots, item_kind, digest, i + 1)
    }
}

/// Number of empty slots at `slots[s..capacity]`.
pub open spec fn empties(slots: Seq<Option<StackModel>>, s: int, capacity: int) -> int
    decreases capacity - s,
{
    if s < 0 || s >= capacity {
        0
    } else {
        (if slots[s] is None { 1int } else { 0int }) + empties(slots, s + 1, capacity)
    }
}

/// Two slot sequences hold stacks at the same slots.
pub open spec fn same_occupancy(a: Seq<Option<StackModel>>, b: Seq<Option<StackModel>>) -> bool {
    &&& a.len() == b.len()
    &&& forall|j: int| 0 <= j < a.len() ==> (#[trigger] a[j] is Some) == (b[j] is Some)
}

/// Placements with positive amounts, at slots in `lo..hi` in strictly
/// ascending order, each of which holds a stack (`occupied_slots`) or is
/// empty (`!occupied_slots`) in `slots`.
pub open spec fn ascending_placements(p: Seq<(usize, u32)>, slots: Seq<Option<StackModel>>, lo: int, hi: int, occupied_slots: bool) -> bool {
    &&& forall|t: int| 0 <= t < p.len() ==> {
        &&& (#[trigger] p[t]).1 > 0
        &&& lo <= p[t].0 < hi
        &&& (slots[p[t].0 as int] is Some) == occupied_slots
    }
    &&& forall|t: int, u: int| 0 <= t < u < p.len() ==> (#[trigger] p[t]).0 < (#[trigger] p[u]).0
}

pub proof fn lemma_room_from_nonneg(slots: Seq<Option<StackModel>>, item_kind: Seq<char>, digest: Seq<char>, i: int)
    ensures
        room_from(slots, item_kind, digest, i) >= 0,
    decreases slots.len() - i,
{
    if 0 <= i < slots.len() {
        lemma_room_from_nonneg(slots, item_kind, digest, i + 1);
    }
}

/// Changing a slot before `i` leaves the room at `slots[i..]` as it was.
pub proof fn lemma_room_from_update(slots: Seq<Option<StackModel>>, item_kind: Seq<char>, digest: Seq<char>, j: int, x: Option<StackModel>, i: int)
    requires
        0 <= j < i,
        j < slots.len(),
    ensures
        room_from(slots.update(j, x), item_kind, digest, i) == room_from(slots, item_kind, digest, i),
    decreases slots.len() - i,
{
    if i < slots.len() {
        lemma_room_from_update(slots, item_kind, digest, j, x, i + 1);
    }
}

/// The room counted from the front equals the room counted from the back.
pub proof fn lemma_merge_room_split(slots: Seq<Option<StackModel>>, item_kind: Seq<char>, digest: Seq<char>, n: int)
    requires
        0 <= n <= slots.len(),
    ensures
        merge_room(slots, item_kind, digest, n) + room_from(slots, item_kind, digest, n) == room_from(slots, item_kind, digest, 0),
    decreases n,
{
    if n > 0 {
        lemma_merge_room_split(slots, item_kind, digest, n - 1);
    }
}

/// Slots that hold stacks at the same places have as many empty ones.
pub proof fn lemma_empties_same_occupancy(a: Seq<Option<StackModel>>, b: Seq<Option<StackModel>>, s: int, capacity: int)
    requires
        same_occupancy(a, b),
        capacity <= a.len(),
        0 <= s,
    ensures
        empties(a, s, capacity) == empties(b, s, capacity),
    decreases capacity - s,
{
    if s < capacity {
        assert(a[s] is Some == b[s] is Some);
        lemma_empties_same_occupancy(a, b, s + 1, capacity);
    }
}

/// Changing a slot before `s` leaves the empty slots at `slots[s..]` as they were.
pub proof fn lemma_empties_update(slots: Seq<Option<StackModel>>, j: int, x: Option<StackModel>, s: int, capacity: int)
    requires
        0 <= j < s,
        j < slots.len(),
        capacity <= slots.len(),
    ensures
        empties(slots.update(j, x), s, capacity) == empties(slots, s, capacity),
    decreases capacity - s,
{
    if s < capacity {
        lemma_empties_update(slots, j, x, s + 1, capacity);
    }
}

/// The empty slots at `slots[n..capacity]` are the slots there less the
/// stacks there.
pub proof fn lemma_empties_occupied(slots: Seq<Option<StackModel>>, n: int, capacity: int)
    requires
        0 <= n <= capacity <= slots.len(),
    ensures
        empties(slots, n, capacity) == (capacity - n) - (occupied(slots, capacity) - occupied(slots, n)),
    decreases capacity - n,
{
    if n < capacity {
        lemma_empties_occupied(slots, n + 1, capacity);
    }
}

/// Counting stacks over more slots counts no fewer, and never more than the slots.
pub proof fn lemma_occupied_mono(slots: Seq<Option<StackModel>>, a: int, b: int)
    requires
        0 <= a <= b,
    ensures
        occupied(slots, a) <= occupied(slots, b),
        occupied(slots, b) - occupied(slots, a) <= b - a,
    decreases b,
{
    if b > a {
        lemma_occupied_mono(slots, a, b - 1);
    }
}

/// With no stack at or past `capacity`, the stacks below it are all there are.
pub proof fn lemma_occupied_tail(slots: Seq<Option<StackModel>>, capacity: int, n: int)
    requires
        0 <= capacity <= n <= slots.len(),
        forall|j: int| capacity <= j < slots.len() ==> #[trigger] slots[j] is None,
    ensures
        occupied(slots, n) == occupied(slots, capacity),
    decreases n,
{
    if n > capacity {
        lemma_occupied_tail(slots, capacity, n - 1);
    }
}

/// A merge pass asked to place `remaining > 0` items at `slots[i..]` finishes
/// exactly when they fit in the room there, and otherwise leaves what does
/// not; it keeps which slots hold stacks, and places positive amounts on
/// stacks, in ascending slot order.
pub proof fn lemma_merge_pass_fits(slots: Seq<Option<StackModel>>, item_kind: Seq<char>, digest: Seq<char>, remaining: u32, i: int)
    requires
        0 <= i <= slots.len() <= usize::MAX,
        remaining > 0,
    ensures
        ({
            let p = merge_pass(slots, item_kind, digest, remaining, i);
            &&& p.3 <==> remaining <= room_from(slots, item_kind, digest, i)
            &&& !p.3 ==> p.2 == remaining - room_from(slots, item_kind, digest, i)
            &&& same_occupancy(p.0, slots)
            &&& ascending_placements(p.1, slots, i, slots.len() as int, true)
        }),
    decreases slots.len() - i,
{
    let p = merge_pass(slots, item_kind, digest, remaining, i);
    if i == slots.len() {
        assert(p.1 =~= Seq::<(usize, u32)>::empty());
    } else if can_merge(slots[i], item_kind, digest) {
        let s = slots[i]->0;
        let placed = min_u32(remaining, (s.max_quantity - s.quantity) as u32);
        let x = Some(StackModel { quantity: (s.quantity + placed) as u32, ..s });
        let next = slots.update(i, x);
        lemma_room_from_nonneg(slots, item_kind, digest, i + 1);
        assert(same_occupancy(next, slots));
        if remaining - placed == 0 {
            assert(p.1 =~= seq![(i as usize, placed)]);
        } else {
            let r = (remaining - placed) as u32;
            lemma_merge_pass_fits(next, item_kind, digest, r, i + 1);
            lemma_room_from_update(slots, item_kind, digest, i, x, i + 1);
            let q = merge_pass(next, item_kind, digest, r, i + 1);
            assert(p.1 == seq![(i as usize, placed)] + q.1);
            assert forall|t: int| 0 <= t < p.1.len() implies {
                &&& (#[trigger] p.1[t]).1 > 0
                &&& i <= p.1[t].0 < slots.len()
                &&& (slots[p.1[t].0 as int] is Some) == true
            } by {
                if t > 0 {
                    assert(p.1[t] == q.1[t - 1]);
                    assert(next[q.1[t - 1].0 as int] is Some);
                }
            }
            assert forall|t: int, u: int| 0 <= t < u < p.1.len() implies (#[trigger] p.1[t]).0 < (#[trigger] p.1[u]).0 by {
                assert(p.1[u] == q.1[u - 1]);
                if t > 0 {
                    assert(p.1[t] == q.1[t - 1]);
                }
            }
        }
    } else {
        lemma_merge_pass_fits(slots, item_kind, digest, remaining, i + 1);
    }
}

/// A fill pass asked to place `remaining > 0` items, `max_quantity > 0` to a
/// stack, into the empty slots at `slots[s..capacity]` finishes exactly when
/// they fit in full stacks there; it places positive amounts in empty slots,
/// in ascending slot order.
pub proof fn lemma_fill_pass_fits(
    slots: Seq<Option<StackModel>>,
    capacity: int,
    item_kind: Seq<char>,
    digest: Seq<char>,
    max_quantity: u32,
    remaining: u32,
    s: int,
)
    requires
        0 <= s,
        capacity <= slots.len() <= usize::MAX,
        remaining > 0,
        max_quantity > 0,
    ensures
        ({
            let f = fill_pass(slots, capacity, item_kind, digest, max_quantity, remaining, s);
            &&& f.3 <==> remaining <= max_quantity * empties(slots, s, capacity)
            &&& ascending_placements(f.1, slots, s, capacity, false)
            &&& f.0.len() == slots.len()
            &&& forall|j: int| capacity <= j < slots.len() ==> #[trigger] f.0[j] == slots[j]
        }),
    decreases capacity - s,
{
    let f = fill_pass(slots, capacity, item_kind, digest, max_quantity, remaining, s);
    if s >= capacity {
        assert(f.1 =~= Seq::<(usize, u32)>::empty());
    } else if slots[s] is Some {
        lemma_fill_pass_fits(slots, capacity, item_kind, digest, max_quantity, remaining, s + 1);
    } else {
        let placed = min_u32(remaining, max_quantity);
        let x = Some(StackModel { item_kind, components_digest: digest, quantity: placed, max_quantity });
        let next = slots.update(s, x);
        let e = empties(slots, s + 1, capacity);
        assert(e >= 0) by {
            lemma_empties_occupied(slots, s + 1, capacity);
            lemma_occupied_mono(slots, s + 1, capacity);
        }
        assert(max_quantity * (e + 1) == max_quantity * e + max_quantity) by (nonlinear_arith);
        assert(max_quantity * e >= 0) by (nonlinear_arith) requires e >= 0;
        if remaining - placed == 0 {
            assert(f.1 =~= seq![(s as usize, placed)]);
        } else {
            let r = (remaining - placed) as u32;
            lemma_fill_pass_fits(next, capacity, item_kind, digest, max_quantity, r, s + 1);
            lemma_empties_update(slots, s, x, s + 1, capacity);
            let g = fill_pass(next, capacity, item_kind, digest, max_quantity, r, s + 1);
            assert(f.1 == seq![(s as usize, placed)] + g.1);
            assert forall|t: int| 0 <= t < f.1.len() implies {
                &&& (#[trigger] f.1[t]).1 > 0
                &&& s <= f.1[t].0 < capacity
                &&& (slots[f.1[t].0 as int] is Some) == false
            } by {
                if t > 0 {
                    assert(f.1[t] == g.1[t - 1]);
                    assert(next[g.1[t - 1].0 as int] is None);
                }
            }
            assert forall|t: int, u: int| 0 <= t < u < f.1.len() implies (#[trigger] f.1[t]).0 < (#[trigger] f.1[u]).0 by {
                assert(f.1[u] == g.1[u - 1]);
                if t > 0 {
                    assert(f.1[t] == g.1[t - 1]);
                }
            }
        }
    }
}

/// No stack sits at or past the capacity.
pub open spec fn stacks_below_capacity(m: CapacityModel) -> bool {
    forall|j: int| m.capacity <= j < m.slots.len() ==> #[trigger] m.slots[j] is None
}

/// The count of what is available of a kind and digest does not saturate:
/// the room on its stacks plus a full stack per empty slot fits a `u32`.
pub open spec fn availability_exact(m: CapacityModel, item_kind: Seq<char>, digest: Seq<char>, max_quantity: u32) -> bool {
    merge_room(m.slots, item_kind, digest, m.slots.len() as int)
        + (m.capacity - occupied(m.slots, m.slots.len() as int)) * max_quantity <= u32::MAX
}

/// A container whose stacks all sit below its capacity is simulated with
/// exactly its capacity's slots, so no stack lies at or past the capacity.
pub proof fn lemma_capacity_of_within(contents: Seq<(usize, ItemStack)>, capacity: int, sizes: StackSizes)
    requires
        capacity >= 0,
        forall|i: int| 0 <= i < contents.len() ==> #[trigger] contents[i].0 < capacity,
    ensures
        spec_capacity_of(contents, capacity, sizes).slots.len() == capacity,
{
    lemma_covered_within(contents, capacity, contents.len() as int);
}

pub proof fn lemma_covered_within(contents: Seq<(usize, ItemStack)>, capacity: int, n: int)
    requires
        capacity >= 0,
        0 <= n <= contents.len(),
        forall|i: int| 0 <= i < contents.len() ==> #[trigger] contents[i].0 < capacity,
    ensures
        crate::capacity::covered_slots(contents, capacity, n) == capacity,
    decreases n,
{
    if n > 0 {
        lemma_covered_within(contents, capacity, n - 1);
        assert(contents[n - 1].0 < capacity);
    }
}

/// The first `e` placements top up stacks, in ascending slot order; the
/// rest start new stacks in empty slots below `capacity`, in ascending slot
/// order; every amount is positive.
pub open spec fn tops_up_first(p: Seq<(usize, u32)>, slots: Seq<Option<StackModel>>, capacity: int, e: int) -> bool {
    &&& 0 <= e <= p.len()
    &&& ascending_placements(p.subrange(0, e), slots, 0, slots.len() as int, true)
    &&& ascending_placements(p.subrange(e, p.len() as int), slots, 0, capacity, false)
}

/// Placing `quantity > 0` items of a kind and digest, `max_quantity > 0` to
/// a stack, in a container with no stack at or past its capacity, succeeds
/// exactly when they fit: when the quantity is at most what is available
/// (where that count does not saturate). A successful placement tops up
/// stacks that hold items, in ascending slot order, before it starts new
/// stacks in empty slots below the capacity, in ascending slot order; every
/// amount is positive and no slot is used twice.
pub proof fn law_allocate_succeeds_iff_room(m: CapacityModel, item_kind: Seq<char>, digest: Seq<char>, quantity: u32, max_quantity: u32)
    requires
        quantity > 0,
        max_quantity > 0,
        m.covers_capacity(),
        stacks_below_capacity(m),
        availability_exact(m, item_kind, digest, max_quantity),
    ensures
        spec_allocate(m, item_kind, digest, quantity, max_quantity) is Some
            <==> quantity <= spec_available(m, item_kind, digest, max_quantity),
        spec_allocate(m, item_kind, digest, quantity, max_quantity) is Some ==> exists|e: int|
            #[trigger] tops_up_first((spec_allocate(m, item_kind, digest, quantity, max_quantity)->0).0, m.slots, m.capacity as int, e),
        spec_allocate(m, item_kind, digest, quantity, max_quantity) matches Some((_, slots)) ==> {
            &&& slots.len() == m.slots.len()
            &&& forall|j: int| m.capacity <= j < m.slots.len() ==> #[trigger] slots[j] is None
        },
        spec_allocate(m, item_kind, digest, quantity, max_quantity) matches Some((p, _)) ==> {
            &&& forall|t: int| 0 <= t < p.len() ==> (#[trigger] p[t]).1 > 0
            &&& forall|t: int, u: int| 0 <= t < u < p.len() ==> (#[trigger] p[t]).0 != (#[trigger] p[u]).0
        },
{
    let slots = m.slots;
    let cap = m.capacity as int;
    let len = slots.len() as int;
    let room = merge_room(slots, item_kind, digest, len);
    lemma_merge_room_split(slots, item_kind, digest, len);
    assert(room_from(slots, item_kind, digest, len) == 0);
    lemma_empties_occupied(slots, 0, cap);
    lemma_occupied_tail(slots, cap, len);
    lemma_occupied_mono(slots, 0, cap);
    let empty = empties(slots, 0, cap);
    assert(empty == m.capacity - occupied(slots, len));
    assert(empty * max_quantity >= 0) by (nonlinear_arith) requires empty >= 0;
    lemma_room_from_nonneg(slots, item_kind, digest, 0);
    assert(spec_available(m, item_kind, digest, max_quantity) == room + empty * max_quantity) by {
        assert(m.capacity >= occupied(slots, len));
    }
    lemma_merge_pass_fits(slots, item_kind, digest, quantity, 0);
    let merged = merge_pass(slots, item_kind, digest, quantity, 0);
    if merged.3 {
        let p = merged.1;
        assert(p.subrange(0, p.len() as int) =~= p);
        assert(p.subrange(p.len() as int, p.len() as int) =~= Seq::<(usize, u32)>::empty());
        let e = p.len() as int;
        assert(ascending_placements(p.subrange(0, e), m.slots, 0, m.slots.len() as int, true));
        assert(ascending_placements(p.subrange(e, p.len() as int), m.slots, 0, m.capacity as int, false));
    } else {
        lemma_empties_same_occupancy(merged.0, slots, 0, cap);
        lemma_fill_pass_fits(merged.0, cap, item_kind, digest, max_quantity, merged.2, 0);
        assert(max_quantity * empty == empty * max_quantity) by (nonlinear_arith);
        let filled = fill_pass(merged.0, cap, item_kind, digest, max_quantity, merged.2, 0);
        if filled.3 {
            let p = merged.1 + filled.1;
            let e = merged.1.len() as int;
            assert(p.subrange(0, e) =~= merged.1);
            assert(p.subrange(e, p.len() as int) =~= filled.1);
            assert forall|t: int| 0 <= t < filled.1.len() implies (slots[(#[trigger] filled.1[t]).0 as int] is Some) == false by {
                assert(merged.0[filled.1[t].0 as int] is Some == slots[filled.1[t].0 as int] is Some);
            }
            assert(ascending_placements(p.subrange(e, p.len() as int), slots, 0, cap, false));
            assert(ascending_placements(p.subrange(0, e), m.slots, 0, m.slots.len() as int, true));
                assert forall|t: int, u: int| 0 <= t < u < p.len() implies (#[trigger] p[t]).0 != (#[trigger] p[u]).0 by {
                if u < e {
                    assert(p[t] == merged.1[t] && p[u] == merged.1[u]);
                } else if t >= e {
                    assert(p[t] == filled.1[t - e] && p[u] == filled.1[u - e]);
                } else {
                    assert(p[t] == merged.1[t] && p[u] == filled.1[u - e]);
                    assert(slots[merged.1[t].0 as int] is Some);
                    assert(slots[filled.1[u - e].0 as int] is None);
                }
            }
            assert forall|t: int| 0 <= t < p.len() implies (#[trigger] p[t]).1 > 0 by {
                if t < e {
                    assert(p[t] == merged.1[t]);
                } else {
                    assert(p[t] == filled.1[t - e]);
                }
            }
        }
    }
    let r = spec_allocate(m, item_kind, digest, quantity, max_quantity);
    if r is Some {
        assert(tops_up_first((r->0).0, m.slots, m.capacity as int, merged.1.len() as int));
    }
}

} // verus!
