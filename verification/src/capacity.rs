//! Simulated container capacity: what fits in a container, slot by slot,
//! while transfers into and out of it are planned.
use crate::item_stack::{distinct_slots, Container, ItemStack, StackSizes};
use crate::allocation::{availability_exact, law_allocate_succeeds_iff_room, stacks_below_capacity};
use vstd::prelude::*;

verus! {

/// A stack as the simulation sees it.
#[derive(Debug)]
pub struct VirtualStack {
    pub item_kind: String,
    pub components_digest: String,
    pub quantity: u32,
    pub max_quantity: u32,
}

/// Mathematical model of a [`VirtualStack`].
pub struct StackModel {
    pub item_kind: Seq<char>,
    pub components_digest: Seq<char>,
    pub quantity: u32,
    pub max_quantity: u32,
}

impl VirtualStack {
    pub open spec fn model(&self) -> StackModel {
        StackModel {
            item_kind: self.item_kind@,
            components_digest: self.components_digest@,
            quantity: self.quantity,
            max_quantity: self.max_quantity,
        }
    }
}

/// Models of the slots of a container, by slot index.
pub open spec fn slot_models(slots: Seq<Option<VirtualStack>>) -> Seq<Option<StackModel>> {
    slots.map_values(|o: Option<VirtualStack>| opt_model(o))
}

/// Model of an optional stack.
pub open spec fn opt_model(o: Option<VirtualStack>) -> Option<StackModel> {
    match o {
        Some(s) => Some(s.model()),
        None => None,
    }
}

pub proof fn lemma_slot_models_update(slots: Seq<Option<VirtualStack>>, i: int, x: Option<VirtualStack>)
    requires
        0 <= i < slots.len(),
    ensures
        slot_models(slots.update(i, x)) == slot_models(slots).update(i, opt_model(x)),
{
    assert(slot_models(slots.update(i, x)) =~= slot_models(slots).update(i, opt_model(x)));
}

pub proof fn lemma_after(a: Seq<(usize, u32)>, b: Seq<(usize, u32)>, p: Pass)
    ensures
        after(a, after(b, p)) == after(a + b, p),
{
    assert(a + (b + p.1) =~= (a + b) + p.1);
}

/// The simulated contents of a container with `capacity` slots. A slot holds
/// at most one stack; stacks may sit at slots past the capacity.
#[derive(Debug)]
pub struct ContainerCapacity {
    capacity: usize,
    slots: Vec<Option<VirtualStack>>,
}

/// Mathematical model of a [`ContainerCapacity`]: `slots[k]` is the stack at
/// slot `k`; every slot at or past `slots.len()` is empty.
pub struct CapacityModel {
    pub capacity: nat,
    pub slots: Seq<Option<StackModel>>,
}

impl CapacityModel {
    /// The slots cover every slot below the capacity, and are no more than
    /// a vector can hold.
    pub open spec fn covers_capacity(self) -> bool {
        self.capacity <= self.slots.len() <= usize::MAX
    }
}

/// Why the simulation of a container could not start.
#[derive(Debug, PartialEq, Eq)]
pub enum CapacityError {
    NegativeQuantity,
    CapacityTooLarge,
}

impl ContainerCapacity {
    #[verifier::type_invariant]
    spec fn covers_capacity(&self) -> bool {
        self.slots@.len() >= self.capacity
    }

    pub closed spec fn model(&self) -> CapacityModel {
        CapacityModel { capacity: self.capacity as nat, slots: slot_models(self.slots@) }
    }
}

/// Number of occupied slots among the first `n`.
pub open spec fn occupied(slots: Seq<Option<StackModel>>, n: int) -> nat
    decreases n,
{
    if n <= 0 {
        0
    } else {
        occupied(slots, n - 1) + if slots[n - 1] is Some { 1nat } else { 0nat }
    }
}

/// The stack of `contents` at slot `k`, as the simulation sees it.
pub open spec fn content_at(contents: Seq<(usize, ItemStack)>, sizes: StackSizes, k: int, i: int) -> Option<StackModel>
    decreases contents.len() - i,
{
    if i < 0 || i >= contents.len() {
        None
    } else if contents[i].0 == k {
        Some(StackModel {
            item_kind: contents[i].1.item_kind@,
            components_digest: contents[i].1.components_digest@,
            quantity: contents[i].1.quantity as u32,
            max_quantity: sizes.size_of(contents[i].1.item_kind@),
        })
    } else {
        content_at(contents, sizes, k, i + 1)
    }
}

/// Number of slots the simulation of `contents` in a container of `capacity` covers.
pub open spec fn covered_slots(contents: Seq<(usize, ItemStack)>, capacity: int, n: int) -> int
    decreases n,
{
    if n <= 0 {
        capacity
    } else {
        let prev = covered_slots(contents, capacity, n - 1);
        if contents[n - 1].0 + 1 > prev { contents[n - 1].0 + 1 } else { prev }
    }
}

/// Whether a stack can take more items of a kind and digest.
pub open spec fn can_merge(slot: Option<StackModel>, item_kind: Seq<char>, digest: Seq<char>) -> bool {
    slot matches Some(s) && s.item_kind == item_kind && s.components_digest == digest && s.quantity < s.max_quantity
}

pub open spec fn min_u32(a: u32, b: u32) -> u32 {
    if a <= b { a } else { b }
}

/// The result of a placement pass: the slots after it, the placements made,
/// what remains to place, and whether everything was placed.
pub type Pass = (Seq<Option<StackModel>>, Seq<(usize, u32)>, u32, bool);

pub open spec fn after(done: Seq<(usize, u32)>, pass: Pass) -> Pass {
    (pass.0, done + pass.1, pass.2, pass.3)
}

/// Tops up the mergeable stacks at `slots[i..]`, in slot order, until nothing remains.
pub open spec fn merge_pass(slots: Seq<Option<StackModel>>, item_kind: Seq<char>, digest: Seq<char>, remaining: u32, i: int) -> Pass
    decreases slots.len() - i,
{
    if i < 0 || i >= slots.len() {
        (slots, Seq::empty(), remaining, false)
    } else if can_merge(slots[i], item_kind, digest) {
        let s = slots[i]->0;
        let placed = min_u32(remaining, (s.max_quantity - s.quantity) as u32);
        let next = slots.update(i, Some(StackModel { quantity: (s.quantity + placed) as u32, ..s }));
        if remaining - placed == 0 {
            (next, seq![(i as usize, placed)], 0, true)
        } else {
            after(seq![(i as usize, placed)], merge_pass(next, item_kind, digest, (remaining - placed) as u32, i + 1))
        }
    } else {
        merge_pass(slots, item_kind, digest, remaining, i + 1)
    }
}

/// Starts new stacks in the empty slots `s..capacity`, in slot order, until nothing remains.
pub open spec fn fill_pass(
    slots: Seq<Option<StackModel>>,
    capacity: int,
    item_kind: Seq<char>,
    digest: Seq<char>,
    max_quantity: u32,
    remaining: u32,
    s: int,
) -> Pass
    decreases capacity - s,
{
    if s < 0 || s >= capacity {
        (slots, Seq::empty(), remaining, false)
    } else if slots[s] is Some {
        fill_pass(slots, capacity, item_kind, digest, max_quantity, remaining, s + 1)
    } else {
        let placed = min_u32(remaining, max_quantity);
        let next = slots.update(s, Some(StackModel {
            item_kind,
            components_digest: digest,
            quantity: placed,
            max_quantity,
        }));
        if remaining - placed == 0 {
            (next, seq![(s as usize, placed)], 0, true)
        } else {
            after(seq![(s as usize, placed)], fill_pass(next, capacity, item_kind, digest, max_quantity,
                (remaining - placed) as u32, s + 1))
        }
    }
}

/// Places `quantity` items: first onto the stacks of the same kind and digest
/// that have room, in slot order, then into empty slots below the capacity,
/// in slot order. Gives the placements and the slots after them, or `None`
/// when they do not all fit.
pub open spec fn spec_allocate(m: CapacityModel, item_kind: Seq<char>, digest: Seq<char>, quantity: u32, max_quantity: u32)
    -> Option<(Seq<(usize, u32)>, Seq<Option<StackModel>>)> {
    let merged = merge_pass(m.slots, item_kind, digest, quantity, 0);
    if merged.3 {
        Some((merged.1, merged.0))
    } else {
        let filled = fill_pass(merged.0, m.capacity as int, item_kind, digest, max_quantity, merged.2, 0);
        if filled.3 {
            Some((merged.1 + filled.1, filled.0))
        } else {
            None
        }
    }
}

/// Takes `remaining` items of a kind out of the stacks at `slots[i..]`, in
/// slot order, emptying slots that run out. Gives the slots after it and
/// whether everything was taken.
pub open spec fn consume_pass(slots: Seq<Option<StackModel>>, item_kind: Seq<char>, remaining: u32, i: int)
    -> (Seq<Option<StackModel>>, bool)
    decreases slots.len() - i,
{
    if i < 0 || i >= slots.len() {
        (slots, false)
    } else if slots[i] is Some && slots[i]->0.item_kind == item_kind {
        let s = slots[i]->0;
        let taken = min_u32(remaining, s.quantity);
        let left = (s.quantity - taken) as u32;
        let next = if left == 0 {
            slots.update(i, None)
        } else {
            slots.update(i, Some(StackModel { quantity: left, ..s }))
        };
        if remaining - taken == 0 {
            (next, true)
        } else {
            consume_pass(next, item_kind, (remaining - taken) as u32, i + 1)
        }
    } else {
        consume_pass(slots, item_kind, remaining, i + 1)
    }
}

/// Room left on the stacks of a kind and digest at `slots[..n]`.
pub open spec fn merge_room(slots: Seq<Option<StackModel>>, item_kind: Seq<char>, digest: Seq<char>, n: int) -> int
    decreases n,
{
    if n <= 0 {
        0
    } else {
        merge_room(slots, item_kind, digest, n - 1) + match slots[n - 1] {
            Some(s) => if s.item_kind == item_kind && s.components_digest == digest && s.quantity < s.max_quantity {
                s.max_quantity - s.quantity
            } else {
                0
            },
            None => 0,
        }
    }
}

pub open spec fn saturating_u32(x: int) -> u32 {
    if x > u32::MAX { u32::MAX } else { x as u32 }
}

/// The items of a kind and digest that still fit: the room on its stacks,
/// plus a full stack of `max_quantity` for each empty slot the capacity
/// leaves, saturating at `u32::MAX`.
pub open spec fn spec_available(m: CapacityModel, item_kind: Seq<char>, digest: Seq<char>, max_quantity: u32) -> u32 {
    let empty = if m.capacity >= occupied(m.slots, m.slots.len() as int) {
        m.capacity - occupied(m.slots, m.slots.len() as int)
    } else {
        0
    };
    saturating_u32(merge_room(m.slots, item_kind, digest, m.slots.len() as int) + saturating_u32(empty * max_quantity))
}

fn clone_stack(stack: &VirtualStack) -> (copy: VirtualStack)
    ensures
        copy.model() == stack.model(),
{
    VirtualStack {
        item_kind: stack.item_kind.clone(),
        components_digest: stack.components_digest.clone(),
        quantity: stack.quantity,
        max_quantity: stack.max_quantity,
    }
}

fn clone_slots(slots: &Vec<Option<VirtualStack>>) -> (copy: Vec<Option<VirtualStack>>)
    ensures
        slot_models(copy@) == slot_models(slots@),
{
    let mut copy: Vec<Option<VirtualStack>> = Vec::new();
    let mut i: usize = 0;
    while i < slots.len()
        invariant
            i <= slots@.len(),
            copy@.len() == i,
            slot_models(copy@) =~= slot_models(slots@).subrange(0, i as int),
        decreases slots.len() - i,
    {
        let item = match &slots[i] {
            Some(stack) => Some(clone_stack(stack)),
            None => None,
        };
        let ghost before = copy@;
        copy.push(item);
        assert(slot_models(copy@)[i as int] == slot_models(slots@)[i as int]);
        assert forall|j: int| 0 <= j < i implies slot_models(copy@)[j] == slot_models(before)[j] by {
            assert(copy@[j] == before[j]);
        }
        assert(slot_models(copy@) =~= slot_models(slots@).subrange(0, i + 1));
        i = i + 1;
    }
    assert(slot_models(slots@).subrange(0, slots@.len() as int) =~= slot_models(slots@));
    copy
}

/// The simulation's model of a container of `capacity` slots holding `contents`.
pub open spec fn spec_capacity_of(contents: Seq<(usize, ItemStack)>, capacity: int, sizes: StackSizes) -> CapacityModel {
    CapacityModel {
        capacity: capacity as nat,
        slots: Seq::new(covered_slots(contents, capacity, contents.len() as int) as nat,
            |k: int| content_at(contents, sizes, k, 0)),
    }
}

/// Some stack of `contents` holds a negative quantity.
pub open spec fn has_negative_quantity(contents: Seq<(usize, ItemStack)>) -> bool {
    exists|i: int| #![trigger contents[i]] 0 <= i < contents.len() && contents[i].1.quantity < 0
}

pub proof fn lemma_covered_slots(contents: Seq<(usize, ItemStack)>, capacity: int, n: int)
    requires
        0 <= n <= contents.len(),
        capacity >= 0,
    ensures
        covered_slots(contents, capacity, n) >= capacity,
        forall|i: int| 0 <= i < n ==> #[trigger] contents[i].0 < covered_slots(contents, capacity, n),
    decreases n,
{
    if n > 0 {
        lemma_covered_slots(contents, capacity, n - 1);
    }
}

pub proof fn lemma_content_at(contents: Seq<(usize, ItemStack)>, sizes: StackSizes, k: int, i: int)
    requires
        0 <= i,
    ensures
        content_at(contents, sizes, k, i) is Some <==> exists|j: int| i <= j < contents.len() && #[trigger] contents[j].0 == k,
    decreases contents.len() - i,
{
    if i < contents.len() {
        lemma_content_at(contents, sizes, k, i + 1);
        if contents[i].0 != k {
            if exists|j: int| i <= j < contents.len() && #[trigger] contents[j].0 == k {
                let j = choose|j: int| i <= j < contents.len() && #[trigger] contents[j].0 == k;
                assert(j != i);
            }
        }
    }
}

/// With distinct slots, the stack at the slot of `contents[j]` is `contents[j]`.
pub proof fn lemma_content_at_entry(contents: Seq<(usize, ItemStack)>, sizes: StackSizes, j: int, i: int)
    requires
        distinct_slots(contents),
        0 <= i <= j < contents.len(),
    ensures
        content_at(contents, sizes, contents[j].0 as int, i) == Some(StackModel {
            item_kind: contents[j].1.item_kind@,
            components_digest: contents[j].1.components_digest@,
            quantity: contents[j].1.quantity as u32,
            max_quantity: sizes.size_of(contents[j].1.item_kind@),
        }),
    decreases j - i,
{
    if i < j {
        assert(contents[i].0 != contents[j].0);
        lemma_content_at_entry(contents, sizes, j, i + 1);
    }
}

impl ContainerCapacity {
    /// Starts a simulation of `container`; `sizes` gives the stack size of each item kind.
    pub fn new<P>(container: &Container<P>, sizes: &StackSizes) -> (result: Result<ContainerCapacity, CapacityError>)
        requires
            distinct_slots(container.contents@),
            sizes.valid(),
            forall|i: int| 0 <= i < container.contents@.len() ==> #[trigger] container.contents@[i].0 < usize::MAX,
        ensures
            result is Ok <==> !has_negative_quantity(container.contents@) && container.capacity <= usize::MAX,
            result matches Ok(c) ==> c.model() == spec_capacity_of(container.contents@, container.capacity as int, *sizes),
            result matches Ok(c) ==> c.model().covers_capacity(),
            result matches Err(e) ==> e == if has_negative_quantity(container.contents@) {
                CapacityError::NegativeQuantity
            } else {
                CapacityError::CapacityTooLarge
            },
    {
        let contents = &container.contents;
        let mut i: usize = 0;
        while i < contents.len()
            invariant
                contents@ == container.contents@,
                i <= contents@.len(),
                forall|j: int| 0 <= j < i ==> #[trigger] contents@[j].1.quantity >= 0,
            decreases contents.len() - i,
        {
            if contents[i].1.quantity < 0 {
                assert(container.contents@[i as int].1.quantity < 0);
                assert(has_negative_quantity(container.contents@));
                return Err(CapacityError::NegativeQuantity);
            }
            i = i + 1;
        }
        if container.capacity > usize::MAX as u64 {
            return Err(CapacityError::CapacityTooLarge);
        }
        let capacity = container.capacity as usize;
        let mut covered: usize = capacity;
        let mut i: usize = 0;
        while i < contents.len()
            invariant
                contents@ == container.contents@,
                i <= contents@.len(),
                forall|j: int| 0 <= j < contents@.len() ==> #[trigger] contents@[j].0 < usize::MAX,
                covered == covered_slots(contents@, capacity as int, i as int),
            decreases contents.len() - i,
        {
            if contents[i].0 + 1 > covered {
                covered = contents[i].0 + 1;
            }
            i = i + 1;
        }
        let ghost target = spec_capacity_of(container.contents@, capacity as int, *sizes);
        proof {
            lemma_covered_slots(contents@, capacity as int, contents@.len() as int);
        }
        let mut slots: Vec<Option<VirtualStack>> = Vec::new();
        let mut k: usize = 0;
        while k < covered
            invariant
                contents@ == container.contents@,
                k <= covered,
                slots@.len() == k,
                covered as int == covered_slots(contents@, capacity as int, contents@.len() as int),
                forall|j: int| 0 <= j < k ==> #[trigger] slot_models(slots@)[j] == None::<StackModel>,
            decreases covered - k,
        {
            let ghost before = slots@;
            slots.push(None);
            assert forall|j: int| 0 <= j < k + 1 implies #[trigger] slot_models(slots@)[j] == None::<StackModel> by {
                if j < k {
                    assert(slots@[j] == before[j]);
                    assert(slot_models(before)[j] == None::<StackModel>);
                }
            }
            k = k + 1;
        }
        let mut i: usize = 0;
        while i < contents.len()
            invariant
                contents@ == container.contents@,
                i <= contents@.len(),
                distinct_slots(contents@),
                sizes.valid(),
                slots@.len() == covered,
                covered as int == covered_slots(contents@, capacity as int, contents@.len() as int),
                forall|j: int| 0 <= j < contents@.len() ==> #[trigger] contents@[j].0 < covered,
                forall|j: int| 0 <= j < contents@.len() ==> #[trigger] contents@[j].1.quantity >= 0,
                forall|k: int| 0 <= k < covered ==> #[trigger] slot_models(slots@)[k] ==
                    if exists|j: int| 0 <= j < i && #[trigger] contents@[j].0 == k {
                        content_at(contents@, *sizes, k, 0)
                    } else {
                        None
                    },
            decreases contents.len() - i,
        {
            let slot = contents[i].0;
            let stack = &contents[i].1;
            let max_quantity = sizes.stack_size(&stack.item_kind);
            let ghost before = slots@;
            slots.set(slot, Some(VirtualStack {
                item_kind: stack.item_kind.clone(),
                components_digest: stack.components_digest.clone(),
                quantity: stack.quantity as u32,
                max_quantity,
            }));
            proof {
                lemma_content_at_entry(contents@, *sizes, i as int, 0);
                assert forall|k: int| 0 <= k < covered implies #[trigger] slot_models(slots@)[k] ==
                    if exists|j: int| 0 <= j < i + 1 && #[trigger] contents@[j].0 == k {
                        content_at(contents@, *sizes, k, 0)
                    } else {
                        None
                    } by {
                    if k == slot as int {
                        assert(contents@[i as int].0 == k);
                    } else {
                        assert(slot_models(slots@)[k] == slot_models(before)[k]);
                        if exists|j: int| 0 <= j < i + 1 && #[trigger] contents@[j].0 == k {
                            let j = choose|j: int| 0 <= j < i + 1 && #[trigger] contents@[j].0 == k;
                            assert(j < i);
                        }
                    }
                }
            }
            i = i + 1;
        }
        let result = ContainerCapacity { capacity, slots };
        proof {
            assert forall|k: int| 0 <= k < covered implies #[trigger] slot_models(result.slots@)[k] ==
                content_at(contents@, *sizes, k, 0) by {
                lemma_content_at(contents@, *sizes, k, 0);
            }
            assert(result.model().slots =~= target.slots);
        }
        Ok(result)
    }
}

impl ContainerCapacity {
    /// Places `quantity` items of `item_kind` with `components_digest` (see
    /// [`spec_allocate`]) and gives the placements as (slot, quantity); the
    /// simulation takes them on. When they do not all fit, gives `None` and
    /// leaves the simulation as it was. With no stack past the capacity and
    /// an availability count that does not saturate, a positive quantity is
    /// placed exactly when it is at most what [`ContainerCapacity::available`]
    /// gives (see [`law_allocate_succeeds_iff_room`] for how it is placed).
    pub fn allocate(&mut self, item_kind: &String, components_digest: &String, quantity: u32, sizes: &StackSizes)
        -> (placements: Option<Vec<(usize, u32)>>)
        requires
            sizes.valid(),
        ensures
            match spec_allocate(old(self).model(), item_kind@, components_digest@, quantity, sizes.size_of(item_kind@)) {
                Some((placed, slots)) => placements matches Some(p) && p@ == placed
                    && final(self).model() == CapacityModel { capacity: old(self).model().capacity, slots },
                None => placements is None && final(self).model() == old(self).model(),
            },
            old(self).model().covers_capacity(),
            final(self).model().covers_capacity(),
            quantity > 0 && stacks_below_capacity(old(self).model())
                && availability_exact(old(self).model(), item_kind@, components_digest@, sizes.size_of(item_kind@))
                ==> (placements is Some <==> quantity <= spec_available(old(self).model(), item_kind@, components_digest@,
                    sizes.size_of(item_kind@))),
    {
        proof {
            use_type_invariant(&*self);
            assert(self.slots.len() == self.slots@.len());
            if quantity > 0 && stacks_below_capacity(self.model())
                && availability_exact(self.model(), item_kind@, components_digest@, sizes.size_of(item_kind@)) {
                sizes.lemma_size_in_range(item_kind@);
                law_allocate_succeeds_iff_room(self.model(), item_kind@, components_digest@, quantity, sizes.size_of(item_kind@));
            }
        }
        self.place(item_kind, components_digest, quantity, sizes)
    }

    /// The placement itself, as [`ContainerCapacity::allocate`] describes it.
    fn place(&mut self, item_kind: &String, components_digest: &String, quantity: u32, sizes: &StackSizes)
        -> (placements: Option<Vec<(usize, u32)>>)
        requires
            sizes.valid(),
        ensures
            match spec_allocate(old(self).model(), item_kind@, components_digest@, quantity, sizes.size_of(item_kind@)) {
                Some((placed, slots)) => placements matches Some(p) && p@ == placed
                    && final(self).model() == CapacityModel { capacity: old(self).model().capacity, slots },
                None => placements is None && final(self).model() == old(self).model(),
            },
            old(self).model().covers_capacity(),
            final(self).model().covers_capacity(),
    {
        proof {
            use_type_invariant(&*self);
            assert(self.slots.len() == self.slots@.len());
        }
        let ghost s0 = slot_models(self.slots@);
        let ghost k = item_kind@;
        let ghost d = components_digest@;
        let mut next = clone_slots(&self.slots);
        let mut remaining = quantity;
        let mut placements: Vec<(usize, u32)> = Vec::new();
        let mut i: usize = 0;
        while i < next.len()
            invariant
                i <= next@.len(),
                next@.len() == s0.len(),
                s0.len() >= self.capacity,
                self.slots@ == old(self).slots@,
                self.capacity == old(self).capacity,
                s0 == slot_models(old(self).slots@),
                k == item_kind@,
                d == components_digest@,
                merge_pass(s0, k, d, quantity, 0) == after(placements@, merge_pass(slot_models(next@), k, d, remaining, i as int)),
            decreases next.len() - i,
        {
            let ghost cur = slot_models(next@);
            assert(cur[i as int] == opt_model(next@[i as int]));
            let eligible = match &next[i] {
                Some(stack) => stack.item_kind == *item_kind && stack.components_digest == *components_digest
                    && stack.quantity < stack.max_quantity,
                None => false,
            };
            assert(eligible == can_merge(cur[i as int], k, d));
            if eligible {
                let current = next[i].as_ref().unwrap();
                let room = current.max_quantity - current.quantity;
                let placed = if remaining <= room { remaining } else { room };
                let stack = VirtualStack {
                    item_kind: current.item_kind.clone(),
                    components_digest: current.components_digest.clone(),
                    quantity: current.quantity + placed,
                    max_quantity: current.max_quantity,
                };
                let ghost stack_model = stack.model();
                proof {
                    lemma_slot_models_update(next@, i as int, Some(stack));
                }
                next.set(i, Some(stack));
                assert(slot_models(next@) == cur.update(i as int, Some(stack_model)));
                let ghost before = placements@;
                placements.push((i, placed));
                remaining = remaining - placed;
                if remaining == 0 {
                    assert(placements@ =~= before + seq![(i, placed)]);
                    self.slots = next;
                    return Some(placements);
                }
                proof {
                    lemma_after(before, seq![(i, placed)], merge_pass(slot_models(next@), k, d, remaining, i + 1));
                    assert(before + seq![(i, placed)] =~= placements@);
                }
            }
            i = i + 1;
        }
        assert(merge_pass(s0, k, d, quantity, 0) == (slot_models(next@), placements@ + Seq::<(usize, u32)>::empty(), remaining, false));
        assert(placements@ + Seq::<(usize, u32)>::empty() =~= placements@);
        let max_quantity = sizes.stack_size(item_kind);
        let ghost merged = slot_models(next@);
        let ghost r1 = remaining;
        let mut filled: Vec<(usize, u32)> = Vec::new();
        let mut s: usize = 0;
        while s < self.capacity
            invariant
                s <= self.capacity,
                next@.len() == s0.len(),
                s0.len() >= self.capacity,
                self.slots@ == old(self).slots@,
                self.capacity == old(self).capacity,
                s0 == slot_models(old(self).slots@),
                k == item_kind@,
                d == components_digest@,
                max_quantity == sizes.size_of(k),
                merge_pass(s0, k, d, quantity, 0) == (merged, placements@, r1, false),
                fill_pass(merged, self.capacity as int, k, d, max_quantity, r1, 0)
                    == after(filled@, fill_pass(slot_models(next@), self.capacity as int, k, d, max_quantity, remaining, s as int)),
            decreases self.capacity - s,
        {
            let ghost cur = slot_models(next@);
            assert(cur[s as int] == opt_model(next@[s as int]));
            if next[s].is_none() {
                let placed = if remaining <= max_quantity { remaining } else { max_quantity };
                let stack = VirtualStack {
                    item_kind: item_kind.clone(),
                    components_digest: components_digest.clone(),
                    quantity: placed,
                    max_quantity,
                };
                let ghost stack_model = stack.model();
                proof {
                    lemma_slot_models_update(next@, s as int, Some(stack));
                }
                next.set(s, Some(stack));
                assert(slot_models(next@) == cur.update(s as int, Some(stack_model)));
                let ghost before = filled@;
                filled.push((s, placed));
                remaining = remaining - placed;
                if remaining == 0 {
                    assert(filled@ =~= before + seq![(s, placed)]);
                    let ghost merge_part = placements@;
                    placements.append(&mut filled);
                    assert(placements@ =~= merge_part + (before + seq![(s, placed)]));
                    assert(next.len() == next@.len());
                    self.slots = next;
                    return Some(placements);
                }
                proof {
                    lemma_after(before, seq![(s, placed)], fill_pass(slot_models(next@), self.capacity as int, k, d,
                        max_quantity, remaining, s + 1));
                    assert(before + seq![(s, placed)] =~= filled@);
                }
            }
            s = s + 1;
        }
        None
    }
}

impl ContainerCapacity {
    /// Takes `quantity` items of `item_kind` (of any digest) out of the
    /// simulation, stack by stack in slot order (see [`consume_pass`]), and
    /// tells whether they were all there. When they were not, the simulation
    /// is left as it was.
    pub fn consume(&mut self, item_kind: &String, quantity: u32) -> (consumed: bool)
        ensures
            consumed == consume_pass(old(self).model().slots, item_kind@, quantity, 0).1,
            final(self).model() == if consumed {
                CapacityModel { capacity: old(self).model().capacity, slots: consume_pass(old(self).model().slots, item_kind@, quantity, 0).0 }
            } else {
                old(self).model()
            },
            old(self).model().covers_capacity(),
            final(self).model().covers_capacity(),
    {
        proof {
            use_type_invariant(&*self);
        }
        let ghost s0 = slot_models(self.slots@);
        let mut next = clone_slots(&self.slots);
        let mut remaining = quantity;
        let mut i: usize = 0;
        while i < next.len()
            invariant
                i <= next@.len(),
                next@.len() == s0.len(),
                s0.len() >= self.capacity,
                self.slots@ == old(self).slots@,
                self.capacity == old(self).capacity,
                s0 == slot_models(old(self).slots@),
                consume_pass(s0, item_kind@, quantity, 0) == consume_pass(slot_models(next@), item_kind@, remaining, i as int),
            decreases next.len() - i,
        {
            let ghost cur = slot_models(next@);
            assert(cur[i as int] == opt_model(next@[i as int]));
            let matching = match &next[i] {
                Some(stack) => stack.item_kind == *item_kind,
                None => false,
            };
            if matching {
                let current = next[i].as_ref().unwrap();
                let taken = if remaining <= current.quantity { remaining } else { current.quantity };
                let left = current.quantity - taken;
                if left == 0 {
                    proof {
                        lemma_slot_models_update(next@, i as int, None);
                    }
                    next.set(i, None);
                } else {
                    let stack = VirtualStack {
                        item_kind: current.item_kind.clone(),
                        components_digest: current.components_digest.clone(),
                        quantity: left,
                        max_quantity: current.max_quantity,
                    };
                    proof {
                        lemma_slot_models_update(next@, i as int, Some(stack));
                    }
                    next.set(i, Some(stack));
                }
                remaining = remaining - taken;
                if remaining == 0 {
                    self.slots = next;
                    return true;
                }
            }
            i = i + 1;
        }
        false
    }

    /// How many items of `item_kind` with `components_digest` still fit (see [`spec_available`]).
    pub fn available(&self, item_kind: &String, components_digest: &String, sizes: &StackSizes) -> (amount: u32)
        requires
            sizes.valid(),
        ensures
            amount == spec_available(self.model(), item_kind@, components_digest@, sizes.size_of(item_kind@)),
            self.model().covers_capacity(),
    {
        proof {
            use_type_invariant(self);
            assert(self.slots.len() == self.slots@.len());
        }
        let max_quantity = sizes.stack_size(item_kind);
        let ghost m = slot_models(self.slots@);
        let mut room: u32 = 0;
        let mut count: usize = 0;
        let mut i: usize = 0;
        while i < self.slots.len()
            invariant
                i <= self.slots@.len(),
                m == slot_models(self.slots@),
                room == saturating_u32(merge_room(m, item_kind@, components_digest@, i as int)),
                merge_room(m, item_kind@, components_digest@, i as int) >= 0,
                count == occupied(m, i as int),
                count <= i,
            decreases self.slots.len() - i,
        {
            assert(m[i as int] == opt_model(self.slots@[i as int]));
            proof {
                lemma_merge_room_mono(m, item_kind@, components_digest@, i as int, i + 1);
            }
            match &self.slots[i] {
                Some(stack) => {
                    count = count + 1;
                    if stack.item_kind == *item_kind && stack.components_digest == *components_digest {
                        let free = if stack.quantity < stack.max_quantity { stack.max_quantity - stack.quantity } else { 0 };
                        room = if room as u64 + free as u64 > u32::MAX as u64 { u32::MAX } else { room + free };
                    }
                },
                None => {},
            }
            i = i + 1;
        }
        let empty: usize = if self.capacity >= count { self.capacity - count } else { 0 };
        let empty_stacks: u32 = if empty <= u32::MAX as usize { empty as u32 } else { u32::MAX };
        assert((empty_stacks as u64) * (max_quantity as u64) <= u64::MAX) by (nonlinear_arith)
            requires
                empty_stacks <= u32::MAX,
                max_quantity <= 64,
        {}
        let wide = (empty_stacks as u64) * (max_quantity as u64);
        let full: u32 = if wide <= u32::MAX as u64 { wide as u32 } else { u32::MAX };
        assert(full == saturating_u32(empty * max_quantity)) by (nonlinear_arith)
            requires
                full == (if wide <= u32::MAX { wide as int } else { u32::MAX as int }),
                wide == empty_stacks * max_quantity,
                empty_stacks == (if empty <= u32::MAX { empty as int } else { u32::MAX as int }),
                1 <= max_quantity <= 64,
        {}
        let total = room as u64 + full as u64;
        if total <= u32::MAX as u64 { total as u32 } else { u32::MAX }
    }
}

pub proof fn lemma_merge_room_mono(slots: Seq<Option<StackModel>>, item_kind: Seq<char>, digest: Seq<char>, a: int, b: int)
    requires
        0 <= a <= b,
    ensures
        merge_room(slots, item_kind, digest, a) <= merge_room(slots, item_kind, digest, b),
    decreases b - a,
{
    if a < b {
        lemma_merge_room_mono(slots, item_kind, digest, a, b - 1);
    }
}

} // verus!
