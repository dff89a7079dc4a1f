//! The planner's request queue: requests wait in arrival order, and the
//! queue can be listed without taking anything out of it.
use crate::crafting::CraftPlanRequest;
use std::collections::VecDeque;
use vstd::prelude::*;

verus! {

/// A first-in first-out queue that can be listed front to back without
/// removing its items.
#[derive(Debug)]
pub struct InspectableQueue<T> {
    items: VecDeque<T>,
}

impl<T> View for InspectableQueue<T> {
    type V = Seq<T>;

    /// The queued items, front first.
    closed spec fn view(&self) -> Seq<T> {
        self.items@
    }
}

/// Taking the front item off a queue: the item, if there is one, and what is left.
pub open spec fn queue_pop<T>(items: Seq<T>) -> (Option<T>, Seq<T>) {
    if items.len() == 0 {
        (None, items)
    } else {
        (Some(items[0]), items.drop_first())
    }
}

impl<T> InspectableQueue<T> {
    /// An empty queue.
    pub fn new() -> (queue: Self)
        ensures
            queue@ == Seq::<T>::empty(),
    {
        InspectableQueue { items: VecDeque::new() }
    }

    /// Puts `item` at the back.
    pub fn push(&mut self, item: T)
        ensures
            final(self)@ == old(self)@.push(item),
    {
        self.items.push_back(item);
    }

    /// Takes the front item off, if any.
    pub fn pop(&mut self) -> (front: Option<T>)
        ensures
            (front, final(self)@) == queue_pop(old(self)@),
    {
        let front = self.items.pop_front();
        proof {
            if old(self)@.len() > 0 {
                assert(self.items@ =~= old(self)@.drop_first());
            }
        }
        front
    }

    /// How many items wait.
    pub fn len(&self) -> (count: usize)
        ensures
            count == self@.len(),
    {
        self.items.len()
    }
}

impl<T: Clone> InspectableQueue<T> {
    /// Copies of the queued items, front to back; the queue is left as it is.
    pub fn snapshot(&self) -> (items: Vec<T>)
        ensures
            items@.len() == self@.len(),
            forall|i: int| 0 <= i < items@.len() ==> cloned(#[trigger] self@[i], items@[i]),
    {
        let mut items: Vec<T> = Vec::new();
        let mut i: usize = 0;
        while i < self.items.len()
            invariant
                i <= self.items@.len(),
                items@.len() == i,
                forall|j: int| 0 <= j < i ==> cloned(#[trigger] self.items@[j], items@[j]),
            decreases self.items.len() - i,
        {
            let item = self.items[i].clone();
            items.push(item);
            i = i + 1;
        }
        items
    }
}

impl<T> Default for InspectableQueue<T> {
    fn default() -> (queue: Self)
        ensures
            queue@ == Seq::<T>::empty(),
    {
        Self::new()
    }
}

/// Pushing onto a queue and then taking the front off gives the old front,
/// or the pushed item when the queue was empty: items leave in the order
/// they came.
pub proof fn law_first_in_first_out<T>(items: Seq<T>, item: T)
    ensures
        queue_pop(items.push(item)).0 == Some(if items.len() == 0 { item } else { items[0] }),
        items.len() > 0 ==> queue_pop(items.push(item)).1 == queue_pop(items).1.push(item),
{
    if items.len() > 0 {
        assert(items.push(item).drop_first() =~= items.drop_first().push(item));
    }
}

/// A request to the planner.
#[derive(Debug)]
pub enum PlannerRequest {
    IndexRegions,
    CycleCount,
    Putaway,
    Craft(CraftPlanRequest),
}

/// The kind of a queued planner request, as status reports show it.
#[derive(Debug, Clone, Copy, PartialEq, Eq)]
pub enum PlannerRequestKind {
    IndexRegions,
    CycleCount,
    Putaway,
    Craft,
}

/// A queued planner request at a position of the queue (counted from one).
#[derive(Debug)]
pub struct PlannerQueueItem {
    pub position: usize,
    pub kind: PlannerRequestKind,
    pub detail: Option<String>,
}

/// The status entry of the request at `position`.
pub fn planner_queue_item(position: usize, request: PlannerRequest) -> (item: PlannerQueueItem)
    ensures
        item.position == position,
        item.detail is None,
        item.kind == match request {
            PlannerRequest::IndexRegions => PlannerRequestKind::IndexRegions,
            PlannerRequest::CycleCount => PlannerRequestKind::CycleCount,
            PlannerRequest::Putaway => PlannerRequestKind::Putaway,
            PlannerRequest::Craft(_) => PlannerRequestKind::Craft,
        },
{
    let kind = match request {
        PlannerRequest::IndexRegions => PlannerRequestKind::IndexRegions,
        PlannerRequest::CycleCount => PlannerRequestKind::CycleCount,
        PlannerRequest::Putaway => PlannerRequestKind::Putaway,
        PlannerRequest::Craft(_) => PlannerRequestKind::Craft,
    };
    PlannerQueueItem { position, kind, detail: None }
}

} // verus!
