//! The system status report: the planner's queue, position by position, and
//! the work units of the pool, claimed first, then queued, then completed,
//! each group by priority and id, with the count in each state.
use crate::queue::{planner_queue_item, PlannerQueueItem, PlannerRequest, PlannerRequestKind};
use crate::sorting::{lemma_stable_sorted_len, stable_sort, stable_sorted, SortKey};
use crate::ids::{concat, decimal, decimal_string, uuid_text, uuid_to_string};
use crate::work::{WorkUnit, WorkUnitData};
use vstd::prelude::*;

verus! {

/// What a work unit does.
#[derive(Debug, Clone, Copy, PartialEq, Eq, Structural)]
pub enum WorkUnitKind {
    IndexRegion,
    IndexContainer,
    Transfer,
    Craft,
}

/// Where a work unit is in the pool.
#[derive(Debug, Clone, Copy, PartialEq, Eq, Structural)]
pub enum WorkUnitStatusState {
    Queued,
    Claimed,
    Completed,
}

/// The status of one work unit of the pool.
#[derive(Debug)]
pub struct WorkUnitStatus {
    pub id: u128,
    pub kind: WorkUnitKind,
    pub state: WorkUnitStatusState,
    pub priority: usize,
    pub completed_steps: Option<usize>,
    pub total_steps: Option<usize>,
    pub detail: String,
}

/// How many work units the pool holds, in all and in each state.
#[derive(Debug, Clone, Copy, PartialEq, Eq, Structural)]
pub struct WorkUnitPoolSummary {
    pub total: usize,
    pub queued: usize,
    pub claimed: usize,
    pub completed: usize,
}

/// The status report of the planner queue and the work-unit pool.
#[derive(Debug)]
pub struct SystemStatusResponse {
    pub planner_queue: Vec<PlannerQueueItem>,
    pub work_unit_pool: WorkUnitPoolSummary,
    pub work_units: Vec<WorkUnitStatus>,
}

/// Where a work unit is in the pool, as the pool tracks it.
#[derive(Debug, Clone, Copy, PartialEq, Eq, Structural)]
pub enum WorkUnitState {
    Queued,
    Claimed,
    Completed,
}

/// A work unit as the pool holds it: the unit, its state and its priority.
#[derive(Debug)]
pub struct WorkUnitSnapshot<P> {
    pub work_unit: WorkUnit<P>,
    pub state: WorkUnitState,
    pub priority: usize,
}

/// The status state that reports a pool state.
pub open spec fn status_state(state: WorkUnitState) -> WorkUnitStatusState {
    match state {
        WorkUnitState::Queued => WorkUnitStatusState::Queued,
        WorkUnitState::Claimed => WorkUnitStatusState::Claimed,
        WorkUnitState::Completed => WorkUnitStatusState::Completed,
    }
}

/// What a unit's status says of its work: its kind, the steps done and in
/// all, and a line of detail. An index-container unit reads "container
/// {id} at {position}", with `position_text` for its position; a transfer
/// "{moves} moves, {staged} staged"; a craft "{item kind} x{yield}".
pub open spec fn work_summary<P>(data: WorkUnitData<P>, position_text: Seq<char>)
    -> (WorkUnitKind, Option<usize>, Option<usize>, Seq<char>) {
    match data {
        WorkUnitData::IndexContainer(unit) => (
            WorkUnitKind::IndexContainer,
            Some(if unit.output is Some { 1usize } else { 0usize }),
            Some(1usize),
            "container "@ + uuid_text(unit.container_id) + " at "@ + position_text,
        ),
        WorkUnitData::Transfer(unit) => (
            WorkUnitKind::Transfer,
            Some(unit.completed@.len() as usize),
            Some(unit.transfer.moves@.len() as usize),
            decimal(unit.transfer.moves@.len()) + " moves, "@ + decimal(unit.staged@.len()) + " staged"@,
        ),
        WorkUnitData::Craft(unit) => (
            WorkUnitKind::Craft,
            Some(unit.progress.completed_crafts as usize),
            Some(unit.recipe.crafts as usize),
            unit.recipe.output_item_kind@ + " x"@ + decimal(unit.recipe.output_yield as nat),
        ),
    }
}

/// The status the report gives of a work unit of the pool: its id, kind,
/// state and priority, its steps done and in all, and a line of detail
/// (see [`work_summary`]; `position_text` is how an index-container unit's
/// position reads).
pub fn work_unit_status<P>(snapshot: &WorkUnitSnapshot<P>, position_text: &str) -> (status: WorkUnitStatus)
    ensures
        status.id == snapshot.work_unit.id,
        status.state == status_state(snapshot.state),
        status.priority == snapshot.priority,
        (status.kind, status.completed_steps, status.total_steps, status.detail@)
            == work_summary(snapshot.work_unit.data, position_text@),
{
    let state = match snapshot.state {
        WorkUnitState::Queued => WorkUnitStatusState::Queued,
        WorkUnitState::Claimed => WorkUnitStatusState::Claimed,
        WorkUnitState::Completed => WorkUnitStatusState::Completed,
    };
    let (kind, completed_steps, total_steps, detail) = match &snapshot.work_unit.data {
        WorkUnitData::IndexContainer(unit) => {
            let done: usize = if unit.output.is_some() { 1 } else { 0 };
            let head = concat("container ", uuid_to_string(unit.container_id).as_str());
            let at = concat(head.as_str(), " at ");
            (WorkUnitKind::IndexContainer, Some(done), Some(1usize), concat(at.as_str(), position_text))
        },
        WorkUnitData::Transfer(unit) => {
            let moves = concat(decimal_string(unit.transfer.moves.len()).as_str(), " moves, ");
            let staged = concat(moves.as_str(), decimal_string(unit.staged.len()).as_str());
            (
                WorkUnitKind::Transfer,
                Some(unit.completed.len()),
                Some(unit.transfer.moves.len()),
                concat(staged.as_str(), " staged"),
            )
        },
        WorkUnitData::Craft(unit) => {
            let kind_text = concat(unit.recipe.output_item_kind.as_str(), " x");
            let output_yield = unit.recipe.output_yield as usize;
            (
                WorkUnitKind::Craft,
                Some(unit.progress.completed_crafts as usize),
                Some(unit.recipe.crafts as usize),
                concat(kind_text.as_str(), decimal_string(output_yield).as_str()),
            )
        },
    };
    WorkUnitStatus {
        id: snapshot.work_unit.id,
        kind,
        state,
        priority: snapshot.priority,
        completed_steps,
        total_steps,
        detail,
    }
}

/// Where units in a state come in the report: claimed, queued, completed.
pub open spec fn state_rank(state: WorkUnitStatusState) -> u8 {
    match state {
        WorkUnitStatusState::Claimed => 0,
        WorkUnitStatusState::Queued => 1,
        WorkUnitStatusState::Completed => 2,
    }
}

/// The key a unit is ordered by, with its place in the pool's snapshot.
#[derive(Debug, Clone, Copy)]
pub struct StatusKey {
    pub rank: u8,
    pub priority: usize,
    pub id: u128,
    pub index: usize,
}

impl SortKey for StatusKey {
    open spec fn sorts_before(self, other: Self) -> bool {
        self.rank < other.rank || (self.rank == other.rank && (self.priority < other.priority || (self.priority
            == other.priority && self.id < other.id)))
    }

    fn before(&self, other: &Self) -> (before: bool) {
        self.rank < other.rank || (self.rank == other.rank && (self.priority < other.priority || (self.priority
            == other.priority && self.id < other.id)))
    }
}

/// The keys of `units`, in snapshot order.
pub open spec fn status_keys(units: Seq<WorkUnitStatus>) -> Seq<StatusKey> {
    Seq::new(
        units.len(),
        |i: int| StatusKey { rank: state_rank(units[i].state), priority: units[i].priority, id: units[i].id, index: i as usize },
    )
}

/// The order in which `units` are reported: their keys, stably sorted.
pub open spec fn report_order(units: Seq<WorkUnitStatus>) -> Seq<StatusKey> {
    stable_sorted(status_keys(units), units.len() as int)
}

/// How many of `units[..n]` are in `state`.
pub open spec fn count_in_state(units: Seq<WorkUnitStatus>, state: WorkUnitStatusState, n: int) -> nat
    decreases n,
{
    if n <= 0 {
        0
    } else {
        count_in_state(units, state, n - 1) + if units[n - 1].state == state { 1nat } else { 0nat }
    }
}

pub proof fn lemma_count_in_state_bound(units: Seq<WorkUnitStatus>, state: WorkUnitStatusState, n: int)
    requires
        0 <= n,
    ensures
        count_in_state(units, state, n) <= n,
    decreases n,
{
    if n > 0 {
        lemma_count_in_state_bound(units, state, n - 1);
    }
}

/// The kind a request is reported as.
pub open spec fn request_kind(request: PlannerRequest) -> PlannerRequestKind {
    match request {
        PlannerRequest::IndexRegions => PlannerRequestKind::IndexRegions,
        PlannerRequest::CycleCount => PlannerRequestKind::CycleCount,
        PlannerRequest::Putaway => PlannerRequestKind::Putaway,
        PlannerRequest::Craft(_) => PlannerRequestKind::Craft,
    }
}

impl WorkUnitStatus {
    /// A copy of the status.
    pub fn copy(&self) -> (copy: WorkUnitStatus)
        ensures
            copy == *self,
    {
        WorkUnitStatus {
            id: self.id,
            kind: self.kind,
            state: self.state,
            priority: self.priority,
            completed_steps: self.completed_steps,
            total_steps: self.total_steps,
            detail: self.detail.clone(),
        }
    }
}

fn state_rank_of(state: WorkUnitStatusState) -> (rank: u8)
    ensures
        rank == state_rank(state),
{
    match state {
        WorkUnitStatusState::Claimed => 0,
        WorkUnitStatusState::Queued => 1,
        WorkUnitStatusState::Completed => 2,
    }
}

/// The queued planner requests, each at its position (counted from one).
pub fn queue_items(requests: Vec<PlannerRequest>) -> (items: Vec<PlannerQueueItem>)
    ensures
        items@.len() == requests@.len(),
        forall|k: int|
            0 <= k < items@.len() ==> {
                &&& (#[trigger] items@[k]).position == k + 1
                &&& items@[k].kind == request_kind(requests@[k])
                &&& items@[k].detail is None
            },
{
    let ghost all = requests@;
    let mut rest = requests;
    let total = rest.len();
    let mut items: Vec<PlannerQueueItem> = Vec::new();
    while rest.len() > 0
        invariant
            all.len() == total,
            items@.len() + rest@.len() == all.len(),
            rest@ == all.subrange(items@.len() as int, all.len() as int),
            forall|k: int|
                0 <= k < items@.len() ==> {
                    &&& (#[trigger] items@[k]).position == k + 1
                    &&& items@[k].kind == request_kind(all[k])
                    &&& items@[k].detail is None
                },
        decreases rest.len(),
    {
        let ghost done = items@.len() as int;
        let request = rest.remove(0);
        assert(request == all[done]);
        let item = planner_queue_item(items.len() + 1, request);
        items.push(item);
        assert(rest@ =~= all.subrange(items@.len() as int, all.len() as int));
    }
    items
}

/// The work units in report order (see [`report_order`]) and how many are
/// in each state.
pub fn summarize_work_units(units: &Vec<WorkUnitStatus>) -> (report: (Vec<WorkUnitStatus>, WorkUnitPoolSummary))
    ensures
        report.0@.len() == units@.len(),
        forall|k: int| 0 <= k < units@.len() ==> #[trigger] report.0@[k] == units@[report_order(units@)[k].index as int],
        report.1.total == units@.len(),
        report.1.queued == count_in_state(units@, WorkUnitStatusState::Queued, units@.len() as int),
        report.1.claimed == count_in_state(units@, WorkUnitStatusState::Claimed, units@.len() as int),
        report.1.completed == count_in_state(units@, WorkUnitStatusState::Completed, units@.len() as int),
        forall|a: int, b: int| 0 <= a < b < report.0@.len()
            ==> crate::laws::reported_no_later(#[trigger] report.0@[a], #[trigger] report.0@[b]),
{
    let mut keys: Vec<StatusKey> = Vec::new();
    let mut queued: usize = 0;
    let mut claimed: usize = 0;
    let mut completed: usize = 0;
    let mut i: usize = 0;
    while i < units.len()
        invariant
            i <= units@.len(),
            keys@ == status_keys(units@).take(i as int),
            queued == count_in_state(units@, WorkUnitStatusState::Queued, i as int),
            claimed == count_in_state(units@, WorkUnitStatusState::Claimed, i as int),
            completed == count_in_state(units@, WorkUnitStatusState::Completed, i as int),
        decreases units.len() - i,
    {
        proof {
            lemma_count_in_state_bound(units@, WorkUnitStatusState::Queued, i as int);
            lemma_count_in_state_bound(units@, WorkUnitStatusState::Claimed, i as int);
            lemma_count_in_state_bound(units@, WorkUnitStatusState::Completed, i as int);
        }
        let unit = &units[i];
        keys.push(StatusKey { rank: state_rank_of(unit.state), priority: unit.priority, id: unit.id, index: i });
        match unit.state {
            WorkUnitStatusState::Queued => queued = queued + 1,
            WorkUnitStatusState::Claimed => claimed = claimed + 1,
            WorkUnitStatusState::Completed => completed = completed + 1,
        }
        assert(keys@ =~= status_keys(units@).take(i + 1));
        i = i + 1;
    }
    assert(keys@ =~= status_keys(units@));
    let order = stable_sort(&keys);
    proof {
        lemma_stable_sorted_len(status_keys(units@), units@.len() as int);
        assert forall|i: int| 0 <= i < status_keys(units@).len() implies (#[trigger] status_keys(units@)[i]).index < status_keys(units@).len() by {
            assert(i < units.len());
        }
        lemma_sorted_indices(status_keys(units@), units@.len() as int);
    }
    let mut sorted: Vec<WorkUnitStatus> = Vec::new();
    let mut k: usize = 0;
    while k < order.len()
        invariant
            k <= order@.len(),
            order@ == report_order(units@),
            order@.len() == units@.len(),
            forall|m: int| 0 <= m < order@.len() ==> (#[trigger] order@[m]).index < units@.len(),
            sorted@.len() == k,
            forall|m: int| 0 <= m < k ==> #[trigger] sorted@[m] == units@[order@[m].index as int],
        decreases order.len() - k,
    {
        let unit = units[order[k].index].copy();
        sorted.push(unit);
        k = k + 1;
    }
    proof {
        crate::laws::law_report_lexicographic(units@);
        assert forall|a: int, b: int| 0 <= a < b < sorted@.len()
            implies crate::laws::reported_no_later(#[trigger] sorted@[a], #[trigger] sorted@[b]) by {
            assert(sorted@[a] == units@[order@[a].index as int]);
            assert(sorted@[b] == units@[order@[b].index as int]);
        }
    }
    (sorted, WorkUnitPoolSummary { total: units.len(), queued, claimed, completed })
}

/// Every index in the stable sort of keys with indices below `n` is below `n`.
proof fn lemma_sorted_indices(keys: Seq<StatusKey>, n: int)
    requires
        0 <= n <= keys.len(),
        forall|i: int| 0 <= i < keys.len() ==> (#[trigger] keys[i]).index < keys.len(),
    ensures
        forall|m: int| 0 <= m < stable_sorted(keys, n).len() ==> (#[trigger] stable_sorted(keys, n)[m]).index < keys.len(),
    decreases n,
{
    if n > 0 {
        lemma_sorted_indices(keys, n - 1);
        let prev = stable_sorted(keys, n - 1);
        crate::sorting::lemma_sorted_insert_index(prev, keys[n - 1], 0);
        let at = crate::sorting::sorted_insert_index(prev, keys[n - 1], 0);
        let next = prev.insert(at, keys[n - 1]);
        assert forall|m: int| 0 <= m < next.len() implies (#[trigger] next[m]).index < keys.len() by {
            if m < at {
                assert(next[m] == prev[m]);
            } else if m > at {
                assert(next[m] == prev[m - 1]);
            }
        }
    }
}

/// The status report: the planner's queue, position by position, and the
/// work units in report order with their counts.
pub fn system_status(requests: Vec<PlannerRequest>, units: &Vec<WorkUnitStatus>) -> (status: SystemStatusResponse)
    ensures
        status.planner_queue@.len() == requests@.len(),
        forall|k: int|
            0 <= k < requests@.len() ==> {
                &&& (#[trigger] status.planner_queue@[k]).position == k + 1
                &&& status.planner_queue@[k].kind == request_kind(requests@[k])
                &&& status.planner_queue@[k].detail is None
            },
        status.work_units@.len() == units@.len(),
        forall|k: int| 0 <= k < units@.len() ==> #[trigger] status.work_units@[k] == units@[report_order(units@)[k].index as int],
        status.work_unit_pool.total == units@.len(),
        status.work_unit_pool.queued == count_in_state(units@, WorkUnitStatusState::Queued, units@.len() as int),
        status.work_unit_pool.claimed == count_in_state(units@, WorkUnitStatusState::Claimed, units@.len() as int),
        status.work_unit_pool.completed == count_in_state(units@, WorkUnitStatusState::Completed, units@.len() as int),
{
    let planner_queue = queue_items(requests);
    let (work_units, work_unit_pool) = summarize_work_units(units);
    SystemStatusResponse { planner_queue, work_unit_pool, work_units }
}

} // verus!
