//! Draining putaway regions into bulk: which bulk endpoint takes a region's
//! contents, and the run over all putaway regions, one decision at a time
//! (the endpoint work between decisions is done by the caller).
use crate::regions::{region_keys, ContainerRegion, RegionKey, RegionType};
use crate::sorting::{stable_sort, stable_sorted};
use crate::transfer::StorageEndpointError;
use vstd::prelude::*;

verus! {

/// Which of the bulk endpoints, tried in order with these outcomes, takes
/// the transfer: the first that accepts, unless an error other than a full
/// endpoint comes first; `None` when every one was full.
pub open spec fn bulk_choice(outcomes: Seq<Result<(), StorageEndpointError>>, i: int) -> Result<Option<usize>, StorageEndpointError>
    decreases outcomes.len() - i,
{
    if i < 0 || i >= outcomes.len() {
        Ok(None)
    } else {
        match outcomes[i] {
            Ok(()) => Ok(Some(i as usize)),
            Err(StorageEndpointError::StorageFull(_)) => bulk_choice(outcomes, i + 1),
            Err(e) => Err(e),
        }
    }
}

/// The bulk endpoint that takes a putaway region's contents, given the
/// outcomes of asking the bulk endpoints in priority order: the index of
/// the first that accepted, passing over those that were full; the error of
/// the first that failed otherwise, if it comes before; `None` when all
/// were full.
pub fn choose_bulk(outcomes: &Vec<Result<(), StorageEndpointError>>) -> (r: Result<Option<usize>, StorageEndpointError>)
    ensures
        r == bulk_choice(outcomes@, 0),
{
    let mut i: usize = 0;
    while i < outcomes.len()
        invariant
            i <= outcomes@.len(),
            bulk_choice(outcomes@, 0) == bulk_choice(outcomes@, i as int),
        decreases outcomes.len() - i,
    {
        match &outcomes[i] {
            Ok(()) => {
                return Ok(Some(i));
            },
            Err(StorageEndpointError::StorageFull(_)) => {},
            Err(e) => {
                return Err(*e);
            },
        }
        i = i + 1;
    }
    Ok(None)
}

/// Why a putaway run failed.
#[derive(Debug, Clone, Copy, PartialEq, Eq)]
pub enum PutawayError {
    /// This many regions could not be planned: no bulk endpoint took them.
    Unplanned { count: usize },
    /// Negotiating the transfer of this region's contents failed.
    NegotiationFailed { region_id: u128, error: StorageEndpointError },
    /// Lowering or carrying out the accepted transfer of this region failed.
    RegionFailed { region_id: u128 },
}

/// Where the run stands with its current region.
#[derive(Debug, Clone, Copy, PartialEq, Eq)]
pub enum PutawayStage {
    /// The region is to be looked at: does it have an endpoint and items?
    Inspect,
    /// The bulk endpoints are to be asked, in priority order, to take it.
    Plan,
    /// The bulk endpoint at this index took it: lower and carry out.
    Execute { bulk_index: usize },
    /// The run stopped with this error.
    Failed(PutawayError),
}

/// What the caller reports to the run.
#[derive(Debug, Clone)]
pub enum PutawayEvent {
    /// The run begins (or the caller asks again what to do).
    Start,
    /// What the current region has: an endpoint, and items to put away.
    Inspected { has_endpoint: bool, has_items: bool },
    /// How the bulk endpoints, in priority order, answered the request to
    /// take the current region's contents (the caller may stop asking after
    /// the first answer that is not a full endpoint).
    Offered(Vec<Result<(), StorageEndpointError>>),
    /// Whether lowering and carrying out the accepted transfer succeeded.
    Executed { ok: bool },
}

/// What the caller does next.
#[derive(Debug, Clone, Copy, PartialEq, Eq)]
pub enum PutawayAction {
    /// Find out whether this putaway region has an endpoint and items.
    Inspect { region_id: u128 },
    /// Ask the bulk endpoints, in priority order, to take its contents.
    Offer { region_id: u128 },
    /// Lower the transfer into the bulk endpoint at this index and carry it out.
    Execute { region_id: u128, bulk_index: usize },
    /// The run is over, with this result.
    Finish(Result<(), PutawayError>),
}

/// A putaway run: the putaway regions in the order they are visited, how
/// many have been passed, how many of those no bulk endpoint took, and
/// where the run stands with the current one.
#[derive(Debug)]
pub struct PutawayRun {
    pub regions: Vec<u128>,
    pub next: usize,
    pub unplanned: usize,
    pub stage: PutawayStage,
}

impl PutawayRun {
    /// The run has passed no more regions than it has, and counted no more
    /// unplanned ones than it passed.
    pub open spec fn wf(&self) -> bool {
        self.unplanned <= self.next <= self.regions@.len()
    }
}

/// The ids of the putaway regions among `regions`, by priority then id.
pub open spec fn putaway_order<W>(regions: Seq<ContainerRegion<W>>) -> Seq<u128> {
    let keys = region_keys(regions, RegionType::Putaway, regions.len() as int);
    let sorted = stable_sorted(keys, keys.len() as int);
    Seq::new(sorted.len(), |i: int| sorted[i].id)
}

/// A run over the putaway regions of `regions`, by priority then id, none
/// visited yet.
pub fn start_putaway<W>(regions: &Vec<ContainerRegion<W>>) -> (run: PutawayRun)
    ensures
        run.regions@ == putaway_order(regions@),
        run.next == 0,
        run.unplanned == 0,
        run.stage == PutawayStage::Inspect,
        run.wf(),
{
    let mut keys: Vec<RegionKey> = Vec::new();
    let mut n: usize = 0;
    while n < regions.len()
        invariant
            n <= regions@.len(),
            keys@ == region_keys(regions@, RegionType::Putaway, n as int),
        decreases regions.len() - n,
    {
        if regions[n].region_type == RegionType::Putaway {
            keys.push(RegionKey { priority: regions[n].priority, id: regions[n].id, index: n });
        }
        n = n + 1;
    }
    let sorted = stable_sort(&keys);
    let mut ids: Vec<u128> = Vec::new();
    let mut i: usize = 0;
    while i < sorted.len()
        invariant
            i <= sorted@.len(),
            ids@.len() == i,
            forall|m: int| 0 <= m < i ==> #[trigger] ids@[m] == sorted@[m].id,
        decreases sorted.len() - i,
    {
        ids.push(sorted[i].id);
        i = i + 1;
    }
    assert(ids@ =~= putaway_order(regions@));
    PutawayRun { regions: ids, next: 0, unplanned: 0, stage: PutawayStage::Inspect }
}

/// What the run asks of the caller: the work of its stage on the current
/// region; once past the last region, to finish, failing when some regions
/// could not be planned; after a failure, to finish with that error.
pub open spec fn run_action(regions: Seq<u128>, next: int, unplanned: int, stage: PutawayStage) -> PutawayAction {
    match stage {
        PutawayStage::Failed(e) => PutawayAction::Finish(Err(e)),
        _ => if next < regions.len() {
            match stage {
                PutawayStage::Plan => PutawayAction::Offer { region_id: regions[next] },
                PutawayStage::Execute { bulk_index } => PutawayAction::Execute { region_id: regions[next], bulk_index },
                _ => PutawayAction::Inspect { region_id: regions[next] },
            }
        } else if unplanned > 0 {
            PutawayAction::Finish(Err(PutawayError::Unplanned { count: unplanned as usize }))
        } else {
            PutawayAction::Finish(Ok(()))
        },
    }
}

/// Whether the event is the answer to the work the run asked for.
pub open spec fn answers(regions: Seq<u128>, next: int, stage: PutawayStage, event: PutawayEvent) -> bool {
    &&& next < regions.len()
    &&& match (stage, event) {
        (PutawayStage::Inspect, PutawayEvent::Inspected { .. }) => true,
        (PutawayStage::Plan, PutawayEvent::Offered(_)) => true,
        (PutawayStage::Execute { .. }, PutawayEvent::Executed { .. }) => true,
        _ => false,
    }
}

/// One decision of a putaway run; the returned action is always what the
/// new state asks for. An event that does not answer the current work
/// changes nothing. A region without an endpoint or without items is
/// skipped; otherwise the first bulk endpoint that accepts, passing over
/// full ones, takes it; when all are full the region is counted as
/// unplanned and skipped; a negotiation error, or a failed lowering or
/// transfer, stops the run with that region's error. After the last region
/// the run finishes: with the count of unplanned regions as its error when
/// there are any, else successfully.
pub fn putaway_step(state: PutawayRun, event: PutawayEvent) -> (step: (PutawayRun, PutawayAction))
    requires
        state.wf(),
    ensures
        step.0.wf(),
        step.0.regions@ == state.regions@,
        step.1 == run_action(step.0.regions@, step.0.next as int, step.0.unplanned as int, step.0.stage),
        !answers(state.regions@, state.next as int, state.stage, event) ==> {
            &&& step.0.next == state.next
            &&& step.0.unplanned == state.unplanned
            &&& step.0.stage == state.stage
        },
        answers(state.regions@, state.next as int, state.stage, event) ==> {
            let region_id = state.regions@[state.next as int];
            match event {
                PutawayEvent::Inspected { has_endpoint, has_items } => if has_endpoint && has_items {
                    &&& step.0.next == state.next
                    &&& step.0.unplanned == state.unplanned
                    &&& step.0.stage == PutawayStage::Plan
                } else {
                    &&& step.0.next == state.next + 1
                    &&& step.0.unplanned == state.unplanned
                    &&& step.0.stage == PutawayStage::Inspect
                },
                PutawayEvent::Offered(outcomes) => match bulk_choice(outcomes@, 0) {
                    Ok(Some(i)) => {
                        &&& step.0.next == state.next
                        &&& step.0.unplanned == state.unplanned
                        &&& step.0.stage == PutawayStage::Execute { bulk_index: i }
                    },
                    Ok(None) => {
                        &&& step.0.next == state.next + 1
                        &&& step.0.unplanned == state.unplanned + 1
                        &&& step.0.stage == PutawayStage::Inspect
                    },
                    Err(e) => {
                        &&& step.0.next == state.next
                        &&& step.0.unplanned == state.unplanned
                        &&& step.0.stage == PutawayStage::Failed(PutawayError::NegotiationFailed { region_id, error: e })
                    },
                },
                PutawayEvent::Executed { ok } => if ok {
                    &&& step.0.next == state.next + 1
                    &&& step.0.unplanned == state.unplanned
                    &&& step.0.stage == PutawayStage::Inspect
                } else {
                    &&& step.0.next == state.next
                    &&& step.0.unplanned == state.unplanned
                    &&& step.0.stage == PutawayStage::Failed(PutawayError::RegionFailed { region_id })
                },
                PutawayEvent::Start => false,
            }
        },
{
    let PutawayRun { regions, next, unplanned, stage } = state;
    let (next, unplanned, stage) = if next >= regions.len() {
        (next, unplanned, stage)
    } else {
        let region_id = regions[next];
        match (stage, event) {
            (PutawayStage::Inspect, PutawayEvent::Inspected { has_endpoint, has_items }) => {
                if has_endpoint && has_items {
                    (next, unplanned, PutawayStage::Plan)
                } else {
                    (next + 1, unplanned, PutawayStage::Inspect)
                }
            },
            (PutawayStage::Plan, PutawayEvent::Offered(outcomes)) => {
                match choose_bulk(&outcomes) {
                    Ok(Some(i)) => (next, unplanned, PutawayStage::Execute { bulk_index: i }),
                    Ok(None) => (next + 1, unplanned + 1, PutawayStage::Inspect),
                    Err(error) => (next, unplanned, PutawayStage::Failed(PutawayError::NegotiationFailed { region_id, error })),
                }
            },
            (PutawayStage::Execute { bulk_index }, PutawayEvent::Executed { ok }) => {
                if ok {
                    (next + 1, unplanned, PutawayStage::Inspect)
                } else {
                    (next, unplanned, PutawayStage::Failed(PutawayError::RegionFailed { region_id }))
                }
            },
            (stage, _) => (next, unplanned, stage),
        }
    };
    let action = match stage {
        PutawayStage::Failed(e) => PutawayAction::Finish(Err(e)),
        _ => if next < regions.len() {
            match stage {
                PutawayStage::Plan => PutawayAction::Offer { region_id: regions[next] },
                PutawayStage::Execute { bulk_index } => PutawayAction::Execute { region_id: regions[next], bulk_index },
                _ => PutawayAction::Inspect { region_id: regions[next] },
            }
        } else if unplanned > 0 {
            PutawayAction::Finish(Err(PutawayError::Unplanned { count: unplanned }))
        } else {
            PutawayAction::Finish(Ok(()))
        },
    };
    (PutawayRun { regions, next, unplanned, stage }, action)
}

} // verus!
