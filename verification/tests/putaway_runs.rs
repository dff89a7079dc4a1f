use minehouse::putaway_run::{
    choose_bulk, putaway_step, start_putaway, PutawayAction, PutawayError, PutawayEvent, PutawayStage,
};
use minehouse::regions::{ContainerRegion, RegionType};
use minehouse::transfer::{StorageEndpointError, StorageEndpointId};

fn region(id: u128, region_type: RegionType, priority: i32) -> ContainerRegion<()> {
    ContainerRegion { id, region_type, priority, world_region: () }
}

#[test]
fn first_bulk_that_accepts_takes_the_putaway() {
    let full = Err(StorageEndpointError::StorageFull(StorageEndpointId(1)));
    assert_eq!(choose_bulk(&vec![full, Ok(()), Ok(())]), Ok(Some(1)));
    assert_eq!(choose_bulk(&vec![full, full]), Ok(None));
    assert_eq!(choose_bulk(&Vec::new()), Ok(None));
    assert_eq!(
        choose_bulk(&vec![full, Err(StorageEndpointError::EndpointMismatch), Ok(())]),
        Err(StorageEndpointError::EndpointMismatch)
    );
}

fn full(id: u64) -> Result<(), StorageEndpointError> {
    Err(StorageEndpointError::StorageFull(StorageEndpointId(id)))
}

#[test]
fn putaway_run_visits_regions_by_priority_and_counts_unplanned() {
    let regions = vec![
        region(3, RegionType::Putaway, 5),
        region(9, RegionType::Bulk, 0),
        region(1, RegionType::Putaway, 5),
        region(2, RegionType::Putaway, 0),
    ];
    let run = start_putaway(&regions);
    assert_eq!(run.regions, vec![2, 1, 3]);
    let (run, action) = putaway_step(run, PutawayEvent::Start);
    assert_eq!(action, PutawayAction::Inspect { region_id: 2 });
    // Region 2 has nothing to put away: skipped.
    let (run, action) = putaway_step(run, PutawayEvent::Inspected { has_endpoint: true, has_items: false });
    assert_eq!(action, PutawayAction::Inspect { region_id: 1 });
    // Region 1 has items, but every bulk endpoint is full: unplanned.
    let (run, action) = putaway_step(run, PutawayEvent::Inspected { has_endpoint: true, has_items: true });
    assert_eq!(action, PutawayAction::Offer { region_id: 1 });
    let (run, action) = putaway_step(run, PutawayEvent::Offered(vec![full(7), full(8)]));
    assert_eq!(action, PutawayAction::Inspect { region_id: 3 });
    assert_eq!(run.unplanned, 1);
    // Region 3 goes into the second bulk endpoint.
    let (run, _) = putaway_step(run, PutawayEvent::Inspected { has_endpoint: true, has_items: true });
    let (run, action) = putaway_step(run, PutawayEvent::Offered(vec![full(7), Ok(())]));
    assert_eq!(action, PutawayAction::Execute { region_id: 3, bulk_index: 1 });
    let (run, action) = putaway_step(run, PutawayEvent::Executed { ok: true });
    assert_eq!(action, PutawayAction::Finish(Err(PutawayError::Unplanned { count: 1 })));
    assert_eq!(run.unplanned, 1);
    assert_eq!(run.next, 3);
}

#[test]
fn putaway_run_without_unplanned_regions_succeeds() {
    let run = start_putaway(&vec![region(4, RegionType::Putaway, 0), region(5, RegionType::Putaway, 1)]);
    let (run, _) = putaway_step(run, PutawayEvent::Start);
    // Region 4 has no endpoint: skipped without asking any bulk endpoint.
    let (run, action) = putaway_step(run, PutawayEvent::Inspected { has_endpoint: false, has_items: true });
    assert_eq!(action, PutawayAction::Inspect { region_id: 5 });
    let (run, _) = putaway_step(run, PutawayEvent::Inspected { has_endpoint: true, has_items: true });
    let (run, action) = putaway_step(run, PutawayEvent::Offered(vec![Ok(())]));
    assert_eq!(action, PutawayAction::Execute { region_id: 5, bulk_index: 0 });
    let (_, action) = putaway_step(run, PutawayEvent::Executed { ok: true });
    assert_eq!(action, PutawayAction::Finish(Ok(())));
    let (_, action) = putaway_step(start_putaway(&Vec::<ContainerRegion<()>>::new()), PutawayEvent::Start);
    assert_eq!(action, PutawayAction::Finish(Ok(())));
}

#[test]
fn failed_region_ends_the_putaway_run() {
    let run = start_putaway(&vec![region(4, RegionType::Putaway, 0), region(5, RegionType::Putaway, 1)]);
    let (run, _) = putaway_step(run, PutawayEvent::Start);
    let (run, _) = putaway_step(run, PutawayEvent::Inspected { has_endpoint: true, has_items: true });
    let (run, _) = putaway_step(run, PutawayEvent::Offered(vec![Ok(())]));
    let (run, action) = putaway_step(run, PutawayEvent::Executed { ok: false });
    assert_eq!(action, PutawayAction::Finish(Err(PutawayError::RegionFailed { region_id: 4 })));
    assert_eq!(run.stage, PutawayStage::Failed(PutawayError::RegionFailed { region_id: 4 }));
    // The run stays failed whatever comes after.
    let (_, action) = putaway_step(run, PutawayEvent::Inspected { has_endpoint: true, has_items: true });
    assert_eq!(action, PutawayAction::Finish(Err(PutawayError::RegionFailed { region_id: 4 })));
}

#[test]
fn negotiation_error_ends_the_putaway_run() {
    let run = start_putaway(&vec![region(6, RegionType::Putaway, 0)]);
    let (run, _) = putaway_step(run, PutawayEvent::Start);
    let (run, _) = putaway_step(run, PutawayEvent::Inspected { has_endpoint: true, has_items: true });
    let (run, action) = putaway_step(
        run,
        PutawayEvent::Offered(vec![full(1), Err(StorageEndpointError::ContainerRegionMismatch), Ok(())]),
    );
    assert_eq!(
        action,
        PutawayAction::Finish(Err(PutawayError::NegotiationFailed {
            region_id: 6,
            error: StorageEndpointError::ContainerRegionMismatch
        }))
    );
    assert_eq!(run.next, 0);
}

#[test]
fn event_out_of_turn_changes_nothing() {
    let run = start_putaway(&vec![region(6, RegionType::Putaway, 0)]);
    let (run, action) = putaway_step(run, PutawayEvent::Executed { ok: true });
    assert_eq!(action, PutawayAction::Inspect { region_id: 6 });
    assert_eq!(run.next, 0);
    assert_eq!(run.stage, PutawayStage::Inspect);
}
