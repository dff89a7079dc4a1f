use minehouse::queue::{PlannerRequest, PlannerRequestKind};
use minehouse::status::{
    summarize_work_units, system_status, work_unit_status, WorkUnitKind, WorkUnitSnapshot, WorkUnitState, WorkUnitStatus,
    WorkUnitStatusState,
};
use minehouse::work::{
    CraftLocations, CraftProgress, CraftRecipe, CraftWorkUnit, IndexContainerWorkUnit, ItemMove, StagedTransferMove,
    Transfer, TransferWorkUnit, WorkUnit, WorkUnitData,
};

fn unit(id: u128, state: WorkUnitStatusState, priority: usize) -> WorkUnitStatus {
    WorkUnitStatus {
        id,
        kind: WorkUnitKind::Transfer,
        state,
        priority,
        completed_steps: Some(0),
        total_steps: Some(1),
        detail: format!("unit {id}"),
    }
}

#[test]
fn work_units_report_claimed_then_queued_then_completed() {
    let units = vec![
        unit(5, WorkUnitStatusState::Completed, 0),
        unit(4, WorkUnitStatusState::Queued, 20),
        unit(3, WorkUnitStatusState::Claimed, 50),
        unit(2, WorkUnitStatusState::Queued, 10),
        unit(1, WorkUnitStatusState::Queued, 10),
    ];
    let (sorted, summary) = summarize_work_units(&units);
    let ids: Vec<u128> = sorted.iter().map(|unit| unit.id).collect();
    assert_eq!(ids, vec![3, 1, 2, 4, 5]);
    assert_eq!(sorted[1].detail, "unit 1");
    assert_eq!(summary.total, 5);
    assert_eq!(summary.queued, 3);
    assert_eq!(summary.claimed, 1);
    assert_eq!(summary.completed, 1);
}

#[test]
fn planner_queue_is_reported_by_position() {
    let status = system_status(
        vec![PlannerRequest::Putaway, PlannerRequest::IndexRegions, PlannerRequest::CycleCount],
        &Vec::new(),
    );
    assert_eq!(status.planner_queue.len(), 3);
    assert_eq!(status.planner_queue[0].position, 1);
    assert_eq!(status.planner_queue[0].kind, PlannerRequestKind::Putaway);
    assert_eq!(status.planner_queue[2].position, 3);
    assert_eq!(status.planner_queue[2].kind, PlannerRequestKind::CycleCount);
    assert!(status.planner_queue[1].detail.is_none());
    assert_eq!(status.work_unit_pool.total, 0);
    assert!(status.work_units.is_empty());
}

#[test]
fn work_unit_service_errors_have_their_texts() {
    use_errors();
}

fn use_errors() {
    assert_eq!(minehouse::rpc_error::MinehouseError::NotLocked.message(), "work  unit not locked");
    assert_eq!(minehouse::rpc_error::MinehouseError::WorkUnitTimeout.message(), "timed out waiting for work unit");
    assert_eq!(
        minehouse::rpc_error::MinehouseError::SqlxError("PoolClosed".to_owned()).message(),
        "sqlx error: PoolClosed"
    );
}

#[test]
fn transfer_unit_status_counts_moves() {
    let transfer = Transfer {
        from_container: 1,
        from_position: (0, 0, 0),
        to_container: 2,
        to_position: (1, 0, 0),
        moves: vec![
            ItemMove { from_slot: 0, to_slot: 0, quantity: 1 },
            ItemMove { from_slot: 1, to_slot: 1, quantity: 1 },
            ItemMove { from_slot: 2, to_slot: 2, quantity: 1 },
        ],
    };
    let unit = TransferWorkUnit {
        transfer,
        completed: vec![0],
        staged: vec![StagedTransferMove { move_index: 1, player_slot_offset: 0 }],
        from_contents: None,
        to_contents: None,
    };
    let snapshot = WorkUnitSnapshot {
        work_unit: WorkUnit { id: 9, data: WorkUnitData::Transfer(unit) },
        state: WorkUnitState::Claimed,
        priority: 4,
    };
    let status = work_unit_status(&snapshot, "");
    assert_eq!(status.id, 9);
    assert_eq!(status.kind, WorkUnitKind::Transfer);
    assert_eq!(status.state, WorkUnitStatusState::Claimed);
    assert_eq!(status.priority, 4);
    assert_eq!(status.completed_steps, Some(1));
    assert_eq!(status.total_steps, Some(3));
    assert_eq!(status.detail, "3 moves, 1 staged");
}

#[test]
fn index_and_craft_unit_status_details() {
    let index = WorkUnitSnapshot {
        work_unit: WorkUnit {
            id: 1,
            data: WorkUnitData::IndexContainer(IndexContainerWorkUnit { position: (1, 2, 3), container_id: 5, output: None }),
        },
        state: WorkUnitState::Queued,
        priority: 0,
    };
    let status = work_unit_status(&index, "1, 2, 3");
    assert_eq!(status.kind, WorkUnitKind::IndexContainer);
    assert_eq!(status.state, WorkUnitStatusState::Queued);
    assert_eq!((status.completed_steps, status.total_steps), (Some(0), Some(1)));
    assert_eq!(status.detail, "container 00000000-0000-0000-0000-000000000005 at 1, 2, 3");

    let craft = WorkUnitSnapshot {
        work_unit: WorkUnit {
            id: 2,
            data: WorkUnitData::Craft(CraftWorkUnit {
                recipe: CraftRecipe {
                    recipe_id: 3,
                    output_item_kind: "minecraft:stick".to_owned(),
                    output_yield: 4,
                    ingredients: Vec::new(),
                    crafts: 5,
                },
                locations: CraftLocations {
                    engine: (0, 0, 0),
                    input_container_id: 6,
                    input_container: (0, 0, 1),
                    output_container_id: 7,
                    output_container: (0, 0, 2),
                    output_container_capacity: 27,
                },
                progress: CraftProgress { completed_crafts: 2, input_snapshot: None, output_snapshot: None },
            }),
        },
        state: WorkUnitState::Completed,
        priority: 1,
    };
    let status = work_unit_status(&craft, "");
    assert_eq!(status.kind, WorkUnitKind::Craft);
    assert_eq!(status.state, WorkUnitStatusState::Completed);
    assert_eq!((status.completed_steps, status.total_steps), (Some(2), Some(5)));
    assert_eq!(status.detail, "minecraft:stick x4");
}
