use minehouse::endpoints::{
    check_bulk_request, check_putaway_negotiation, check_putaway_request, check_reindex, ensure_space, putaway_lines,
    total_capacity,
};
use minehouse::ids::new_uuid;
use minehouse::item_stack::{Container, ItemStack, StackSizes};
use minehouse::lowering::{lower_transfers, LoweringError, PlannedDestination};
use minehouse::transfer::{
    Sku, StorageEndpointError, StorageEndpointId, TransferDocumentJobState, TransferDocumentState, TransferLine,
    TransferLineState, TransferOrder, TransferRequest,
};
use minehouse::work::{ItemMove, StagedTransferMove, Transfer, TransferWorkUnit, WorkUnitDone};

type Pos = (f64, f64, f64);

fn sizes() -> StackSizes {
    StackSizes { sizes: vec![("minecraft:diamond_sword".to_owned(), 1), ("minecraft:ender_pearl".to_owned(), 16)] }
}

fn sku(item_kind: &str, stack_size: i32) -> Sku {
    Sku { item_kind: item_kind.to_owned(), components_digest: String::new(), stack_size }
}

fn line(item_kind: &str, stack_size: i32, quantity: u64) -> TransferLine {
    TransferLine { sku: sku(item_kind, stack_size), quantity, state: TransferLineState::Available }
}

fn order(from: u64, to: u64) -> TransferOrder {
    TransferOrder { to: StorageEndpointId(to), from: StorageEndpointId(from), state: TransferDocumentState::Draft }
}

fn item(container_id: u128, kind: &str, slot: i32, quantity: i32) -> ItemStack {
    ItemStack { id: new_uuid(), container_id, item_kind: kind.to_owned(), slot, quantity, components: serde_json::Value::Null, components_digest: String::new() }
}

fn container(id: u128, region_id: u128, capacity: u64, contents: Vec<(usize, ItemStack)>) -> Container<Pos> {
    Container { id, region_id, position: (id as f64, 0.0, 0.0), capacity, contents }
}

fn work_unit() -> TransferWorkUnit<Pos> {
    TransferWorkUnit {
        transfer: Transfer {
            from_container: new_uuid(),
            from_position: (1.0, 2.0, 3.0),
            to_container: new_uuid(),
            to_position: (4.0, 5.0, 6.0),
            moves: vec![ItemMove { from_slot: 1, to_slot: 2, quantity: 3 }],
        },
        completed: Vec::new(),
        staged: Vec::new(),
        from_contents: None,
        to_contents: None,
    }
}

#[test]
fn completes_only_after_moves_and_snapshots_are_finished() {
    let mut unit = work_unit();
    unit.completed.push(0);
    unit.from_contents = Some(Vec::new());
    unit.to_contents = Some(Vec::new());
    assert!(unit.is_done());

    unit.staged.push(StagedTransferMove { move_index: 0, player_slot_offset: 0 });
    assert!(!unit.is_done());
}

#[test]
fn duplicate_progress_does_not_complete_missing_moves() {
    let mut unit = work_unit();
    unit.transfer.moves.push(ItemMove { from_slot: 3, to_slot: 4, quantity: 1 });
    unit.completed = vec![0, 0];
    unit.from_contents = Some(Vec::new());
    unit.to_contents = Some(Vec::new());

    assert!(!unit.is_done());
}

#[test]
fn extra_progress_does_not_complete_a_transfer() {
    let mut unit = work_unit();
    unit.completed = vec![0, 1];
    unit.from_contents = Some(Vec::new());
    unit.to_contents = Some(Vec::new());

    assert!(!unit.is_done());
}

#[test]
fn accepted_lines_split_into_stack_sized_jobs() {
    let request = TransferRequest {
        header: order(1, 2),
        lines: vec![line("minecraft:stone", 64, 130), line("minecraft:diamond_sword", 1, 2), line("minecraft:dirt", 64, 0)],
    };
    let document = request.accept();
    let quantities: Vec<u64> = document.jobs.iter().map(|job| job.quantity).collect();
    assert_eq!(quantities, vec![64, 64, 2, 1, 1]);
    assert!(document.jobs.iter().all(|job| job.state == TransferDocumentJobState::Available));
    assert_eq!(document.lines.len(), 3);
    assert!(document.lines.iter().all(|line| line.state == TransferLineState::Available));
    assert_eq!(document.header.from, StorageEndpointId(1));
}

#[test]
fn reconcile_tracks_job_progress_per_line() {
    let request = TransferRequest { header: order(1, 2), lines: vec![line("minecraft:stone", 64, 130), line("minecraft:dirt", 64, 5)] };
    let mut document = request.accept();
    document.jobs[0].state = TransferDocumentJobState::Completed;
    document.jobs[1].state = TransferDocumentJobState::InTransit;
    document.jobs[3].state = TransferDocumentJobState::Completed;
    document.reconcile();
    assert_eq!(document.lines[0].state, TransferLineState::InTransit(1, 1, 1));
    assert_eq!(document.lines[1].state, TransferLineState::Completed);

    document.jobs[1].state = TransferDocumentJobState::Completed;
    document.jobs[2].state = TransferDocumentJobState::Completed;
    document.reconcile();
    assert_eq!(document.lines[0].state, TransferLineState::Completed);
}

#[test]
fn reconciling_twice_changes_nothing_more() {
    let request = TransferRequest { header: order(1, 2), lines: vec![line("minecraft:stone", 64, 130), line("minecraft:dirt", 64, 5)] };
    let mut document = request.accept();
    document.jobs[1].state = TransferDocumentJobState::InTransit;
    document.reconcile();
    let once: Vec<TransferLineState> = document.lines.iter().map(|line| line.state).collect();
    document.reconcile();
    let twice: Vec<TransferLineState> = document.lines.iter().map(|line| line.state).collect();
    assert_eq!(once, twice);
    assert_eq!(twice, vec![TransferLineState::InTransit(2, 1, 0), TransferLineState::Available]);
}

#[test]
fn required_slots_match_the_jobs_of_accepting() {
    let request = TransferRequest {
        header: order(1, 2),
        lines: vec![line("minecraft:stone", 64, 130), line("minecraft:diamond_sword", 1, 2), line("odd", 0, 3)],
    };
    assert_eq!(request.required_slots(), 3 + 2 + 3);
}

#[test]
fn bulk_refuses_inbound_requests_beyond_its_free_slots() {
    let request = TransferRequest { header: order(1, 2), lines: vec![line("minecraft:stone", 64, 130)] };
    assert_eq!(ensure_space(&request, StorageEndpointId(2), 2), Err(StorageEndpointError::StorageFull(StorageEndpointId(2))));
    assert_eq!(ensure_space(&request, StorageEndpointId(2), 3), Ok(()));
    assert_eq!(ensure_space(&request, StorageEndpointId(1), 0), Ok(()));
}

#[test]
fn putaway_rejects_inbound_transfers() {
    let inbound = TransferRequest { header: order(2, 1), lines: Vec::new() };
    assert_eq!(check_putaway_negotiation(&inbound, StorageEndpointId(1)), Err(StorageEndpointError::EndpointMismatch));
    assert_eq!(check_putaway_request(&inbound, StorageEndpointId(1), StorageEndpointId(2)), Err(StorageEndpointError::EndpointMismatch));
    let outbound = TransferRequest { header: order(1, 2), lines: Vec::new() };
    assert_eq!(check_putaway_request(&outbound, StorageEndpointId(1), StorageEndpointId(2)), Ok(()));
    assert_eq!(check_putaway_negotiation(&outbound, StorageEndpointId(1)), Ok(()));
    assert_eq!(check_bulk_request(&outbound, StorageEndpointId(2), StorageEndpointId(1)), Ok(()));
    assert_eq!(check_bulk_request(&outbound, StorageEndpointId(2), StorageEndpointId(3)), Err(StorageEndpointError::EndpointMismatch));
}

#[test]
fn putaway_transfers_all_indexed_items() {
    let id = new_uuid();
    let region = new_uuid();
    let contents = vec![
        (0, item(id, "minecraft:stone", 0, 3)),
        (1, item(id, "minecraft:stone", 1, 2)),
        (2, item(id, "minecraft:dirt", 2, 0)),
    ];
    let lines = putaway_lines(&vec![container(id, region, 3, contents)], &sizes());
    assert_eq!(lines.len(), 1);
    assert_eq!(lines[0].sku.item_kind, "minecraft:stone");
    assert_eq!(lines[0].quantity, 5);
    assert_eq!(lines[0].state, TransferLineState::Available);

    // The putaway endpoint sends these lines to a bulk endpoint with two free slots.
    let putaway_id = StorageEndpointId::random();
    let bulk_id = StorageEndpointId::random();
    let request = TransferRequest {
        header: TransferOrder { to: bulk_id, from: putaway_id, state: TransferDocumentState::Draft },
        lines,
    };
    assert_eq!(check_putaway_request(&request, putaway_id, bulk_id), Ok(()));
    assert_eq!(check_bulk_request(&request, bulk_id, putaway_id), Ok(()));
    assert_eq!(ensure_space(&request, bulk_id, 2), Ok(()));
    let document = request.accept();
    assert_eq!(document.lines.len(), 1);
    assert_eq!(document.lines[0].quantity, 5);
    assert_eq!(document.header.from, putaway_id);
    assert_eq!(document.header.to, bulk_id);
}

#[test]
fn putaway_reindex_refuses_foreign_and_duplicate_containers() {
    let region = 5u128;
    assert_eq!(check_reindex(region, &vec![container(1, region, 1, vec![]), container(2, region, 1, vec![])]), Ok(()));
    assert_eq!(
        check_reindex(region, &vec![container(1, region, 1, vec![]), container(2, 6, 1, vec![])]),
        Err(StorageEndpointError::ContainerRegionMismatch)
    );
    assert_eq!(
        check_reindex(region, &vec![container(1, region, 1, vec![]), container(1, region, 1, vec![])]),
        Err(StorageEndpointError::DuplicateContainerId)
    );
    assert_eq!(total_capacity(&vec![container(1, region, 3, vec![]), container(2, region, 4, vec![])]), 7);
}

fn slot(container_id: u128, slot: usize) -> PlannedDestination<Pos> {
    PlannedDestination { container_id, position: (container_id as f64, 1.0, 0.0), slot }
}

#[test]
fn lowering_fills_planned_slots_a_stack_at_a_time() {
    let pearls = sku("minecraft:ender_pearl", 16);
    let source = container(10, 1, 4, vec![(1, item(10, "minecraft:ender_pearl", 1, 10)), (0, item(10, "minecraft:ender_pearl", 0, 12))]);
    let destinations = vec![(pearls.clone(), vec![slot(30, 1), slot(20, 5), slot(20, 2)])];
    let requested = vec![(pearls, 22)];

    let transfers = lower_transfers(&vec![source], &destinations, &requested, &sizes()).unwrap();

    assert_eq!(transfers.len(), 1);
    assert_eq!(transfers[0].from_container, 10);
    assert_eq!(transfers[0].to_container, 20);
    assert_eq!(
        transfers[0].moves,
        vec![
            ItemMove { from_slot: 0, to_slot: 2, quantity: 12 },
            ItemMove { from_slot: 1, to_slot: 2, quantity: 4 },
            ItemMove { from_slot: 1, to_slot: 5, quantity: 6 },
        ]
    );
}

#[test]
fn lowering_reports_each_shortfall() {
    let pearls = sku("minecraft:ender_pearl", 16);
    let source = container(10, 1, 4, vec![(0, item(10, "minecraft:ender_pearl", 0, 5))]);
    let sources = vec![source];
    let one_slot = vec![(pearls.clone(), vec![slot(20, 0)])];
    assert_eq!(lower_transfers(&sources, &one_slot, &vec![(pearls.clone(), 6)], &sizes()).unwrap_err(), LoweringError::SourceShort);
    assert_eq!(lower_transfers(&sources, &Vec::new(), &vec![(pearls.clone(), 1)], &sizes()).unwrap_err(), LoweringError::DestinationMissing);
    assert_eq!(
        lower_transfers(&sources, &one_slot, &vec![(sku("minecraft:stone", 64), 1)], &sizes()).unwrap_err(),
        LoweringError::SourceMissing
    );
    let many = container(11, 1, 4, vec![(0, item(11, "minecraft:ender_pearl", 0, 16)), (1, item(11, "minecraft:ender_pearl", 1, 16))]);
    assert_eq!(
        lower_transfers(&vec![many], &one_slot, &vec![(pearls, 20)], &sizes()).unwrap_err(),
        LoweringError::DestinationShort
    );
}

#[test]
fn settled_document_is_closed_with_every_line_completed() {
    let request = TransferRequest { header: order(1, 2), lines: vec![line("minecraft:stone", 64, 130), line("minecraft:dirt", 64, 5)] };
    let mut document = request.accept();
    document.settle(None);
    assert!(matches!(document.header.state, TransferDocumentState::Closed));
    assert!(document.jobs.iter().all(|job| job.state == TransferDocumentJobState::Completed));
    assert!(document.lines.iter().all(|line| line.state == TransferLineState::Completed));
    assert_eq!(document.jobs.len(), 4);
}

#[test]
fn failed_document_is_cancelled_with_the_reason() {
    let request = TransferRequest { header: order(1, 2), lines: vec![line("minecraft:stone", 64, 10)] };
    let mut document = request.accept();
    document.settle(Some("transfer work unit returned with the wrong data type".to_owned()));
    match &document.header.state {
        TransferDocumentState::Cancelled { reason } => {
            assert_eq!(reason, "transfer work unit returned with the wrong data type")
        }
        other => panic!("expected a cancelled document, got {other:?}"),
    }
    assert_eq!(document.lines[0].state, TransferLineState::Available);
}

#[test]
fn storage_row_becomes_a_search_item() {
    let item = minehouse::storage_query::StorageItemRow {
        item_kind: "minecraft:stone".to_owned(),
        quantity: 130,
        stack_count: 3,
        container_count: 2,
    }
    .into_item();
    assert_eq!(item.item_kind, "minecraft:stone");
    assert_eq!(item.quantity, 130);
    assert_eq!(item.stack_count, 3);
    assert_eq!(item.container_count, 2);
}

#[test]
fn bulk_container_offers_slots_neither_filled_nor_reserved() {
    let stack = |slot: usize| ItemStack {
        id: 100 + slot as u128,
        container_id: 7,
        item_kind: "minecraft:stone".to_owned(),
        slot: slot as i32,
        quantity: 64,
        components: serde_json::Value::Null,
        components_digest: String::new(),
    };
    let bulk = minehouse::endpoints::BulkContainer {
        container: Container { id: 7, region_id: 3, position: (0.0, 64.0, 0.0), capacity: 6, contents: vec![(0, stack(0)), (3, stack(3))] },
        category: None,
        reserved: vec![(4, minehouse::transfer::TransferDocumentId(9))],
    };
    assert_eq!(bulk.available_slots(), vec![1, 2, 5]);
}
