use minehouse::craft_job::{
    progress_follow_up, staged_node_state, transfer_progress, CraftNodeKind, CraftNodeState, CraftOperationKind,
    CraftOperationState, ProgressFollowUp,
};
use minehouse::craft_run::{plan_raw_material_transfers, CraftRunError};
use minehouse::crafting::{CraftingEngineType, RawMaterialRequirement};
use minehouse::ids::{new_uuid, random_u64};
use minehouse::item_stack::{Container, ItemStack};
use minehouse::queue::{planner_queue_item, InspectableQueue, PlannerRequest, PlannerRequestKind};
use minehouse::regions::{ordered_regions, ContainerRegion, RegionType};
use minehouse::staging::ItemKindStackRow;
use minehouse::storage_query::{item_kind_totals, StorageSortBy, StorageSortDirection};
use minehouse::transfer::{StorageEndpointId, TransferDocumentId};
use minehouse::work::{ItemMove, Transfer, TransferWorkUnit, WorkUnit, WorkUnitData};

type Pos = (f64, f64, f64);

fn region(id: u128, region_type: RegionType, priority: i32) -> ContainerRegion<Pos> {
    ContainerRegion { id, region_type, priority, world_region: (0.0, 0.0, 0.0) }
}

#[test]
fn bulk_regions_are_ordered_by_priority_then_id() {
    let regions = vec![
        region(3, RegionType::Bulk, 20),
        region(2, RegionType::Putaway, 0),
        region(4, RegionType::Bulk, 10),
        region(1, RegionType::Bulk, 10),
    ];

    let ordered = ordered_regions(&regions, RegionType::Bulk).into_iter().map(|region| region.id).collect::<Vec<_>>();

    assert_eq!(ordered, vec![1, 4, 3]);
}

#[test]
fn queue_hands_out_items_in_arrival_order_and_lists_them() {
    let mut queue = InspectableQueue::new();
    assert_eq!(queue.pop(), None);
    queue.push(1);
    queue.push(2);
    queue.push(3);
    assert_eq!(queue.snapshot(), vec![1, 2, 3]);
    assert_eq!(queue.len(), 3);
    assert_eq!(queue.pop(), Some(1));
    queue.push(4);
    assert_eq!(queue.snapshot(), vec![2, 3, 4]);
    assert_eq!(queue.pop(), Some(2));
    assert_eq!(queue.pop(), Some(3));
    assert_eq!(queue.pop(), Some(4));
    assert_eq!(queue.pop(), None);
}

#[test]
fn queued_requests_are_reported_by_kind_and_position() {
    let item = planner_queue_item(2, PlannerRequest::Putaway);
    assert_eq!(item.position, 2);
    assert_eq!(item.kind, PlannerRequestKind::Putaway);
    assert!(item.detail.is_none());
    assert_eq!(planner_queue_item(1, PlannerRequest::IndexRegions).kind, PlannerRequestKind::IndexRegions);
    assert_eq!(planner_queue_item(1, PlannerRequest::CycleCount).kind, PlannerRequestKind::CycleCount);
}

#[test]
fn names_match_the_stored_forms() {
    assert_eq!(StorageSortBy::default().as_str(), "name");
    assert_eq!(StorageSortBy::Containers.as_str(), "containers");
    assert_eq!(StorageSortDirection::default().as_str(), "asc");
    assert_eq!(StorageSortDirection::Desc.as_str(), "desc");
    assert_eq!(CraftingEngineType::Stonecutter.as_str(), "stonecutter");
    assert_eq!(CraftNodeKind::Storage.as_str(), "storage");
    assert_eq!(CraftNodeState::RetryWait.as_str(), "retry_wait");
    assert_eq!(CraftOperationKind::CleanupTransfer.as_str(), "cleanup_transfer");
    assert_eq!(CraftOperationState::Interrupted.as_str(), "interrupted");
}

#[test]
fn cleanup_operations_are_dispatched_first() {
    assert_eq!(CraftOperationKind::CleanupTransfer.dispatch_priority(), 30);
    assert_eq!(CraftOperationKind::StageTransfer.dispatch_priority(), 20);
    assert_eq!(CraftOperationKind::DependencyTransfer.dispatch_priority(), 20);
    assert_eq!(CraftOperationKind::Craft.dispatch_priority(), 10);
}

#[test]
fn random_ids_differ() {
    assert_ne!(StorageEndpointId::random(), StorageEndpointId::random());
    assert_ne!(TransferDocumentId::random(), TransferDocumentId::random());
    assert_ne!(random_u64(), random_u64());
    assert_ne!(new_uuid(), new_uuid());
}

fn row(container_id: u128, quantity: i32) -> ItemKindStackRow<Pos> {
    ItemKindStackRow {
        stack_id: new_uuid(),
        container_id,
        region_id: 1,
        region_type: "bulk".to_owned(),
        position: (0.0, 0.0, 0.0),
        slot: 0,
        quantity,
        components: serde_json::Value::Null,
        components_digest: String::new(),
    }
}

#[test]
fn item_kind_totals_count_stacks_and_distinct_containers() {
    let rows = vec![row(1, 5), row(2, 7), row(1, -2)];
    assert_eq!(item_kind_totals(&rows), (10, 3, 2));
    assert_eq!(item_kind_totals(&Vec::<ItemKindStackRow<Pos>>::new()), (0, 0, 0));
}

fn stack(container_id: u128, kind: &str, slot: i32, quantity: i32) -> ItemStack {
    ItemStack { id: new_uuid(), container_id, item_kind: kind.to_owned(), slot, quantity, components: serde_json::Value::Null, components_digest: String::new() }
}

fn container(id: u128, capacity: u64, contents: Vec<(usize, ItemStack)>) -> Container<Pos> {
    Container { id, region_id: 1, position: (id as f64, 0.0, 0.0), capacity, contents }
}

fn requirement(item_kind: &str, quantity: u32) -> RawMaterialRequirement {
    RawMaterialRequirement { item_kind: item_kind.to_owned(), quantity, available: quantity }
}

#[test]
fn raw_materials_move_stack_by_stack_into_free_processing_slots() {
    let sources = vec![
        container(1, 4, vec![(0, stack(1, "minecraft:iron_ingot", 0, 3)), (1, stack(1, "minecraft:stone", 1, 9))]),
        container(2, 4, vec![(2, stack(2, "minecraft:iron_ingot", 2, 5))]),
    ];
    let processing = container(9, 4, vec![(1, stack(9, "minecraft:dirt", 1, 1))]);
    let requirements = vec![requirement("minecraft:iron_ingot", 6), requirement("minecraft:stone", 1)];

    let (transfers, stopped) = plan_raw_material_transfers(&requirements, &sources, &processing);

    assert!(stopped.is_none());
    assert_eq!(transfers.len(), 3);
    assert_eq!(transfers[0].from_container, 1);
    assert_eq!(transfers[0].moves, vec![ItemMove { from_slot: 0, to_slot: 0, quantity: 3 }]);
    assert_eq!(transfers[1].from_container, 2);
    assert_eq!(transfers[1].moves, vec![ItemMove { from_slot: 2, to_slot: 2, quantity: 3 }]);
    assert_eq!(transfers[2].moves, vec![ItemMove { from_slot: 1, to_slot: 3, quantity: 1 }]);
    assert!(transfers.iter().all(|transfer| transfer.to_container == 9));
}

#[test]
fn raw_material_staging_stops_when_short_or_out_of_slots() {
    let sources = vec![container(1, 4, vec![(0, stack(1, "minecraft:iron_ingot", 0, 3))])];
    let processing = container(9, 1, vec![]);

    let (transfers, stopped) = plan_raw_material_transfers(&vec![requirement("minecraft:iron_ingot", 5)], &sources, &processing);
    assert_eq!(transfers.len(), 1);
    assert!(matches!(stopped, Some(CraftRunError::InsufficientStorage { item_kind }) if item_kind == "minecraft:iron_ingot"));

    let two = vec![container(1, 4, vec![(0, stack(1, "minecraft:iron_ingot", 0, 3)), (1, stack(1, "minecraft:iron_ingot", 1, 3))])];
    let (transfers, stopped) = plan_raw_material_transfers(&vec![requirement("minecraft:iron_ingot", 5)], &two, &processing);
    assert_eq!(transfers.len(), 1);
    assert!(matches!(stopped, Some(CraftRunError::NoFreeProcessingSlot)));
}

fn transfer_unit(completed: Vec<usize>, done: bool) -> WorkUnit<Pos> {
    WorkUnit {
        id: 5,
        data: WorkUnitData::Transfer(TransferWorkUnit {
            transfer: Transfer {
                from_container: 1,
                from_position: (0.0, 0.0, 0.0),
                to_container: 2,
                to_position: (0.0, 0.0, 0.0),
                moves: vec![ItemMove { from_slot: 0, to_slot: 0, quantity: 1 }, ItemMove { from_slot: 1, to_slot: 1, quantity: 1 }],
            },
            completed,
            staged: Vec::new(),
            from_contents: if done { Some(Vec::new()) } else { None },
            to_contents: if done { Some(Vec::new()) } else { None },
        }),
    }
}

#[test]
fn transfer_progress_drives_the_follow_up() {
    assert_eq!(transfer_progress(&transfer_unit(vec![0], false)), Some((1, false)));
    assert_eq!(transfer_progress(&transfer_unit(vec![1, 0], true)), Some((2, true)));
    assert_eq!(progress_follow_up(true, CraftOperationKind::CleanupTransfer), ProgressFollowUp::CheckCleaned);
    assert_eq!(progress_follow_up(true, CraftOperationKind::StageTransfer), ProgressFollowUp::CheckStaged);
    assert_eq!(progress_follow_up(false, CraftOperationKind::CleanupTransfer), ProgressFollowUp::Nothing);
    assert_eq!(staged_node_state(true), CraftNodeState::Queued);
    assert_eq!(staged_node_state(false), CraftNodeState::Staging);
}
