use minehouse::capacity::{CapacityError, ContainerCapacity};
use minehouse::cleanup::build_cleanup_work_units;
use minehouse::craft_job::{plan_craft_staging, CraftNodeSpec, CraftRecipeSnapshot, ReadyCraftNode};
use minehouse::crafting::{CraftIngredient, CraftingEngineType};
use minehouse::ids::new_uuid;
use minehouse::item_stack::{Container, ItemStack, StackSizes};
use minehouse::staging::{
    build_staging_work_units, staged_craft_fits, staging_inputs, CraftDependencyRequirement, CraftItemRequirement,
    ItemKindStackRow, NewCraftTransferKind, StagingError, StagingRequirement, StagingSource,
};
use minehouse::work::WorkUnitData;

type Pos = (f64, f64, f64);

fn sizes() -> StackSizes {
    StackSizes {
        sizes: vec![
            ("minecraft:diamond_sword".to_owned(), 1),
            ("minecraft:iron_ingot".to_owned(), 64),
            ("minecraft:hopper".to_owned(), 64),
            ("minecraft:ender_pearl".to_owned(), 16),
        ],
    }
}

fn stack(container_id: u128, quantity: i32, slot: i32) -> ItemKindStackRow<Pos> {
    ItemKindStackRow {
        stack_id: new_uuid(),
        container_id,
        region_id: new_uuid(),
        region_type: "bulk".to_owned(),
        position: (slot as f64, 0.0, 0.0),
        slot,
        quantity,
        components: serde_json::Value::Null,
        components_digest: String::new(),
    }
}

fn destination(capacity: u64) -> Container<Pos> {
    Container { id: new_uuid(), region_id: new_uuid(), position: (100.0, 0.0, 0.0), capacity, contents: Vec::new() }
}

fn stored_item(container_id: u128, slot: i32, quantity: i32) -> ItemStack {
    stored_kind(container_id, "widget", slot, quantity)
}

fn stored_kind(container_id: u128, item_kind: &str, slot: i32, quantity: i32) -> ItemStack {
    ItemStack {
        id: new_uuid(),
        container_id,
        item_kind: item_kind.to_owned(),
        slot,
        quantity,
        components: serde_json::Value::Null,
        components_digest: String::new(),
    }
}

fn requirement(item_kind: &str, quantity: u32, source: StagingSource) -> StagingRequirement {
    StagingRequirement { item_kind: item_kind.to_owned(), quantity, source }
}

#[test]
fn staging_groups_moves_by_source_container() {
    let source = new_uuid();
    let stacks = vec![
        ("iron".to_owned(), StagingSource::Storage, stack(source, 4, 0)),
        ("iron".to_owned(), StagingSource::Storage, stack(source, 4, 1)),
    ];
    let requirements = vec![requirement("iron", 6, StagingSource::Storage)];

    let (work, _) = build_staging_work_units(&requirements, &stacks, &destination(4), &sizes()).unwrap().unwrap();

    assert_eq!(work.len(), 1);
    let WorkUnitData::Transfer(transfer) = &work[0].work_unit.data else {
        panic!("expected transfer work unit")
    };
    assert_eq!(transfer.transfer.moves.len(), 2);
    assert_eq!(transfer.transfer.moves.iter().map(|item_move| item_move.quantity).sum::<u32>(), 6);
    assert_eq!(transfer.transfer.moves[0].to_slot, transfer.transfer.moves[1].to_slot);
}

#[test]
fn staging_waits_when_materials_or_slots_are_insufficient() {
    let source = new_uuid();
    let requirements = vec![requirement("iron", 6, StagingSource::Storage)];
    let stacks = vec![("iron".to_owned(), StagingSource::Storage, stack(source, 5, 0))];
    assert!(build_staging_work_units(&requirements, &stacks, &destination(4), &sizes()).unwrap().is_none());

    let requirements = vec![requirement("iron", 65, StagingSource::Storage)];
    let stacks = vec![
        ("iron".to_owned(), StagingSource::Storage, stack(source, 32, 0)),
        ("iron".to_owned(), StagingSource::Storage, stack(source, 33, 1)),
    ];
    assert!(build_staging_work_units(&requirements, &stacks, &destination(1), &sizes()).unwrap().is_none());
}

#[test]
fn staging_merges_partial_stacks_and_splits_at_stack_limits() {
    let source = new_uuid();
    let mut merge_destination = destination(1);
    let merge_id = merge_destination.id;
    merge_destination.contents.push((0, stored_kind(merge_id, "minecraft:iron_ingot", 0, 60)));
    let requirements = vec![requirement("minecraft:iron_ingot", 4, StagingSource::Storage)];
    let stacks = vec![("minecraft:iron_ingot".to_owned(), StagingSource::Storage, stack(source, 4, 0))];
    let (operations, _) = build_staging_work_units(&requirements, &stacks, &merge_destination, &sizes()).unwrap().unwrap();
    let WorkUnitData::Transfer(transfer) = &operations[0].work_unit.data else {
        panic!("expected transfer")
    };
    assert_eq!(transfer.transfer.moves[0].to_slot, 0);

    let requirements = vec![requirement("minecraft:iron_ingot", 65, StagingSource::Storage)];
    let stacks = vec![("minecraft:iron_ingot".to_owned(), StagingSource::Storage, stack(source, 65, 0))];
    let (operations, _) = build_staging_work_units(&requirements, &stacks, &destination(2), &sizes()).unwrap().unwrap();
    let WorkUnitData::Transfer(transfer) = &operations[0].work_unit.data else {
        panic!("expected transfer")
    };
    assert_eq!(transfer.transfer.moves.len(), 2);
    assert_eq!(transfer.transfer.moves[0].quantity, 64);
    assert_eq!(transfer.transfer.moves[1].quantity, 1);
}

#[test]
fn capacity_simulation_accounts_for_consumed_inputs_and_output_stack_size() {
    let mut container = destination(2);
    let id = container.id;
    container.contents.push((0, stored_kind(id, "minecraft:iron_ingot", 0, 64)));
    let mut capacity = ContainerCapacity::new(&container, &sizes()).unwrap();
    assert!(capacity.consume(&"minecraft:iron_ingot".to_owned(), 64));
    assert!(capacity.allocate(&"minecraft:hopper".to_owned(), &String::new(), 64, &sizes()).is_some());

    let mut full = destination(1);
    let id = full.id;
    full.contents.push((0, stored_kind(id, "minecraft:iron_ingot", 0, 1)));
    let mut capacity = ContainerCapacity::new(&full, &sizes()).unwrap();
    assert!(capacity.allocate(&"minecraft:diamond_sword".to_owned(), &String::new(), 1, &sizes()).is_none());
}

#[test]
fn dependency_staging_does_not_mix_equal_items_from_other_nodes() {
    let first_node = new_uuid();
    let second_node = new_uuid();
    let first_source = new_uuid();
    let second_source = new_uuid();
    let requirements = vec![requirement("iron", 4, StagingSource::Dependency(first_node))];
    let stacks = vec![
        ("iron".to_owned(), StagingSource::Dependency(first_node), stack(first_source, 4, 0)),
        ("iron".to_owned(), StagingSource::Dependency(second_node), stack(second_source, 64, 0)),
    ];

    let (operations, _) = build_staging_work_units(&requirements, &stacks, &destination(4), &sizes()).unwrap().unwrap();

    assert_eq!(operations.len(), 1);
    assert!(matches!(
        operations[0].kind,
        NewCraftTransferKind::Dependency { source_node_id } if source_node_id == first_node
    ));
    let WorkUnitData::Transfer(transfer) = &operations[0].work_unit.data else {
        panic!("expected transfer work unit")
    };
    assert_eq!(transfer.transfer.from_container, first_source);
}

#[test]
fn cleanup_spreads_stacks_across_available_bulk_slots() {
    let mut source = destination(2);
    let id = source.id;
    source.contents.push((0, stored_item(id, 0, 64)));
    source.contents.push((1, stored_item(id, 1, 1)));
    let first = destination(1);
    let second = destination(1);
    let first_id = first.id;
    let both = vec![first, second];

    let operations = build_cleanup_work_units(&source, &both, &sizes()).unwrap().unwrap();

    assert_eq!(operations.len(), 2);
    assert!(operations.iter().all(|operation| matches!(operation.kind, NewCraftTransferKind::Cleanup)));
    let only_first: Vec<Container<Pos>> = both.into_iter().filter(|container| container.id == first_id).collect();
    assert!(build_cleanup_work_units(&source, &only_first, &sizes()).unwrap().is_none());
}

#[test]
fn cleanup_merges_into_partial_bulk_stacks_before_using_empty_slots() {
    let mut source = destination(1);
    let id = source.id;
    source.contents.push((0, stored_kind(id, "minecraft:iron_ingot", 0, 4)));
    let mut bulk = destination(1);
    let bulk_id = bulk.id;
    bulk.contents.push((0, stored_kind(bulk_id, "minecraft:iron_ingot", 0, 60)));

    let operations = build_cleanup_work_units(&source, &vec![bulk], &sizes()).unwrap().unwrap();
    let WorkUnitData::Transfer(transfer) = &operations[0].work_unit.data else {
        panic!("expected transfer")
    };
    assert_eq!(transfer.transfer.moves[0].to_slot, 0);
    assert_eq!(transfer.transfer.moves[0].quantity, 4);
}

#[test]
fn staging_orders_transfers_storage_first_then_by_node() {
    let later_node = 20u128;
    let earlier_node = 10u128;
    let requirements = vec![
        requirement("iron", 1, StagingSource::Dependency(later_node)),
        requirement("iron", 1, StagingSource::Dependency(earlier_node)),
        requirement("iron", 1, StagingSource::Storage),
    ];
    let stacks = vec![
        ("iron".to_owned(), StagingSource::Dependency(later_node), stack(3, 1, 0)),
        ("iron".to_owned(), StagingSource::Dependency(earlier_node), stack(2, 1, 0)),
        ("iron".to_owned(), StagingSource::Storage, stack(1, 1, 0)),
    ];

    let (operations, _) = build_staging_work_units(&requirements, &stacks, &destination(4), &sizes()).unwrap().unwrap();

    assert_eq!(operations.len(), 3);
    assert!(matches!(operations[0].kind, NewCraftTransferKind::Stage));
    assert!(matches!(operations[1].kind, NewCraftTransferKind::Dependency { source_node_id: 10 }));
    assert!(matches!(operations[2].kind, NewCraftTransferKind::Dependency { source_node_id: 20 }));
}

#[test]
fn staging_reports_a_negative_slot_and_bad_destination() {
    let requirements = vec![requirement("iron", 1, StagingSource::Storage)];
    let stacks = vec![("iron".to_owned(), StagingSource::Storage, stack(5, 1, -1))];
    assert!(matches!(
        build_staging_work_units(&requirements, &stacks, &destination(1), &sizes()),
        Err(StagingError::NegativeSlot)
    ));

    let mut broken = destination(1);
    let id = broken.id;
    broken.contents.push((0, stored_item(id, 0, -3)));
    assert!(matches!(
        build_staging_work_units(&requirements, &stacks, &broken, &sizes()),
        Err(StagingError::Capacity(CapacityError::NegativeQuantity))
    ));
}

#[test]
fn cleanup_reports_a_negative_source_quantity() {
    let mut source = destination(1);
    let id = source.id;
    source.contents.push((0, stored_item(id, 0, -1)));
    assert!(matches!(
        build_cleanup_work_units(&source, &vec![destination(1)], &sizes()),
        Err(StagingError::NegativeQuantity)
    ));
}

#[test]
fn capacity_available_counts_room_and_empty_slots() {
    let mut container = destination(3);
    let id = container.id;
    container.contents.push((0, stored_kind(id, "minecraft:ender_pearl", 0, 10)));
    let capacity = ContainerCapacity::new(&container, &sizes()).unwrap();
    assert_eq!(capacity.available(&"minecraft:ender_pearl".to_owned(), &String::new(), &sizes()), 6 + 2 * 16);
    assert_eq!(capacity.available(&"minecraft:iron_ingot".to_owned(), &String::new(), &sizes()), 2 * 64);
}

#[test]
fn allocation_places_exactly_the_quantity_asked() {
    let mut container = destination(3);
    let id = container.id;
    container.contents.push((1, stored_kind(id, "minecraft:ender_pearl", 1, 10)));
    let mut capacity = ContainerCapacity::new(&container, &sizes()).unwrap();
    let placements = capacity.allocate(&"minecraft:ender_pearl".to_owned(), &String::new(), 30, &sizes()).unwrap();
    assert_eq!(placements, vec![(1, 6), (0, 16), (2, 8)]);
    assert_eq!(placements.iter().map(|(_, quantity)| quantity).sum::<u32>(), 30);
    assert!(capacity.allocate(&"minecraft:ender_pearl".to_owned(), &String::new(), 9, &sizes()).is_none());
    assert!(capacity.allocate(&"minecraft:ender_pearl".to_owned(), &String::new(), 8, &sizes()).is_some());
}

#[test]
fn capacity_refuses_negative_quantities() {
    let mut container = destination(1);
    let id = container.id;
    container.contents.push((0, stored_item(id, 0, -5)));
    assert!(matches!(ContainerCapacity::new(&container, &sizes()), Err(CapacityError::NegativeQuantity)));
}

fn ready_node(output: &str, ingredients: Vec<CraftIngredient>, planned: u32, completed: u32, output_yield: u32) -> ReadyCraftNode {
    ReadyCraftNode {
        spec: CraftNodeSpec { id: 1, key: "0".to_owned(), item_kind: output.to_owned(), required_quantity: planned * output_yield },
        job_id: 2,
        recipe: CraftRecipeSnapshot {
            recipe_id: 3,
            engine_type: CraftingEngineType::CraftingTable,
            ingredients,
            planned_crafts: planned,
            output_yield,
        },
        completed_crafts: completed,
        assigned_region_id: None,
    }
}

#[test]
fn craft_staging_keeps_transfers_only_when_the_craft_fits() {
    let source = new_uuid();
    let requirements = vec![requirement("minecraft:iron_ingot", 10, StagingSource::Storage)];
    let stacks = vec![("minecraft:iron_ingot".to_owned(), StagingSource::Storage, stack(source, 10, 0))];
    let ingredients = vec![CraftIngredient { item_kind: "minecraft:iron_ingot".to_owned(), quantity: 5 }];
    let node = ready_node("minecraft:hopper", ingredients, 2, 0, 1);
    let planned = plan_craft_staging(&node, &requirements, &stacks, &destination(1), &sizes()).unwrap();
    assert_eq!(planned.map(|operations| operations.len()), Some(1));

    let sword_ingredients = vec![CraftIngredient { item_kind: "minecraft:iron_ingot".to_owned(), quantity: 1 }];
    let swords = ready_node("minecraft:diamond_sword", sword_ingredients, 2, 0, 1);
    let requirements = vec![requirement("minecraft:iron_ingot", 1, StagingSource::Storage)];
    let stacks = vec![("minecraft:iron_ingot".to_owned(), StagingSource::Storage, stack(source, 1, 0))];
    let planned = plan_craft_staging(&swords, &requirements, &stacks, &destination(1), &sizes()).unwrap();
    assert!(planned.is_none());
}

#[test]
fn staged_craft_counts_only_the_crafts_left() {
    let mut container = destination(1);
    let id = container.id;
    container.contents.push((0, stored_kind(id, "minecraft:iron_ingot", 0, 5)));
    let mut capacity = ContainerCapacity::new(&container, &sizes()).unwrap();
    let ingredients = vec![CraftIngredient { item_kind: "minecraft:iron_ingot".to_owned(), quantity: 5 }];
    assert!(staged_craft_fits(&mut capacity, &ingredients, 3, 2, &"minecraft:hopper".to_owned(), 1, &sizes()));

    let mut capacity = ContainerCapacity::new(&container, &sizes()).unwrap();
    assert!(!staged_craft_fits(&mut capacity, &ingredients, 3, 1, &"minecraft:hopper".to_owned(), 1, &sizes()));
}

#[test]
fn staging_inputs_put_raw_materials_first_and_skip_local_dependencies() {
    let raw = vec![CraftItemRequirement { item_kind: "minecraft:iron_ingot".to_owned(), quantity: 3 }];
    let mut processing = stack(9, 5, 0);
    processing.region_type = "processing".to_owned();
    let raw_stacks = vec![vec![stack(8, 5, 0), processing]];
    let here = 77u128;
    let elsewhere = 78u128;
    let dependencies = vec![
        CraftDependencyRequirement {
            source_node_id: 1,
            region_id: here,
            requirement: CraftItemRequirement { item_kind: "minecraft:chest".to_owned(), quantity: 1 },
        },
        CraftDependencyRequirement {
            source_node_id: 2,
            region_id: elsewhere,
            requirement: CraftItemRequirement { item_kind: "minecraft:chest".to_owned(), quantity: 2 },
        },
    ];
    let mut in_region = stack(7, 2, 0);
    in_region.region_id = elsewhere;
    let dependency_stacks = vec![vec![], vec![in_region, stack(6, 2, 0)]];

    let (requirements, rows) = staging_inputs(&raw, &raw_stacks, &dependencies, &dependency_stacks, here);

    assert_eq!(requirements.len(), 2);
    assert!(matches!(requirements[0].source, StagingSource::Storage));
    assert!(matches!(requirements[1].source, StagingSource::Dependency(2)));
    assert_eq!(requirements[1].quantity, 2);
    assert_eq!(rows.len(), 2);
    assert_eq!(rows[0].2.container_id, 8);
    assert_eq!(rows[1].2.container_id, 7);
}

#[test]
fn allocation_succeeds_exactly_up_to_what_is_available() {
    let mut container = destination(3);
    let id = container.id;
    container.contents.push((0, stored_kind(id, "minecraft:ender_pearl", 0, 10)));
    let mut capacity = ContainerCapacity::new(&container, &sizes()).unwrap();
    let pearls = "minecraft:ender_pearl".to_owned();
    let available = capacity.available(&pearls, &String::new(), &sizes());
    assert_eq!(available, 6 + 2 * 16);
    assert!(capacity.allocate(&pearls, &String::new(), available + 1, &sizes()).is_none());
    let placements = capacity.allocate(&pearls, &String::new(), available, &sizes()).unwrap();
    assert_eq!(placements, vec![(0, 6), (1, 16), (2, 16)]);
    assert_eq!(capacity.available(&pearls, &String::new(), &sizes()), 0);
}

#[test]
fn consuming_empties_stacks_in_slot_order_and_frees_their_slots() {
    let mut container = destination(3);
    let id = container.id;
    container.contents.push((2, stored_kind(id, "minecraft:ender_pearl", 2, 5)));
    container.contents.push((0, stored_kind(id, "minecraft:ender_pearl", 0, 5)));
    let mut capacity = ContainerCapacity::new(&container, &sizes()).unwrap();
    let pearls = "minecraft:ender_pearl".to_owned();
    assert_eq!(capacity.available(&pearls, &String::new(), &sizes()), 11 + 11 + 16);
    assert!(capacity.consume(&pearls, 7));
    // Slot 0 was emptied and freed; slot 2 keeps 3 pearls.
    assert_eq!(capacity.available(&pearls, &String::new(), &sizes()), 13 + 2 * 16);
    assert!(!capacity.consume(&pearls, 4));
    assert_eq!(capacity.available(&pearls, &String::new(), &sizes()), 13 + 2 * 16);
}
