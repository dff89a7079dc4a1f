use minehouse::craft_run::{place_output_stack, CraftRunError};
use minehouse::item_stack::{Container, ItemStack};

fn stack(id: u128, slot: i32, quantity: i32) -> ItemStack {
    ItemStack {
        id,
        container_id: 100,
        item_kind: "minecraft:stick".to_owned(),
        slot,
        quantity,
        components: serde_json::Value::Null,
        components_digest: String::new(),
    }
}

fn container(id: u128, region_id: u128, capacity: u64, slots: &[usize]) -> Container<(i32, i32, i32)> {
    Container {
        id,
        region_id,
        position: (id as i32, 64, 0),
        capacity,
        contents: slots.iter().map(|slot| (*slot, stack(1000 + *slot as u128, *slot as i32, 1))).collect(),
    }
}

#[test]
fn output_goes_to_first_free_slot_of_first_bulk_container_with_room() {
    let mut containers = vec![
        container(1, 7, 27, &[]),
        container(2, 9, 2, &[0, 1]),
        container(3, 9, 3, &[0, 2]),
    ];
    let (index, item_move) = place_output_stack(&mut containers, &vec![9], &stack(5, 4, 12)).unwrap();
    assert_eq!(index, 2);
    assert_eq!(item_move.from_slot, 4);
    assert_eq!(item_move.to_slot, 1);
    assert_eq!(item_move.quantity, 12);
    assert_eq!(containers[2].contents.len(), 3);
    assert_eq!(containers[2].contents[2].0, 1);
    assert_eq!(containers[2].contents[2].1.id, 5);
    assert_eq!(containers[0].contents.len(), 0);
}

#[test]
fn placed_output_occupies_its_slot_for_the_next_stack() {
    let mut containers = vec![container(3, 9, 3, &[0])];
    let (_, first) = place_output_stack(&mut containers, &vec![9], &stack(5, 0, 3)).unwrap();
    let (_, second) = place_output_stack(&mut containers, &vec![9], &stack(6, 1, -2)).unwrap();
    assert_eq!(first.to_slot, 1);
    assert_eq!(second.to_slot, 2);
    assert_eq!(second.quantity, 0);
    let third = place_output_stack(&mut containers, &vec![9], &stack(7, 2, 1));
    assert!(matches!(third, Err(CraftRunError::NoBulkSlot)));
    assert_eq!(containers[0].contents.len(), 3);
}

#[test]
fn output_without_bulk_room_is_refused() {
    let mut containers = vec![container(1, 7, 27, &[]), container(2, 9, 1, &[0])];
    let placed = place_output_stack(&mut containers, &vec![9], &stack(5, 0, 3));
    assert!(matches!(placed, Err(CraftRunError::NoBulkSlot)));
    assert_eq!(containers[1].contents.len(), 1);
}

fn ready_node() -> minehouse::craft_job::ReadyCraftNode {
    minehouse::craft_job::ReadyCraftNode {
        spec: minehouse::craft_job::CraftNodeSpec {
            id: 11,
            key: "0".to_owned(),
            item_kind: "minecraft:chest".to_owned(),
            required_quantity: 2,
        },
        job_id: 12,
        recipe: minehouse::craft_job::CraftRecipeSnapshot {
            recipe_id: 13,
            engine_type: minehouse::crafting::CraftingEngineType::CraftingTable,
            ingredients: vec![minehouse::crafting::CraftIngredient { item_kind: "minecraft:oak_planks".to_owned(), quantity: 8 }],
            planned_crafts: 2,
            output_yield: 1,
        },
        completed_crafts: 1,
        assigned_region_id: Some(14),
    }
}

fn assignment(container_capacity: i32) -> minehouse::craft_job::CraftingRegionAssignment<(i32, i32, i32)> {
    minehouse::craft_job::CraftingRegionAssignment {
        engine_id: 20,
        region_id: 14,
        engine_position: (1, 64, 1),
        container_id: 21,
        container_position: (2, 64, 1),
        container_capacity,
        inherited_from: None,
    }
}

#[test]
fn dispatched_craft_runs_in_the_leased_region() {
    let unit = minehouse::craft_job::dispatch_work_unit(&ready_node(), &assignment(27)).unwrap();
    assert_eq!(unit.recipe.recipe_id, 13);
    assert_eq!(unit.recipe.output_item_kind, "minecraft:chest");
    assert_eq!(unit.recipe.crafts, 2);
    assert_eq!(unit.recipe.ingredients[0].quantity, 8);
    assert_eq!(unit.locations.engine, (1, 64, 1));
    assert_eq!(unit.locations.input_container_id, 21);
    assert_eq!(unit.locations.output_container, (2, 64, 1));
    assert_eq!(unit.locations.output_container_capacity, 27);
    assert_eq!(unit.progress.completed_crafts, 1);
    assert!(unit.progress.input_snapshot.is_none());
    let refused = minehouse::craft_job::dispatch_work_unit(&ready_node(), &assignment(-1));
    assert!(matches!(refused, Err(CraftRunError::NegativeCapacity)));
}

#[test]
fn recipe_node_becomes_a_craft_work_unit() {
    let recipes = vec![minehouse::crafting::Recipe {
        id: 13,
        output_item_kind: "minecraft:chest".to_owned(),
        output_yield: 1,
        engine_type: minehouse::crafting::CraftingEngineType::CraftingTable,
        ingredients: vec![minehouse::crafting::CraftIngredient { item_kind: "minecraft:oak_planks".to_owned(), quantity: 8 }],
    }];
    let node = |recipe_id: &str| minehouse::crafting::CraftNode {
        key: "0".to_owned(),
        item_kind: "minecraft:chest".to_owned(),
        quantity: 3,
        children: Vec::new(),
        kind: minehouse::crafting::CraftNodeKind::Recipe {
            recipe_id: recipe_id.to_owned(),
            crafts: 3,
            output_yield: 1,
            selected: false,
        },
    };
    let unit = minehouse::craft_run::recipe_work_unit(&node("00000000-0000-0000-0000-00000000000d"), &recipes, (1, 64, 1), 21, (2, 64, 1), 27)
        .unwrap()
        .unwrap();
    assert_eq!(unit.recipe.recipe_id, 13);
    assert_eq!(unit.recipe.crafts, 3);
    assert_eq!(unit.recipe.output_item_kind, "minecraft:chest");
    assert_eq!(unit.locations.output_container_id, 21);
    assert_eq!(unit.progress.completed_crafts, 0);

    let missing = minehouse::craft_run::recipe_work_unit(&node("00000000-0000-0000-0000-000000000063"), &recipes, (1, 64, 1), 21, (2, 64, 1), 27);
    assert!(matches!(missing, Err(CraftRunError::RecipeNotFound { recipe_id: 99 })));
    let invalid = minehouse::craft_run::recipe_work_unit(&node("not-a-uuid"), &recipes, (1, 64, 1), 21, (2, 64, 1), 27);
    assert!(matches!(invalid, Err(CraftRunError::InvalidRecipeId { .. })));
}

#[test]
fn craft_request_names_its_job_when_the_id_parses() {
    let request = |job_id: Option<&str>| minehouse::crafting::CraftPlanRequest {
        item_kind: "minecraft:chest".to_owned(),
        amount: 1,
        selections: Vec::new(),
        job_id: job_id.map(str::to_owned),
    };
    assert_eq!(minehouse::craft_run::request_job_id(&request(Some("00000000-0000-0000-0000-00000000002a"))), Some(42));
    assert_eq!(minehouse::craft_run::request_job_id(&request(Some("job 42"))), None);
    assert_eq!(minehouse::craft_run::request_job_id(&request(None)), None);
}
