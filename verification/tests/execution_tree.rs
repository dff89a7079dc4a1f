use minehouse::craft_job::{
    craft_job_status, CraftJobRow, CraftJobState, ReadyCraftNode, ReadyCraftNodeRow,
    CraftJobOperationRecord, CraftNodeSpec, CraftNodeState, CraftOperationKind, CraftOperationState,
    CraftRecipeSnapshot,
};
use minehouse::crafting::{CraftSelection, CraftingEngineType};
use minehouse::exec_tree::{execution_tree, CraftExecutionNodeKind, CraftJobNodeData, CraftJobNodeRecord, TreeError};
use minehouse::ids::new_uuid;

fn record(id: u128, parent_id: Option<u128>, key: &str, child_order: i32, item_kind: &str) -> CraftJobNodeRecord {
    CraftJobNodeRecord {
        spec: CraftNodeSpec { id, key: key.to_owned(), item_kind: item_kind.to_owned(), required_quantity: 10 },
        parent_id,
        child_order,
        kind: if parent_id.is_none() {
            CraftJobNodeData::Recipe {
                recipe: CraftRecipeSnapshot {
                    recipe_id: 1,
                    engine_type: CraftingEngineType::CraftingTable,
                    ingredients: Vec::new(),
                    planned_crafts: 10,
                    output_yield: 1,
                },
                completed_crafts: 4,
            }
        } else {
            CraftJobNodeData::Storage
        },
        completed_quantity: if parent_id.is_none() { 4 } else { 10 },
        state: if parent_id.is_none() { CraftNodeState::Running } else { CraftNodeState::Completed },
        assigned_region_id: None,
        error: None,
        operation: if parent_id.is_none() {
            Some(CraftJobOperationRecord {
                kind: CraftOperationKind::Craft,
                state: CraftOperationState::Running,
                completed_amount: 4,
                error: None,
            })
        } else {
            None
        },
    }
}

#[test]
fn rebuilds_persisted_execution_tree_with_progress() {
    let root_id = new_uuid();
    let first_id = new_uuid();
    let second_id = new_uuid();

    let root = execution_tree(vec![
        record(second_id, Some(root_id), "0.1", 1, "second"),
        record(root_id, None, "0", 0, "widget"),
        record(first_id, Some(root_id), "0.0", 0, "first"),
    ])
    .unwrap();

    assert_eq!(root.completed_quantity, 4);
    assert_eq!(root.children[0].item_kind, "first");
    assert_eq!(root.children[1].item_kind, "second");
    assert_eq!(root.operation.unwrap().completed_amount, 4);
    let CraftExecutionNodeKind::Recipe { planned_crafts, completed_crafts, .. } = root.kind else {
        panic!("expected recipe root")
    };
    assert_eq!(planned_crafts, 10);
    assert_eq!(completed_crafts, 4);
}

#[test]
fn execution_tree_shows_names_and_recipe_id() {
    let root = execution_tree(vec![record(7, None, "0", 0, "widget"), record(8, Some(7), "0.0", 0, "stick")]).unwrap();
    assert_eq!(root.state, "running");
    assert_eq!(root.children[0].state, "completed");
    let operation = root.operation.unwrap();
    assert_eq!(operation.kind, "craft");
    assert_eq!(operation.state, "running");
    let CraftExecutionNodeKind::Recipe { recipe_id, engine_type, .. } = root.kind else {
        panic!("expected recipe root")
    };
    assert_eq!(recipe_id, "00000000-0000-0000-0000-000000000001");
    assert_eq!(engine_type, "crafting_table");
    assert!(matches!(root.children[0].kind, CraftExecutionNodeKind::Storage));
}

#[test]
fn siblings_with_equal_order_keep_record_order() {
    let root = execution_tree(vec![
        record(1, None, "0", 0, "widget"),
        record(2, Some(1), "0.a", 3, "a"),
        record(3, Some(1), "0.b", 1, "b"),
        record(4, Some(1), "0.c", 3, "c"),
    ])
    .unwrap();
    let kinds: Vec<&str> = root.children.iter().map(|child| child.item_kind.as_str()).collect();
    assert_eq!(kinds, vec!["b", "a", "c"]);
}

#[test]
fn execution_tree_needs_exactly_one_root() {
    let none = execution_tree(vec![record(2, Some(1), "0.0", 0, "a")]).unwrap_err();
    assert_eq!(none, TreeError::NotOneRoot);
    assert_eq!(none.message(), "craft job must have exactly one root node");
    let two = execution_tree(vec![record(1, None, "0", 0, "a"), record(2, None, "1", 0, "b")]).unwrap_err();
    assert_eq!(two, TreeError::NotOneRoot);
}

#[test]
fn node_reached_twice_is_not_found() {
    let error = execution_tree(vec![
        record(1, None, "0", 0, "widget"),
        record(2, Some(1), "0.0", 0, "a"),
        record(2, Some(1), "0.1", 1, "a"),
    ])
    .unwrap_err();
    assert_eq!(error, TreeError::NodeNotFound { id: 2 });
    assert_eq!(error.message(), "craft node 00000000-0000-0000-0000-000000000002 was not found");
}

#[test]
fn negative_progress_is_out_of_range() {
    let mut child = record(2, Some(1), "0.0", 0, "a");
    child.completed_quantity = -1;
    let error = execution_tree(vec![record(1, None, "0", 0, "widget"), child]).unwrap_err();
    assert_eq!(error, TreeError::OutOfRange);
    assert_eq!(error.message(), "out of range integral type conversion attempted");
}

fn row() -> minehouse::exec_tree::CraftJobNodeRow {
    minehouse::exec_tree::CraftJobNodeRow {
        id: 9,
        parent_id: Some(1),
        key: "0.2".to_owned(),
        child_order: 2,
        kind: minehouse::craft_job::CraftNodeKind::Recipe,
        item_kind: "minecraft:stick".to_owned(),
        required_quantity: 8,
        completed_quantity: 3,
        state: CraftNodeState::Running,
        recipe_id: Some(77),
        engine_type: Some(CraftingEngineType::CraftingTable),
        planned_crafts: Some(2),
        completed_crafts: 1,
        output_yield: Some(4),
        recipe_ingredients: Some(Ok(vec![minehouse::crafting::CraftIngredient {
            item_kind: "minecraft:oak_planks".to_owned(),
            quantity: 2,
        }])),
        assigned_region_id: None,
        error: None,
        operation_kind: Some(CraftOperationKind::Craft),
        operation_state: Some(CraftOperationState::Queued),
        operation_completed_amount: None,
        operation_error: None,
    }
}

#[test]
fn node_row_becomes_a_record() {
    let record = CraftJobNodeRecord::try_from_row(row()).unwrap();
    assert_eq!(record.spec.id, 9);
    assert_eq!(record.spec.required_quantity, 8);
    let CraftJobNodeData::Recipe { recipe, completed_crafts } = &record.kind else {
        panic!("expected recipe node")
    };
    assert_eq!(recipe.recipe_id, 77);
    assert_eq!(recipe.planned_crafts, 2);
    assert_eq!(recipe.output_yield, 4);
    assert_eq!(recipe.ingredients.len(), 1);
    assert_eq!(*completed_crafts, 1);
    assert_eq!(record.operation.as_ref().unwrap().completed_amount, 0);
}

#[test]
fn node_row_errors_name_the_missing_field() {
    let mut missing = row();
    missing.engine_type = None;
    let error = CraftJobNodeRecord::try_from_row(missing).unwrap_err();
    assert_eq!(error.message(), "recipe node 0.2 has no engine type");

    let mut negative = row();
    negative.output_yield = Some(-1);
    let error = CraftJobNodeRecord::try_from_row(negative).unwrap_err();
    assert_eq!(error.message(), "recipe node 0.2 has no valid output yield");

    let mut unparsed = row();
    unparsed.recipe_ingredients = Some(Err("expected a sequence".to_owned()));
    let error = CraftJobNodeRecord::try_from_row(unparsed).unwrap_err();
    assert_eq!(error.message(), "expected a sequence");

    let mut half = row();
    half.operation_state = None;
    let error = CraftJobNodeRecord::try_from_row(half).unwrap_err();
    assert_eq!(error.message(), "incomplete craft operation row");

    let mut storage = row();
    storage.kind = minehouse::craft_job::CraftNodeKind::Storage;
    storage.recipe_id = None;
    storage.required_quantity = -3;
    let error = CraftJobNodeRecord::try_from_row(storage).unwrap_err();
    assert_eq!(error.message(), "storage node 0.2 has no valid required quantity");
}

#[test]
fn ready_row_becomes_a_ready_node() {
    let row = |required_quantity: i32, planned_crafts: i32| ReadyCraftNodeRow {
        id: 4,
        job_id: 5,
        key: "0".to_owned(),
        item_kind: "minecraft:chest".to_owned(),
        required_quantity,
        recipe_id: 6,
        engine_type: CraftingEngineType::CraftingTable,
        recipe_ingredients: Ok(Vec::new()),
        planned_crafts,
        output_yield: 1,
        completed_crafts: 0,
        assigned_region_id: Some(3),
    };
    let node = ReadyCraftNode::try_from_row(row(2, 2)).unwrap();
    assert_eq!(node.job_id, 5);
    assert_eq!(node.recipe.planned_crafts, 2);
    assert_eq!(node.assigned_region_id, Some(3));
    assert_eq!(ReadyCraftNode::try_from_row(row(-1, 2)).unwrap_err(), "craft node quantity cannot be negative");
    assert_eq!(ReadyCraftNode::try_from_row(row(2, -2)).unwrap_err(), "planned crafts cannot be negative");
}

#[test]
fn job_row_becomes_a_status() {
    let status = craft_job_status(CraftJobRow {
        id: 255,
        target_item_kind: "minecraft:chest".to_owned(),
        target_quantity: 3,
        selections: Ok(vec![("0".to_owned(), CraftSelection::Storage)]),
        state: CraftJobState::Waiting,
        completed_quantity: 0,
        error: None,
    })
    .unwrap();
    assert_eq!(status.id, "00000000-0000-0000-0000-0000000000ff");
    assert_eq!(status.target_quantity, 3);
    assert_eq!(status.state, CraftJobState::Waiting);
    let error = craft_job_status(CraftJobRow {
        id: 1,
        target_item_kind: String::new(),
        target_quantity: 1,
        selections: Ok(Vec::new()),
        state: CraftJobState::Failed,
        completed_quantity: -4,
        error: None,
    })
    .unwrap_err();
    assert_eq!(error, "completed quantity cannot be negative");
}
