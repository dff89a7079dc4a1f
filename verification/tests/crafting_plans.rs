use minehouse::craft_run::{check_craft_plan, collect_recipe_nodes, CraftRunError};
use minehouse::crafting::{
    build_node, collect_raw_materials, contains_choice, raw_totals_fit, resolve_plan, resolve_plan_checked, CraftIngredient, CraftNode, CraftNodeKind,
    CraftOption, CraftPlanError, CraftPlanRequest, CraftSelection, CraftingEngineType, Recipe,
};
use minehouse::execution::{execution_nodes_from_recipes, NewCraftJobNodeKind};
use minehouse::ids::{decimal_string, uuid_to_string};

fn recipe(id: u128, output: &str, output_yield: u32, ingredients: &[(&str, u32)]) -> Recipe {
    Recipe {
        id,
        output_item_kind: output.to_owned(),
        output_yield,
        engine_type: CraftingEngineType::CraftingTable,
        ingredients: ingredients
            .iter()
            .map(|(item_kind, quantity)| CraftIngredient { item_kind: (*item_kind).to_owned(), quantity: *quantity })
            .collect(),
    }
}

fn node(
    item_kind: &str,
    quantity: u32,
    recipes: &[Recipe],
    selections: Vec<(String, CraftSelection)>,
    available: &[(&str, u32)],
) -> Result<CraftNode, CraftPlanError> {
    let available: Vec<(String, u32)> = available.iter().map(|(item, quantity)| ((*item).to_owned(), *quantity)).collect();
    let mut active = Vec::new();
    build_node(&item_kind.to_owned(), quantity, &"0".to_owned(), &selections, recipes, &available, &mut active, false)
}

#[test]
fn expands_recipe_quantity_using_ceiling_crafts() {
    let root = node(
        "minecraft:hopper",
        5,
        &[recipe(1, "minecraft:hopper", 2, &[("minecraft:iron_ingot", 3)])],
        Vec::new(),
        &[("minecraft:iron_ingot", 20)],
    )
    .unwrap();

    let CraftNodeKind::Recipe { crafts, .. } = root.kind else {
        panic!("expected recipe root")
    };
    assert_eq!(crafts, 3);
    assert_eq!(root.children[0].quantity, 9);
}

#[test]
fn returns_unresolved_choice_for_multiple_recipes() {
    let root = node(
        "minecraft:hopper",
        1,
        &[
            recipe(1, "minecraft:hopper", 1, &[("minecraft:stone", 1)]),
            recipe(2, "minecraft:hopper", 1, &[("minecraft:oak_log", 1)]),
        ],
        Vec::new(),
        &[("minecraft:stone", 1)],
    )
    .unwrap();

    let CraftNodeKind::Choice { options } = &root.kind else {
        panic!("expected choice root")
    };
    assert_eq!(options.len(), 4);
    assert!(matches!(options[0], CraftOption::Recipe { available: true, .. }));
    assert!(matches!(options[1], CraftOption::Recipe { available: false, .. }));
    assert!(contains_choice(&root));
}

#[test]
fn explicit_storage_selection_is_marked_selected() {
    let selections = vec![("0.0".to_owned(), CraftSelection::Storage)];
    let root = node(
        "minecraft:hopper",
        1,
        &[recipe(1, "minecraft:hopper", 1, &[("minecraft:iron_ingot", 1)])],
        selections,
        &[("minecraft:iron_ingot", 1)],
    )
    .unwrap();

    let CraftNodeKind::Storage { selected, available } = root.children[0].kind else {
        panic!("expected storage child")
    };
    assert!(selected);
    assert_eq!(available, 1);
}

#[test]
fn explicit_any_selection_becomes_raw_material() {
    let selections = vec![("0".to_owned(), CraftSelection::Any)];
    let root = node(
        "minecraft:hopper",
        1,
        &[recipe(1, "minecraft:hopper", 1, &[("minecraft:iron_ingot", 2)])],
        selections,
        &[],
    )
    .unwrap();

    assert!(matches!(root.kind, CraftNodeKind::Any));
    let mut raw = Vec::new();
    collect_raw_materials(&root, &mut raw);
    let hopper = raw.iter().find(|(item_kind, _)| item_kind == "minecraft:hopper").map(|(_, quantity)| quantity);
    assert_eq!(hopper, Some(&1));
}

#[test]
fn rejects_recipe_cycles() {
    let error = node(
        "minecraft:stick",
        1,
        &[
            recipe(1, "minecraft:stick", 1, &[("minecraft:oak_planks", 1)]),
            recipe(2, "minecraft:oak_planks", 1, &[("minecraft:stick", 1)]),
        ],
        Vec::new(),
        &[],
    )
    .unwrap_err();
    assert!(error.message().contains("cycle detected"));
}

#[test]
fn rejects_unknown_explicit_recipe() {
    let selections = vec![("0".to_owned(), CraftSelection::Recipe { recipe_id: uuid_to_string(99) })];
    let error = node(
        "minecraft:hopper",
        1,
        &[recipe(1, "minecraft:hopper", 1, &[("minecraft:iron_ingot", 1)])],
        selections,
        &[],
    )
    .unwrap_err();
    assert!(error.message().contains("does not produce minecraft:hopper"));
}

#[test]
fn execution_nodes_preserve_tree_and_recipe_snapshot() {
    let recipes = vec![
        recipe(1, "minecraft:hopper", 2, &[("minecraft:chest", 3)]),
        recipe(2, "minecraft:chest", 1, &[("minecraft:oak_planks", 4)]),
    ];
    let root = node("minecraft:hopper", 5, &recipes, Vec::new(), &[]).unwrap();

    let nodes = execution_nodes_from_recipes(&root, &recipes).unwrap();

    assert_eq!(nodes.len(), 3);
    assert_eq!(nodes[0].spec.key, "0");
    let NewCraftJobNodeKind::Recipe(recipe) = &nodes[0].kind else {
        panic!("expected recipe node")
    };
    assert_eq!(recipe.planned_crafts, 3);
    assert_eq!(recipe.engine_type.as_str(), "crafting_table");
    assert_eq!(recipe.ingredients[0].quantity, 3);
    assert_eq!(nodes[1].parent_id, Some(nodes[0].spec.id));
    assert_eq!(nodes[2].parent_id, Some(nodes[1].spec.id));
    assert!(matches!(nodes[2].kind, NewCraftJobNodeKind::Storage));
    assert_eq!(nodes[2].spec.required_quantity, 36);
}

#[test]
fn execution_nodes_reject_unresolved_choices() {
    let recipes = vec![
        recipe(1, "minecraft:hopper", 1, &[("minecraft:stone", 1)]),
        recipe(2, "minecraft:hopper", 1, &[("minecraft:oak_log", 1)]),
    ];
    let root = node("minecraft:hopper", 1, &recipes, Vec::new(), &[]).unwrap();

    let error = execution_nodes_from_recipes(&root, &recipes).unwrap_err();

    assert!(error.message().contains("unresolved choices"));
}

#[test]
fn execution_nodes_reject_a_recipe_that_changed() {
    let planned = vec![recipe(1, "minecraft:hopper", 2, &[("minecraft:iron_ingot", 5)])];
    let root = node("minecraft:hopper", 2, &planned, Vec::new(), &[]).unwrap();
    let changed = vec![recipe(1, "minecraft:hopper", 3, &[("minecraft:iron_ingot", 5)])];

    let error = execution_nodes_from_recipes(&root, &changed).unwrap_err();

    assert_eq!(error.message(), format!("recipe {} changed while queueing", uuid_to_string(1)));
}

#[test]
fn execution_nodes_reject_a_recipe_that_disappeared() {
    let planned = vec![recipe(7, "minecraft:hopper", 1, &[("minecraft:iron_ingot", 5)])];
    let root = node("minecraft:hopper", 1, &planned, Vec::new(), &[]).unwrap();

    let error = execution_nodes_from_recipes(&root, &Vec::new()).unwrap_err();

    assert_eq!(error.message(), format!("recipe {} disappeared before queueing", uuid_to_string(7)));
}

#[test]
fn resolved_plan_totals_raw_materials_and_availability() {
    let recipes = vec![recipe(1, "minecraft:hopper", 1, &[("minecraft:iron_ingot", 5), ("minecraft:chest", 1)])];
    let request = CraftPlanRequest {
        item_kind: "minecraft:hopper".to_owned(),
        amount: 2,
        selections: Vec::new(),
        job_id: None,
    };
    let available = vec![("minecraft:iron_ingot".to_owned(), 4), ("minecraft:chest".to_owned(), 7)];

    let plan = resolve_plan(&request, Some("minecraft:hopper".to_owned()), &recipes, &available).unwrap();

    assert!(!plan.unresolved);
    assert_eq!(plan.raw_materials.len(), 2);
    assert_eq!(plan.raw_materials[0].item_kind, "minecraft:iron_ingot");
    assert_eq!(plan.raw_materials[0].quantity, 10);
    assert_eq!(plan.raw_materials[0].available, 4);
    assert_eq!(plan.raw_materials[1].item_kind, "minecraft:chest");
    assert_eq!(plan.raw_materials[1].quantity, 2);
    assert_eq!(plan.raw_materials[1].available, 7);
    assert!(matches!(check_craft_plan(&plan), Ok(false)));
}

#[test]
fn resolve_plan_reports_each_error() {
    let request = |amount: u32| CraftPlanRequest {
        item_kind: "minecraft:hopper".to_owned(),
        amount,
        selections: Vec::new(),
        job_id: None,
    };
    let good = vec![recipe(1, "minecraft:hopper", 1, &[("minecraft:iron_ingot", 5)])];
    let error = resolve_plan(&request(0), Some("minecraft:hopper".to_owned()), &good, &[]).unwrap_err();
    assert_eq!(error.message(), "craft amount must be positive");

    let error = resolve_plan(&request(1), None, &good, &[]).unwrap_err();
    assert_eq!(error.message(), "unknown item kind minecraft:hopper");

    let no_yield = vec![recipe(3, "minecraft:hopper", 0, &[("minecraft:iron_ingot", 5)])];
    let error = resolve_plan(&request(1), Some("minecraft:hopper".to_owned()), &no_yield, &[]).unwrap_err();
    assert_eq!(error.message(), format!("recipe {} has an invalid yield", uuid_to_string(3)));

    let no_ingredients = vec![recipe(4, "minecraft:hopper", 1, &[])];
    let error = resolve_plan(&request(1), Some("minecraft:hopper".to_owned()), &no_ingredients, &[]).unwrap_err();
    assert_eq!(error.message(), format!("recipe {} has no ingredients", uuid_to_string(4)));

    let mut with_bad_id = request(1);
    with_bad_id.selections.push(("0".to_owned(), CraftSelection::Recipe { recipe_id: "not-a-uuid".to_owned() }));
    let error = resolve_plan(&with_bad_id, Some("minecraft:hopper".to_owned()), &good, &[]).unwrap_err();
    assert_eq!(error.message(), "invalid recipe id not-a-uuid");
}

#[test]
fn craft_plan_readiness_checks_choices_and_target() {
    let choice = vec![
        recipe(1, "minecraft:hopper", 1, &[("minecraft:stone", 1)]),
        recipe(2, "minecraft:hopper", 1, &[("minecraft:oak_log", 1)]),
    ];
    let request = CraftPlanRequest { item_kind: "minecraft:hopper".to_owned(), amount: 1, selections: Vec::new(), job_id: None };
    let plan = resolve_plan(&request, Some("minecraft:hopper".to_owned()), &choice, &[]).unwrap();
    assert!(matches!(check_craft_plan(&plan), Err(CraftRunError::UnresolvedChoices)));

    let storage = CraftPlanRequest {
        item_kind: "minecraft:stone".to_owned(),
        amount: 1,
        selections: vec![("0".to_owned(), CraftSelection::Storage)],
        job_id: None,
    };
    let plan = resolve_plan(&storage, Some("minecraft:stone".to_owned()), &[], &[("minecraft:stone".to_owned(), 5)]).unwrap();
    assert!(matches!(check_craft_plan(&plan), Err(CraftRunError::TargetNotRecipe)));

    let single = vec![recipe(1, "minecraft:hopper", 1, &[("minecraft:stone", 2)])];
    let plan = resolve_plan(&request, Some("minecraft:hopper".to_owned()), &single, &[("minecraft:stone".to_owned(), 2)]).unwrap();
    assert!(matches!(check_craft_plan(&plan), Ok(true)));
}

#[test]
fn recipe_nodes_are_collected_children_first() {
    let recipes = vec![
        recipe(1, "minecraft:hopper", 1, &[("minecraft:chest", 1), ("minecraft:iron_ingot", 5)]),
        recipe(2, "minecraft:chest", 1, &[("minecraft:oak_planks", 8)]),
    ];
    let root = node("minecraft:hopper", 1, &recipes, Vec::new(), &[]).unwrap();
    let mut nodes = Vec::new();
    collect_recipe_nodes(&root, &mut nodes);
    assert_eq!(nodes.len(), 2);
    assert_eq!(nodes[0].item_kind, "minecraft:chest");
    assert_eq!(nodes[1].item_kind, "minecraft:hopper");
}

fn request(item_kind: &str, amount: u32) -> CraftPlanRequest {
    CraftPlanRequest { item_kind: item_kind.to_owned(), amount, selections: Vec::new(), job_id: None }
}

#[test]
fn checked_plan_refuses_raw_totals_beyond_u32() {
    let recipes = [recipe(1, "minecraft:stick", 1, &[("minecraft:oak_planks", 2), ("minecraft:oak_planks", 2)])];
    let available = vec![("minecraft:oak_planks".to_owned(), 10)];
    let huge = request("minecraft:stick", 3_000_000_000);
    let checked = resolve_plan_checked(&huge, Some("minecraft:stick".to_owned()), &recipes, &available);
    assert!(checked.is_none());

    let small = request("minecraft:stick", 3);
    let plan = resolve_plan_checked(&small, Some("minecraft:stick".to_owned()), &recipes, &available)
        .unwrap()
        .unwrap();
    assert_eq!(plan.raw_materials.len(), 1);
    assert_eq!(plan.raw_materials[0].quantity, 12);
    assert!(raw_totals_fit(&plan.root));
}

#[test]
fn stored_recipes_assemble_with_their_ingredients() {
    use_recipe_rows();
}

fn use_recipe_rows() {
    let rows = vec![
        minehouse::recipe_rows::RecipeRow {
            id: 2,
            output_item_kind: "minecraft:stick".to_owned(),
            output_yield: 4,
            engine_type: CraftingEngineType::CraftingTable,
        },
        minehouse::recipe_rows::RecipeRow {
            id: 1,
            output_item_kind: "minecraft:oak_planks".to_owned(),
            output_yield: 4,
            engine_type: CraftingEngineType::CraftingTable,
        },
        minehouse::recipe_rows::RecipeRow {
            id: 2,
            output_item_kind: "minecraft:stick".to_owned(),
            output_yield: 4,
            engine_type: CraftingEngineType::CraftingTable,
        },
    ];
    let ingredient = |recipe_id: u128, item_kind: &str, quantity: i32, position: i32| {
        minehouse::recipe_rows::RecipeIngredientRow { recipe_id, item_kind: item_kind.to_owned(), quantity, position }
    };
    let recipes = minehouse::recipe_rows::assemble_recipes(
        rows,
        vec![ingredient(1, "minecraft:oak_log", 1, 0), ingredient(2, "minecraft:oak_planks", 2, 0)],
    )
    .unwrap();
    assert_eq!(recipes.len(), 3);
    assert_eq!(recipes[0].ingredients.len(), 1);
    assert_eq!(recipes[0].ingredients[0].item_kind, "minecraft:oak_planks");
    assert_eq!(recipes[1].ingredients[0].item_kind, "minecraft:oak_log");
    assert!(recipes[2].ingredients.is_empty());

    let negative = minehouse::recipe_rows::assemble_recipes(Vec::new(), vec![ingredient(1, "minecraft:oak_log", -1, 0)]);
    assert_eq!(negative.unwrap_err(), "recipe ingredient quantity must be positive");
    let bad_yield = minehouse::recipe_rows::assemble_recipes(
        vec![minehouse::recipe_rows::RecipeRow {
            id: 3,
            output_item_kind: "minecraft:stick".to_owned(),
            output_yield: -4,
            engine_type: CraftingEngineType::CraftingTable,
        }],
        Vec::new(),
    );
    assert_eq!(bad_yield.unwrap_err(), "recipe yield must be positive");
}

#[test]
fn available_total_ignores_negative_stacks_and_refuses_overflow() {
    assert_eq!(minehouse::storage_query::available_total(&vec![64, -3, 12]), Some(76));
    assert_eq!(minehouse::storage_query::available_total(&Vec::new()), Some(0));
    assert_eq!(minehouse::storage_query::available_total(&vec![i32::MAX, i32::MAX, 2]), None);
}

#[test]
fn plan_item_kinds_lists_target_outputs_and_ingredients_once() {
    let recipes = [
        recipe(1, "minecraft:stick", 4, &[("minecraft:oak_planks", 2)]),
        recipe(2, "minecraft:oak_planks", 4, &[("minecraft:oak_log", 1)]),
        recipe(3, "minecraft:torch", 4, &[("minecraft:stick", 1), ("minecraft:coal", 1)]),
    ];
    let kinds = minehouse::crafting::plan_item_kinds(&"minecraft:torch".to_owned(), &recipes);
    assert_eq!(
        kinds,
        vec![
            "minecraft:torch".to_owned(),
            "minecraft:stick".to_owned(),
            "minecraft:oak_planks".to_owned(),
            "minecraft:oak_log".to_owned(),
            "minecraft:coal".to_owned(),
        ]
    );
}

#[test]
fn recipe_ids_read_as_hyphenated_lower_case_hex() {
    assert_eq!(uuid_to_string(0x0123456789abcdef0123456789abcdef), "01234567-89ab-cdef-0123-456789abcdef");
    assert_eq!(uuid_to_string(7), "00000000-0000-0000-0000-000000000007");
}

#[test]
fn recipe_node_children_follow_its_ingredients() {
    let recipes = [
        recipe(1, "minecraft:piston", 1, &[("minecraft:planks", 3), ("minecraft:cobblestone", 4), ("minecraft:planks", 1)]),
        recipe(2, "minecraft:planks", 4, &[("minecraft:oak_log", 1)]),
    ];
    let available: Vec<(String, u32)> = Vec::new();
    let mut active = vec!["minecraft:observer".to_owned()];
    let root = build_node(
        &"minecraft:piston".to_owned(),
        2,
        &"0".to_owned(),
        &[],
        &recipes,
        &available,
        &mut active,
        false,
    )
    .unwrap();
    // The builder leaves the chain of kinds being expanded as it found it,
    // so the repeated planks ingredient is no cycle.
    assert_eq!(active, vec!["minecraft:observer".to_owned()]);
    let CraftNodeKind::Recipe { crafts, .. } = root.kind else {
        panic!("expected recipe root")
    };
    assert_eq!(crafts, 2);
    let keys: Vec<&str> = root.children.iter().map(|child| child.key.as_str()).collect();
    assert_eq!(keys, vec!["0.0", "0.1", "0.2"]);
    let quantities: Vec<u32> = root.children.iter().map(|child| child.quantity).collect();
    assert_eq!(quantities, vec![6, 8, 2]);
    // Six planks at four a craft take the fewest crafts that cover them: two.
    let CraftNodeKind::Recipe { crafts, .. } = &root.children[0].kind else {
        panic!("expected recipe child")
    };
    assert_eq!(*crafts, 2);
}

#[test]
fn decimal_text_and_concatenation() {
    assert_eq!(decimal_string(0), "0");
    assert_eq!(decimal_string(7), "7");
    assert_eq!(decimal_string(1234), "1234");
    assert_eq!(decimal_string(usize::MAX), usize::MAX.to_string());
    assert_eq!(minehouse::ids::concat("ab", "cd"), "abcd");
}
