//! Recipes as they are stored: one row per recipe and one per ingredient,
//! put together into [`Recipe`]s.
use crate::crafting::{CraftIngredient, CraftingEngineType, Recipe};
use crate::execution::ingredient_models;
use vstd::prelude::*;

verus! {

/// A stored recipe, without its ingredients.
#[derive(Debug)]
pub struct RecipeRow {
    pub id: u128,
    pub output_item_kind: String,
    pub output_yield: i32,
    pub engine_type: CraftingEngineType,
}

/// A stored ingredient of the recipe `recipe_id`, at `position` in its list.
#[derive(Debug)]
pub struct RecipeIngredientRow {
    pub recipe_id: u128,
    pub item_kind: String,
    pub quantity: i32,
    pub position: i32,
}

/// The ingredients of recipe `id` among `rows[..n]`, in row order.
pub open spec fn ingredients_of(rows: Seq<RecipeIngredientRow>, id: u128, n: int) -> Seq<(Seq<char>, u32)>
    decreases n,
{
    if n <= 0 {
        Seq::empty()
    } else {
        let earlier = ingredients_of(rows, id, n - 1);
        if rows[n - 1].recipe_id == id {
            earlier.push((rows[n - 1].item_kind@, rows[n - 1].quantity as u32))
        } else {
            earlier
        }
    }
}

/// Whether no recipe row before `k` has the id of row `k`: only the first
/// row of an id receives its ingredients.
pub open spec fn first_of_id(rows: Seq<RecipeRow>, k: int) -> bool {
    forall|j: int| 0 <= j < k ==> #[trigger] rows[j].id != rows[k].id
}

/// Why stored recipes do not assemble: first any negative ingredient
/// quantity, then any negative yield.
pub open spec fn recipe_rows_problem(rows: Seq<RecipeRow>, ingredients: Seq<RecipeIngredientRow>) -> Option<Seq<char>> {
    if exists|i: int| 0 <= i < ingredients.len() && #[trigger] ingredients[i].quantity < 0 {
        Some("recipe ingredient quantity must be positive"@)
    } else if exists|k: int| 0 <= k < rows.len() && #[trigger] rows[k].output_yield < 0 {
        Some("recipe yield must be positive"@)
    } else {
        None
    }
}

fn copy_ingredient_rows(ingredients: &Vec<RecipeIngredientRow>, id: u128) -> (found: Vec<CraftIngredient>)
    requires
        forall|i: int| 0 <= i < ingredients@.len() ==> #[trigger] ingredients@[i].quantity >= 0,
    ensures
        ingredient_models(found@) == ingredients_of(ingredients@, id, ingredients@.len() as int),
{
    let mut found: Vec<CraftIngredient> = Vec::new();
    let mut i: usize = 0;
    while i < ingredients.len()
        invariant
            i <= ingredients@.len(),
            forall|j: int| 0 <= j < ingredients@.len() ==> #[trigger] ingredients@[j].quantity >= 0,
            ingredient_models(found@) == ingredients_of(ingredients@, id, i as int),
        decreases ingredients.len() - i,
    {
        if ingredients[i].recipe_id == id {
            let ghost before = found@;
            found.push(CraftIngredient { item_kind: ingredients[i].item_kind.clone(), quantity: ingredients[i].quantity as u32 });
            assert(ingredient_models(found@) =~= ingredient_models(before).push(
                (ingredients@[i as int].item_kind@, ingredients@[i as int].quantity as u32),
            ));
        }
        i = i + 1;
    }
    found
}

/// Puts stored recipes together: each recipe row with the ingredients that
/// name it, in row order (a later row with an id already seen gets none).
/// Fails when an ingredient quantity or a yield is negative.
pub fn assemble_recipes(rows: Vec<RecipeRow>, ingredients: Vec<RecipeIngredientRow>) -> (result: Result<Vec<Recipe>, String>)
    ensures
        match result {
            Err(message) => recipe_rows_problem(rows@, ingredients@) == Some(message@),
            Ok(recipes) => {
                &&& recipe_rows_problem(rows@, ingredients@) is None
                &&& recipes@.len() == rows@.len()
                &&& forall|k: int|
                    0 <= k < rows@.len() ==> {
                        &&& (#[trigger] recipes@[k]).id == rows@[k].id
                        &&& recipes@[k].output_item_kind == rows@[k].output_item_kind
                        &&& recipes@[k].output_yield == rows@[k].output_yield as u32
                        &&& recipes@[k].engine_type == rows@[k].engine_type
                        &&& ingredient_models(recipes@[k].ingredients@) == if first_of_id(rows@, k) {
                            ingredients_of(ingredients@, rows@[k].id, ingredients@.len() as int)
                        } else {
                            Seq::empty()
                        }
                    }
            },
        },
{
    let mut i: usize = 0;
    while i < ingredients.len()
        invariant
            i <= ingredients@.len(),
            forall|j: int| 0 <= j < i ==> #[trigger] ingredients@[j].quantity >= 0,
        decreases ingredients.len() - i,
    {
        if ingredients[i].quantity < 0 {
            return Err(String::from_str("recipe ingredient quantity must be positive"));
        }
        i = i + 1;
    }
    let mut k: usize = 0;
    while k < rows.len()
        invariant
            k <= rows@.len(),
            forall|j: int| 0 <= j < ingredients@.len() ==> #[trigger] ingredients@[j].quantity >= 0,
            forall|j: int| 0 <= j < k ==> #[trigger] rows@[j].output_yield >= 0,
        decreases rows.len() - k,
    {
        if rows[k].output_yield < 0 {
            return Err(String::from_str("recipe yield must be positive"));
        }
        k = k + 1;
    }
    let mut recipes: Vec<Recipe> = Vec::new();
    let mut n: usize = 0;
    while n < rows.len()
        invariant
            n <= rows@.len(),
            forall|j: int| 0 <= j < ingredients@.len() ==> #[trigger] ingredients@[j].quantity >= 0,
            forall|j: int| 0 <= j < rows@.len() ==> #[trigger] rows@[j].output_yield >= 0,
            recipes@.len() == n,
            forall|m: int|
                0 <= m < n ==> {
                    &&& (#[trigger] recipes@[m]).id == rows@[m].id
                    &&& recipes@[m].output_item_kind == rows@[m].output_item_kind
                    &&& recipes@[m].output_yield == rows@[m].output_yield as u32
                    &&& recipes@[m].engine_type == rows@[m].engine_type
                    &&& ingredient_models(recipes@[m].ingredients@) == if first_of_id(rows@, m) {
                        ingredients_of(ingredients@, rows@[m].id, ingredients@.len() as int)
                    } else {
                        Seq::empty()
                    }
                },
        decreases rows.len() - n,
    {
        let row = &rows[n];
        let mut seen = false;
        let mut j: usize = 0;
        while j < n
            invariant
                j <= n < rows@.len(),
                seen ==> !first_of_id(rows@, n as int),
                !seen ==> forall|m: int| 0 <= m < j ==> #[trigger] rows@[m].id != rows@[n as int].id,
            decreases n - j,
        {
            if rows[j].id == rows[n].id {
                seen = true;
            }
            j = j + 1;
        }
        let found = if seen {
            let empty: Vec<CraftIngredient> = Vec::new();
            assert(ingredient_models(empty@) =~= Seq::<(Seq<char>, u32)>::empty());
            empty
        } else {
            copy_ingredient_rows(&ingredients, row.id)
        };
        recipes.push(Recipe {
            id: row.id,
            output_item_kind: row.output_item_kind.clone(),
            output_yield: row.output_yield as u32,
            engine_type: row.engine_type,
            ingredients: found,
        });
        n = n + 1;
    }
    Ok(recipes)
}

} // verus!
