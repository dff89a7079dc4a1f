//! Crafting plans: the tree of recipes, storage withdrawals and open choices
//! that produces a requested quantity of an item.
use crate::ids::{concat, decimal, decimal_string, parse_uuid, uuid_parse, uuid_text, uuid_to_string};
use vstd::prelude::*;

verus! {

/// The kind of engine that executes a recipe.
#[derive(Clone, Copy, PartialEq, Eq, Debug)]
pub enum CraftingEngineType {
    CraftingTable,
    Smithing,
    Stonecutter,
}

impl CraftingEngineType {
    /// The name under which it is stored.
    pub open spec fn name(self) -> Seq<char> {
        match self {
            CraftingEngineType::CraftingTable => "crafting_table"@,
            CraftingEngineType::Smithing => "smithing"@,
            CraftingEngineType::Stonecutter => "stonecutter"@,
        }
    }

    /// The engine type's name, as stored.
    pub fn as_str(self) -> (name: &'static str)
        ensures
            name@ == self.name(),
    {
        match self {
            CraftingEngineType::CraftingTable => "crafting_table",
            CraftingEngineType::Smithing => "smithing",
            CraftingEngineType::Stonecutter => "stonecutter",
        }
    }
}

/// One ingredient of a recipe: `quantity` items of `item_kind` per craft.
#[derive(Debug)]
pub struct CraftIngredient {
    pub item_kind: String,
    pub quantity: u32,
}

/// A recipe that turns its ingredients into `output_yield` items of
/// `output_item_kind` per craft.
#[derive(Debug)]
pub struct Recipe {
    pub id: u128,
    pub output_item_kind: String,
    pub output_yield: u32,
    pub engine_type: CraftingEngineType,
    pub ingredients: Vec<CraftIngredient>,
}

/// A choice made by the user for the node with a given key.
#[derive(Debug)]
pub enum CraftSelection {
    Recipe { recipe_id: String },
    Storage,
    Any,
}

/// A node of a crafting plan.
#[derive(Debug)]
pub struct CraftNode {
    pub key: String,
    pub item_kind: String,
    pub quantity: u32,
    pub children: Vec<CraftNode>,
    pub kind: CraftNodeKind,
}

/// How a node of a crafting plan obtains its items.
#[derive(Debug)]
pub enum CraftNodeKind {
    Recipe { recipe_id: String, crafts: u32, output_yield: u32, selected: bool },
    Storage { available: u32, selected: bool },
    Choice { options: Vec<CraftOption> },
    Any,
    Deferred,
}

/// One option of an unresolved choice, with a preview of the plan it leads to.
#[derive(Debug)]
pub enum CraftOption {
    Recipe { recipe_id: String, preview: CraftNode, available: bool },
    Storage { preview: CraftNode, available: bool },
    Any { preview: CraftNode },
}

/// Mathematical model of a [`CraftNode`].
pub struct NodeModel {
    pub key: Seq<char>,
    pub item_kind: Seq<char>,
    pub quantity: u32,
    pub children: Seq<NodeModel>,
    pub kind: NodeKindModel,
}

/// Mathematical model of a [`CraftNodeKind`].
pub enum NodeKindModel {
    Recipe { recipe_id: Seq<char>, crafts: u32, output_yield: u32, selected: bool },
    Storage { available: u32, selected: bool },
    Choice { options: Seq<OptionModel> },
    Any,
    Deferred,
}

/// Mathematical model of a [`CraftOption`].
pub enum OptionModel {
    Recipe { recipe_id: Seq<char>, preview: NodeModel, available: bool },
    Storage { preview: NodeModel, available: bool },
    Any { preview: NodeModel },
}

impl CraftNode {
    /// The model of this node and its subtree.
    pub open spec fn model(&self) -> NodeModel
        decreases self,
    {
        NodeModel {
            key: self.key@,
            item_kind: self.item_kind@,
            quantity: self.quantity,
            children: Seq::new(
                self.children@.len(),
                |i: int|
                    if 0 <= i < self.children@.len() {
                        self.children@[i].model()
                    } else {
                        arbitrary()
                    },
            ),
            kind: self.kind.model(),
        }
    }
}

impl CraftNodeKind {
    pub open spec fn model(&self) -> NodeKindModel
        decreases self,
    {
        match self {
            CraftNodeKind::Recipe { recipe_id, crafts, output_yield, selected } => NodeKindModel::Recipe {
                recipe_id: recipe_id@,
                crafts: *crafts,
                output_yield: *output_yield,
                selected: *selected,
            },
            CraftNodeKind::Storage { available, selected } => NodeKindModel::Storage {
                available: *available,
                selected: *selected,
            },
            CraftNodeKind::Choice { options } => NodeKindModel::Choice {
                options: Seq::new(
                    options@.len(),
                    |i: int|
                        if 0 <= i < options@.len() {
                            options@[i].model()
                        } else {
                            arbitrary()
                        },
                ),
            },
            CraftNodeKind::Any => NodeKindModel::Any,
            CraftNodeKind::Deferred => NodeKindModel::Deferred,
        }
    }
}

impl CraftOption {
    pub open spec fn model(&self) -> OptionModel
        decreases self,
    {
        match self {
            CraftOption::Recipe { recipe_id, preview, available } => OptionModel::Recipe {
                recipe_id: recipe_id@,
                preview: preview.model(),
                available: *available,
            },
            CraftOption::Storage { preview, available } => OptionModel::Storage {
                preview: preview.model(),
                available: *available,
            },
            CraftOption::Any { preview } => OptionModel::Any { preview: preview.model() },
        }
    }
}

/// Why a crafting plan could not be built or queued.
#[derive(Debug)]
pub enum CraftPlanError {
    AmountNotPositive,
    UnknownItemKind { item_kind: String },
    InvalidRecipeYield { recipe_id: u128 },
    RecipeWithoutIngredients { recipe_id: u128 },
    RecipeCycle { item_kind: String },
    InvalidRecipeId { text: String },
    RecipeDoesNotProduce { recipe_id: u128, item_kind: String },
    UnresolvedChoices,
    RecipeDisappeared { recipe_id: u128 },
    RecipeChanged { recipe_id: u128 },
}

/// Mathematical model of a [`CraftPlanError`].
pub enum PlanErrorModel {
    AmountNotPositive,
    UnknownItemKind { item_kind: Seq<char> },
    InvalidRecipeYield { recipe_id: u128 },
    RecipeWithoutIngredients { recipe_id: u128 },
    RecipeCycle { item_kind: Seq<char> },
    InvalidRecipeId { text: Seq<char> },
    RecipeDoesNotProduce { recipe_id: u128, item_kind: Seq<char> },
    UnresolvedChoices,
    RecipeDisappeared { recipe_id: u128 },
    RecipeChanged { recipe_id: u128 },
}

impl CraftPlanError {
    pub open spec fn model(&self) -> PlanErrorModel {
        match self {
            CraftPlanError::AmountNotPositive => PlanErrorModel::AmountNotPositive,
            CraftPlanError::UnknownItemKind { item_kind } => PlanErrorModel::UnknownItemKind { item_kind: item_kind@ },
            CraftPlanError::InvalidRecipeYield { recipe_id } => PlanErrorModel::InvalidRecipeYield { recipe_id: *recipe_id },
            CraftPlanError::RecipeWithoutIngredients { recipe_id } => PlanErrorModel::RecipeWithoutIngredients { recipe_id: *recipe_id },
            CraftPlanError::RecipeCycle { item_kind } => PlanErrorModel::RecipeCycle { item_kind: item_kind@ },
            CraftPlanError::InvalidRecipeId { text } => PlanErrorModel::InvalidRecipeId { text: text@ },
            CraftPlanError::RecipeDoesNotProduce { recipe_id, item_kind } => PlanErrorModel::RecipeDoesNotProduce {
                recipe_id: *recipe_id,
                item_kind: item_kind@,
            },
            CraftPlanError::UnresolvedChoices => PlanErrorModel::UnresolvedChoices,
            CraftPlanError::RecipeDisappeared { recipe_id } => PlanErrorModel::RecipeDisappeared { recipe_id: *recipe_id },
            CraftPlanError::RecipeChanged { recipe_id } => PlanErrorModel::RecipeChanged { recipe_id: *recipe_id },
        }
    }
}

/// The text of a planning error.
pub open spec fn plan_error_text(e: PlanErrorModel) -> Seq<char> {
    match e {
        PlanErrorModel::AmountNotPositive => "craft amount must be positive"@,
        PlanErrorModel::UnknownItemKind { item_kind } => "unknown item kind "@ + item_kind,
        PlanErrorModel::InvalidRecipeYield { recipe_id } => "recipe "@ + uuid_text(recipe_id) + " has an invalid yield"@,
        PlanErrorModel::RecipeWithoutIngredients { recipe_id } => "recipe "@ + uuid_text(recipe_id) + " has no ingredients"@,
        PlanErrorModel::RecipeCycle { item_kind } => "craft recipe cycle detected at "@ + item_kind,
        PlanErrorModel::InvalidRecipeId { text } => "invalid recipe id "@ + text,
        PlanErrorModel::RecipeDoesNotProduce { recipe_id, item_kind } =>
            "recipe "@ + uuid_text(recipe_id) + " does not produce "@ + item_kind,
        PlanErrorModel::UnresolvedChoices => "craft plan contains unresolved choices"@,
        PlanErrorModel::RecipeDisappeared { recipe_id } => "recipe "@ + uuid_text(recipe_id) + " disappeared before queueing"@,
        PlanErrorModel::RecipeChanged { recipe_id } => "recipe "@ + uuid_text(recipe_id) + " changed while queueing"@,
    }
}

/// `"recipe "`, the id's text, then `rest`.
fn recipe_text(recipe_id: u128, rest: &str) -> (text: String)
    ensures
        text@ == "recipe "@ + uuid_text(recipe_id) + rest@,
{
    let id = uuid_to_string(recipe_id);
    let head = concat("recipe ", id.as_str());
    let text = concat(head.as_str(), rest);
    assert(text@ == "recipe "@ + uuid_text(recipe_id) + rest@);
    text
}

impl CraftPlanError {
    /// The error's text, as users see it.
    pub fn message(&self) -> (text: String)
        ensures
            text@ == plan_error_text(self.model()),
    {
        match self {
            CraftPlanError::AmountNotPositive => "craft amount must be positive".to_owned(),
            CraftPlanError::UnknownItemKind { item_kind } => concat("unknown item kind ", item_kind.as_str()),
            CraftPlanError::InvalidRecipeYield { recipe_id } => recipe_text(*recipe_id, " has an invalid yield"),
            CraftPlanError::RecipeWithoutIngredients { recipe_id } => recipe_text(*recipe_id, " has no ingredients"),
            CraftPlanError::RecipeCycle { item_kind } => concat("craft recipe cycle detected at ", item_kind.as_str()),
            CraftPlanError::InvalidRecipeId { text } => concat("invalid recipe id ", text.as_str()),
            CraftPlanError::RecipeDoesNotProduce { recipe_id, item_kind } => {
                let head = recipe_text(*recipe_id, " does not produce ");
                concat(head.as_str(), item_kind.as_str())
            },
            CraftPlanError::UnresolvedChoices => "craft plan contains unresolved choices".to_owned(),
            CraftPlanError::RecipeDisappeared { recipe_id } => recipe_text(*recipe_id, " disappeared before queueing"),
            CraftPlanError::RecipeChanged { recipe_id } => recipe_text(*recipe_id, " changed while queueing"),
        }
    }
}

/// The model of a node result.
pub open spec fn node_result_model(r: Result<CraftNode, CraftPlanError>) -> Result<NodeModel, PlanErrorModel> {
    match r {
        Ok(node) => Ok(node.model()),
        Err(e) => Err(e.model()),
    }
}

/// The texts of a sequence of strings.
pub open spec fn texts(v: Seq<String>) -> Seq<Seq<char>> {
    v.map_values(|s: String| s@)
}

/// The selection recorded for `key`: the first entry with that key.
pub open spec fn selection_for(selections: Seq<(String, CraftSelection)>, key: Seq<char>) -> Option<CraftSelection> {
    selection_from(selections, key, 0)
}

pub open spec fn selection_from(selections: Seq<(String, CraftSelection)>, key: Seq<char>, i: int) -> Option<CraftSelection>
    decreases selections.len() - i,
{
    if i < 0 || i >= selections.len() {
        None
    } else if selections[i].0@ == key {
        Some(selections[i].1)
    } else {
        selection_from(selections, key, i + 1)
    }
}

/// The quantity of `item_kind` in storage: the first entry for it, or 0.
pub open spec fn available_of(available: Seq<(String, u32)>, item_kind: Seq<char>) -> u32 {
    available_from(available, item_kind, 0)
}

pub open spec fn available_from(available: Seq<(String, u32)>, item_kind: Seq<char>, i: int) -> u32
    decreases available.len() - i,
{
    if i < 0 || i >= available.len() {
        0
    } else if available[i].0@ == item_kind {
        available[i].1
    } else {
        available_from(available, item_kind, i + 1)
    }
}

/// Indices, in order, of the first `n` recipes that produce `item_kind`.
pub open spec fn recipe_indices(recipes: Seq<Recipe>, item_kind: Seq<char>, n: int) -> Seq<int>
    decreases n,
{
    if n <= 0 {
        Seq::empty()
    } else {
        let prev = recipe_indices(recipes, item_kind, n - 1);
        if recipes[n - 1].output_item_kind@ == item_kind {
            prev.push(n - 1)
        } else {
            prev
        }
    }
}

/// The recipes that produce `item_kind`, as indices in order.
pub open spec fn recipes_for(recipes: Seq<Recipe>, item_kind: Seq<char>) -> Seq<int> {
    recipe_indices(recipes, item_kind, recipes.len() as int)
}

/// The first of the recipes at `found[i..]` whose id is `id`.
pub open spec fn recipe_with_id(recipes: Seq<Recipe>, found: Seq<int>, id: u128, i: int) -> Option<int>
    decreases found.len() - i,
{
    if i < 0 || i >= found.len() {
        None
    } else if recipes[found[i]].id == id {
        Some(found[i])
    } else {
        recipe_with_id(recipes, found, id, i + 1)
    }
}

/// Number of the first `n` recipes whose output is not among `active`.
pub open spec fn unvisited(recipes: Seq<Recipe>, active: Seq<Seq<char>>, n: int) -> nat
    decreases n,
{
    if n <= 0 {
        0
    } else if active.contains(recipes[n - 1].output_item_kind@) {
        unvisited(recipes, active, n - 1)
    } else {
        unvisited(recipes, active, n - 1) + 1
    }
}

/// Every recipe yields at least one item per craft.
pub open spec fn yields_positive(recipes: Seq<Recipe>) -> bool {
    forall|i: int| 0 <= i < recipes.len() ==> #[trigger] recipes[i].output_yield > 0
}

/// `a.div_ceil(b)`.
pub open spec fn div_ceil(a: u32, b: u32) -> u32 {
    ((a + b - 1) / (b as int)) as u32
}

/// `a.saturating_mul(b)`.
pub open spec fn saturating_mul(a: u32, b: u32) -> u32 {
    if a * b <= u32::MAX {
        (a * b) as u32
    } else {
        u32::MAX
    }
}

/// Key of the `index`-th child below `parent`: `"{parent}.{index}"`.
pub open spec fn child_key(parent: Seq<char>, index: int) -> Seq<char> {
    parent + "."@ + decimal(index as nat)
}

/// Key of the option that picks recipe `id` at the node `key`: `"{key}#{id}"`.
pub open spec fn option_key(key: Seq<char>, id: u128) -> Seq<char> {
    key + "#"@ + uuid_text(id)
}

/// A storage node: the items come out of storage.
pub open spec fn storage_model(item_kind: Seq<char>, quantity: u32, key: Seq<char>, available: Seq<(String, u32)>, selected: bool) -> NodeModel {
    NodeModel {
        key,
        item_kind,
        quantity,
        children: Seq::empty(),
        kind: NodeKindModel::Storage { available: available_of(available, item_kind), selected },
    }
}

/// A node without children of a given kind.
pub open spec fn leaf_model(item_kind: Seq<char>, quantity: u32, key: Seq<char>, kind: NodeKindModel) -> NodeModel {
    NodeModel { key, item_kind, quantity, children: Seq::empty(), kind }
}

/// Storage holds every ingredient that `quantity` items made by `recipe` need.
pub open spec fn recipe_is_available(recipe: Recipe, quantity: u32, available: Seq<(String, u32)>) -> bool {
    forall|i: int| 0 <= i < recipe.ingredients@.len() ==>
        available_of(available, #[trigger] recipe.ingredients@[i].item_kind@)
            >= saturating_mul(recipe.ingredients@[i].quantity, div_ceil(quantity, recipe.output_yield))
}

pub proof fn lemma_unvisited_push(recipes: Seq<Recipe>, active: Seq<Seq<char>>, item_kind: Seq<char>, n: int)
    requires
        !active.contains(item_kind),
        n <= recipes.len(),
    ensures
        unvisited(recipes, active.push(item_kind), n) <= unvisited(recipes, active, n),
        (exists|j: int| 0 <= j < n && #[trigger] recipes[j].output_item_kind@ == item_kind)
            ==> unvisited(recipes, active.push(item_kind), n) < unvisited(recipes, active, n),
    decreases n,
{
    if n > 0 {
        lemma_unvisited_push(recipes, active, item_kind, n - 1);
        let out = recipes[n - 1].output_item_kind@;
        assert(active.push(item_kind).contains(out) <==> (active.contains(out) || out == item_kind)) by {
            if active.push(item_kind).contains(out) {
                let w = choose|w: int| 0 <= w < active.push(item_kind).len() && active.push(item_kind)[w] == out;
                if w < active.len() {
                    assert(active[w] == out);
                }
            }
            if active.contains(out) {
                let w = choose|w: int| 0 <= w < active.len() && active[w] == out;
                assert(active.push(item_kind)[w] == out);
            }
            if out == item_kind {
                assert(active.push(item_kind)[active.len() as int] == out);
            }
        }
        if exists|j: int| 0 <= j < n && #[trigger] recipes[j].output_item_kind@ == item_kind {
            let j = choose|j: int| 0 <= j < n && #[trigger] recipes[j].output_item_kind@ == item_kind;
            if j < n - 1 {
                assert(exists|j: int| 0 <= j < n - 1 && #[trigger] recipes[j].output_item_kind@ == item_kind);
            }
        }
    }
}

pub proof fn lemma_recipe_indices(recipes: Seq<Recipe>, item_kind: Seq<char>, n: int)
    requires
        n <= recipes.len(),
    ensures
        forall|k: int| 0 <= k < recipe_indices(recipes, item_kind, n).len() ==> {
            &&& 0 <= #[trigger] recipe_indices(recipes, item_kind, n)[k] < n
            &&& recipes[recipe_indices(recipes, item_kind, n)[k]].output_item_kind@ == item_kind
        },
    decreases n,
{
    if n > 0 {
        lemma_recipe_indices(recipes, item_kind, n - 1);
        let prev = recipe_indices(recipes, item_kind, n - 1);
        let cur = recipe_indices(recipes, item_kind, n);
        assert forall|k: int| 0 <= k < cur.len() implies {
            &&& 0 <= #[trigger] cur[k] < n
            &&& recipes[cur[k]].output_item_kind@ == item_kind
        } by {
            if k < prev.len() {
                assert(cur[k] == prev[k]);
            }
        }
    }
}

/// Shows that building below `item_kind`, which has a recipe, visits fewer recipes.
pub proof fn lemma_descend(recipes: Seq<Recipe>, active: Seq<Seq<char>>, item_kind: Seq<char>)
    requires
        !active.contains(item_kind),
        recipes_for(recipes, item_kind).len() > 0,
    ensures
        unvisited(recipes, active.push(item_kind), recipes.len() as int)
            < unvisited(recipes, active, recipes.len() as int),
{
    lemma_recipe_indices(recipes, item_kind, recipes.len() as int);
    let j = recipes_for(recipes, item_kind)[0];
    assert(recipes[j].output_item_kind@ == item_kind);
    lemma_unvisited_push(recipes, active, item_kind, recipes.len() as int);
}

/// The plan for `quantity` items of `item_kind` at node `key`, built while the
/// item kinds in `active` are being expanded above it.
pub open spec fn spec_build_node(
    item_kind: Seq<char>,
    quantity: u32,
    key: Seq<char>,
    selections: Seq<(String, CraftSelection)>,
    recipes: Seq<Recipe>,
    available: Seq<(String, u32)>,
    active: Seq<Seq<char>>,
    preview: bool,
) -> Result<NodeModel, PlanErrorModel>
    decreases unvisited(recipes, active, recipes.len() as int), 0nat, 0nat,
{
    if active.contains(item_kind) {
        Err(PlanErrorModel::RecipeCycle { item_kind })
    } else {
        let inner = active.push(item_kind);
        let found = recipes_for(recipes, item_kind);
        let selection = selection_for(selections, key);
        if selection matches Some(CraftSelection::Storage) {
            Ok(storage_model(item_kind, quantity, key, available, true))
        } else if selection matches Some(CraftSelection::Any) {
            Ok(leaf_model(item_kind, quantity, key, NodeKindModel::Any))
        } else if found.len() > 1 && selection is None {
            if preview {
                Ok(leaf_model(item_kind, quantity, key, NodeKindModel::Deferred))
            } else {
                proof {
                    lemma_descend(recipes, active, item_kind);
                }
                match spec_options(item_kind, quantity, key, selections, recipes, available, inner, found, 0) {
                    Ok(options) => Ok(leaf_model(item_kind, quantity, key, NodeKindModel::Choice {
                        options: options + seq![
                            OptionModel::Any { preview: leaf_model(item_kind, quantity, key + "#any"@, NodeKindModel::Any) },
                            OptionModel::Storage {
                                preview: storage_model(item_kind, quantity, key + "#storage"@, available, false),
                                available: available_of(available, item_kind) >= quantity,
                            },
                        ],
                    })),
                    Err(e) => Err(e),
                }
            }
        } else if found.len() == 0 {
            Ok(storage_model(item_kind, quantity, key, available, false))
        } else {
            proof {
                lemma_descend(recipes, active, item_kind);
            }
            match selection {
                Some(CraftSelection::Recipe { recipe_id }) => match uuid_parse(recipe_id@) {
                    None => Err(PlanErrorModel::InvalidRecipeId { text: recipe_id@ }),
                    Some(id) => match recipe_with_id(recipes, found, id, 0) {
                        None => Err(PlanErrorModel::RecipeDoesNotProduce { recipe_id: id, item_kind }),
                        Some(r) => spec_recipe_node(item_kind, quantity, key, key, r, selections, recipes, available, inner, preview),
                    },
                },
                _ => spec_recipe_node(item_kind, quantity, key, key, found[0], selections, recipes, available, inner, preview),
            }
        }
    }
}

/// The recipe options of a choice between the recipes at `found[i..]`.
pub open spec fn spec_options(
    item_kind: Seq<char>,
    quantity: u32,
    key: Seq<char>,
    selections: Seq<(String, CraftSelection)>,
    recipes: Seq<Recipe>,
    available: Seq<(String, u32)>,
    active: Seq<Seq<char>>,
    found: Seq<int>,
    i: int,
) -> Result<Seq<OptionModel>, PlanErrorModel>
    decreases unvisited(recipes, active, recipes.len() as int), 3nat, found.len() - i,
{
    if i < 0 || i >= found.len() {
        Ok(Seq::empty())
    } else {
        let recipe = recipes[found[i]];
        match spec_recipe_node(item_kind, quantity, key, option_key(key, recipe.id), found[i], selections, recipes, available, active, true) {
            Err(e) => Err(e),
            Ok(preview) => match spec_options(item_kind, quantity, key, selections, recipes, available, active, found, i + 1) {
                Err(e) => Err(e),
                Ok(rest) => Ok(seq![OptionModel::Recipe {
                    recipe_id: uuid_text(recipe.id),
                    preview,
                    available: recipe_is_available(recipe, quantity, available),
                }] + rest),
            },
        }
    }
}

/// The plan that makes `quantity` items of `item_kind` with the recipe at index `r`.
pub open spec fn spec_recipe_node(
    item_kind: Seq<char>,
    quantity: u32,
    node_key: Seq<char>,
    children_key: Seq<char>,
    r: int,
    selections: Seq<(String, CraftSelection)>,
    recipes: Seq<Recipe>,
    available: Seq<(String, u32)>,
    active: Seq<Seq<char>>,
    preview: bool,
) -> Result<NodeModel, PlanErrorModel>
    decreases unvisited(recipes, active, recipes.len() as int), 2nat, 0nat,
{
    let recipe = recipes[r];
    let crafts = div_ceil(quantity, recipe.output_yield);
    match spec_children(recipe.ingredients@, crafts, children_key, selections, recipes, available, active, preview, 0) {
        Err(e) => Err(e),
        Ok(children) => Ok(NodeModel {
            key: node_key,
            item_kind,
            quantity,
            children,
            kind: NodeKindModel::Recipe {
                recipe_id: uuid_text(recipe.id),
                crafts,
                output_yield: recipe.output_yield,
                selected: selection_for(selections, node_key) is Some,
            },
        }),
    }
}

/// The plans of the ingredients at `ingredients[i..]` for `crafts` crafts.
pub open spec fn spec_children(
    ingredients: Seq<CraftIngredient>,
    crafts: u32,
    children_key: Seq<char>,
    selections: Seq<(String, CraftSelection)>,
    recipes: Seq<Recipe>,
    available: Seq<(String, u32)>,
    active: Seq<Seq<char>>,
    preview: bool,
    i: int,
) -> Result<Seq<NodeModel>, PlanErrorModel>
    decreases unvisited(recipes, active, recipes.len() as int), 1nat, ingredients.len() - i,
{
    if i < 0 || i >= ingredients.len() {
        Ok(Seq::empty())
    } else {
        match spec_build_node(
            ingredients[i].item_kind@,
            saturating_mul(ingredients[i].quantity, crafts),
            child_key(children_key, i),
            selections,
            recipes,
            available,
            active,
            preview,
        ) {
            Err(e) => Err(e),
            Ok(node) => match spec_children(ingredients, crafts, children_key, selections, recipes, available, active, preview, i + 1) {
                Err(e) => Err(e),
                Ok(rest) => Ok(seq![node] + rest),
            },
        }
    }
}

/// `done` followed by the items of `rest`, or the error of `rest`.
pub open spec fn prepend<T, E>(done: Seq<T>, rest: Result<Seq<T>, E>) -> Result<Seq<T>, E> {
    match rest {
        Ok(items) => Ok(done + items),
        Err(e) => Err(e),
    }
}

pub proof fn lemma_prepend_step<T, E>(done: Seq<T>, item: T, rest: Result<Seq<T>, E>)
    ensures
        prepend(done, prepend(seq![item], rest)) == prepend(done.push(item), rest),
{
    match rest {
        Ok(items) => {
            assert(done + (seq![item] + items) =~= done.push(item) + items);
        },
        Err(_) => {},
    }
}

/// Models of a sequence of nodes.
pub open spec fn node_models(nodes: Seq<CraftNode>) -> Seq<NodeModel> {
    Seq::new(nodes.len(), |i: int| nodes[i].model())
}

/// Models of a sequence of options.
pub open spec fn option_models(options: Seq<CraftOption>) -> Seq<OptionModel> {
    Seq::new(options.len(), |i: int| options[i].model())
}

/// Indices as integers.
pub open spec fn as_ints(v: Seq<usize>) -> Seq<int> {
    v.map_values(|x: usize| x as int)
}

fn contains_text(names: &Vec<String>, name: &String) -> (found: bool)
    ensures
        found == texts(names@).contains(name@),
{
    let mut i: usize = 0;
    while i < names.len()
        invariant
            i <= names.len(),
            forall|j: int| 0 <= j < i ==> texts(names@)[j] != name@,
        decreases names.len() - i,
    {
        if names[i] == *name {
            assert(texts(names@)[i as int] == name@);
            return true;
        }
        i = i + 1;
    }
    proof {
        if texts(names@).contains(name@) {
            let w = choose|w: int| 0 <= w < texts(names@).len() && texts(names@)[w] == name@;
            assert(texts(names@)[w] != name@);
        }
    }
    false
}

/// The selection recorded for `key`, if any.
pub fn find_selection<'a>(selections: &'a [(String, CraftSelection)], key: &String) -> (selection: Option<&'a CraftSelection>)
    ensures
        match selection {
            Some(s) => selection_for(selections@, key@) == Some(*s),
            None => selection_for(selections@, key@) is None,
        },
{
    let mut i: usize = 0;
    while i < selections.len()
        invariant
            i <= selections.len(),
            selection_from(selections@, key@, 0) == selection_from(selections@, key@, i as int),
        decreases selections.len() - i,
    {
        if selections[i].0 == *key {
            return Some(&selections[i].1);
        }
        i = i + 1;
    }
    None
}

/// The quantity of `item_kind` in storage.
pub fn available_quantity(available: &[(String, u32)], item_kind: &String) -> (quantity: u32)
    ensures
        quantity == available_of(available@, item_kind@),
{
    let mut i: usize = 0;
    while i < available.len()
        invariant
            i <= available.len(),
            available_from(available@, item_kind@, 0) == available_from(available@, item_kind@, i as int),
        decreases available.len() - i,
    {
        if available[i].0 == *item_kind {
            return available[i].1;
        }
        i = i + 1;
    }
    0
}

/// Indices of the recipes that produce `item_kind`, in order.
pub fn find_recipes(recipes: &[Recipe], item_kind: &String) -> (found: Vec<usize>)
    ensures
        as_ints(found@) == recipes_for(recipes@, item_kind@),
        forall|k: int| 0 <= k < found@.len() ==> #[trigger] found@[k] < recipes@.len(),
{
    let mut found: Vec<usize> = Vec::new();
    let mut i: usize = 0;
    while i < recipes.len()
        invariant
            i <= recipes.len(),
            as_ints(found@) == recipe_indices(recipes@, item_kind@, i as int),
            forall|k: int| 0 <= k < found@.len() ==> #[trigger] found@[k] < i,
        decreases recipes.len() - i,
    {
        if recipes[i].output_item_kind == *item_kind {
            found.push(i);
            assert(as_ints(found@) =~= recipe_indices(recipes@, item_kind@, i as int).push(i as int));
        }
        i = i + 1;
    }
    found
}

/// The first recipe among `found` whose id is `id`.
fn find_recipe_with_id(recipes: &[Recipe], found: &Vec<usize>, id: u128) -> (r: Option<usize>)
    requires
        forall|k: int| 0 <= k < found@.len() ==> #[trigger] found@[k] < recipes@.len(),
    ensures
        match r {
            Some(j) => recipe_with_id(recipes@, as_ints(found@), id, 0) == Some(j as int) && j < recipes@.len(),
            None => recipe_with_id(recipes@, as_ints(found@), id, 0) is None,
        },
{
    let mut i: usize = 0;
    while i < found.len()
        invariant
            i <= found.len(),
            forall|k: int| 0 <= k < found@.len() ==> #[trigger] found@[k] < recipes@.len(),
            recipe_with_id(recipes@, as_ints(found@), id, 0) == recipe_with_id(recipes@, as_ints(found@), id, i as int),
        decreases found.len() - i,
    {
        let j = found[i];
        if recipes[j].id == id {
            return Some(j);
        }
        i = i + 1;
    }
    None
}

/// `a.saturating_mul(b)`.
pub fn saturating_mul_u32(a: u32, b: u32) -> (product: u32)
    ensures
        product == saturating_mul(a, b),
{
    assert((a as u64) * (b as u64) <= u64::MAX) by (nonlinear_arith)
        requires
            a <= u32::MAX,
            b <= u32::MAX,
    {}
    let wide = (a as u64) * (b as u64);
    if wide <= u32::MAX as u64 {
        wide as u32
    } else {
        u32::MAX
    }
}

/// `a.div_ceil(b)` for a positive `b`.
pub fn div_ceil_u32(a: u32, b: u32) -> (quotient: u32)
    requires
        b > 0,
    ensures
        quotient == div_ceil(a, b),
{
    let q = a / b;
    assert(a % b != 0 ==> q < u32::MAX) by (nonlinear_arith)
        requires
            b > 0,
            q == a / b,
            a <= u32::MAX,
    {}
    let quotient = if a % b != 0 { q + 1 } else { q };
    assert(quotient == div_ceil(a, b)) by (nonlinear_arith)
        requires
            b > 0,
            q == a / b,
            quotient == (if a % b != 0 { q + 1 } else { q as int }),
    {}
    quotient
}

/// `text` followed by `suffix`.
fn suffixed(text: &String, suffix: &str) -> (result: String)
    ensures
        result@ == text@ + suffix@,
{
    let mut result = text.clone();
    result.append(suffix);
    result
}

/// The key of the `index`-th child below `parent`.
pub fn make_child_key(parent: &String, index: usize) -> (key: String)
    ensures
        key@ == child_key(parent@, index as int),
{
    let mut key = parent.clone();
    key.append(".");
    let digits = decimal_string(index);
    key.append(digits.as_str());
    key
}

/// The key of the option that picks recipe `id` at node `key`.
pub fn make_option_key(key: &String, id: u128) -> (option: String)
    ensures
        option@ == option_key(key@, id),
{
    let mut option = key.clone();
    option.append("#");
    let text = uuid_to_string(id);
    option.append(text.as_str());
    option
}

/// A storage node for `quantity` items of `item_kind`.
pub fn storage_node(item_kind: &String, quantity: u32, key: &String, available: &[(String, u32)], selected: bool) -> (node: CraftNode)
    ensures
        node.model() == storage_model(item_kind@, quantity, key@, available@, selected),
{
    let node = CraftNode {
        key: key.clone(),
        item_kind: item_kind.clone(),
        quantity,
        children: Vec::new(),
        kind: CraftNodeKind::Storage { available: available_quantity(available, item_kind), selected },
    };
    assert(node.model().children =~= Seq::<NodeModel>::empty());
    assert(node.kind.model() == storage_model(item_kind@, quantity, key@, available@, selected).kind);
    node
}

fn leaf_node(item_kind: &String, quantity: u32, key: &String, kind: CraftNodeKind) -> (node: CraftNode)
    ensures
        node.model() == leaf_model(item_kind@, quantity, key@, kind.model()),
{
    let node = CraftNode { key: key.clone(), item_kind: item_kind.clone(), quantity, children: Vec::new(), kind };
    assert(node.model().children =~= Seq::<NodeModel>::empty());
    node
}

/// Whether storage holds the ingredients for `quantity` items made by `recipe`.
pub fn recipe_available(recipe: &Recipe, quantity: u32, available: &[(String, u32)]) -> (ok: bool)
    requires
        recipe.output_yield > 0,
    ensures
        ok == recipe_is_available(*recipe, quantity, available@),
{
    let crafts = div_ceil_u32(quantity, recipe.output_yield);
    let mut i: usize = 0;
    while i < recipe.ingredients.len()
        invariant
            i <= recipe.ingredients@.len(),
            crafts == div_ceil(quantity, recipe.output_yield),
            forall|j: int| 0 <= j < i ==>
                available_of(available@, #[trigger] recipe.ingredients@[j].item_kind@)
                    >= saturating_mul(recipe.ingredients@[j].quantity, crafts),
        decreases recipe.ingredients.len() - i,
    {
        let ingredient = &recipe.ingredients[i];
        if available_quantity(available, &ingredient.item_kind) < saturating_mul_u32(ingredient.quantity, crafts) {
            return false;
        }
        i = i + 1;
    }
    true
}

/// Builds the plan for `quantity` items of `item_kind` at node `key`.
///
/// `active` holds the item kinds being expanded above this node; reaching one
/// of them again is a recipe cycle. Storage and "any" selections end the
/// expansion; several recipes without a selection give a choice (or, in a
/// preview, a deferred node); a kind without recipes comes from storage.
pub fn build_node(
    item_kind: &String,
    quantity: u32,
    key: &String,
    selections: &[(String, CraftSelection)],
    recipes: &[Recipe],
    available: &[(String, u32)],
    active: &mut Vec<String>,
    preview: bool,
) -> (result: Result<CraftNode, CraftPlanError>)
    requires
        yields_positive(recipes@),
    ensures
        final(active)@ == old(active)@,
        node_result_model(result) == spec_build_node(
            item_kind@, quantity, key@, selections@, recipes@, available@, texts(old(active)@), preview),
    decreases unvisited(recipes@, texts(active@), recipes@.len() as int), 0nat,
{
    if contains_text(active, item_kind) {
        return Err(CraftPlanError::RecipeCycle { item_kind: item_kind.clone() });
    }
    let ghost outer = active@;
    active.push(item_kind.clone());
    assert(texts(active@) =~= texts(outer).push(item_kind@));
    let found = find_recipes(recipes, item_kind);
    let selection = find_selection(selections, key);
    let result = match selection {
        Some(CraftSelection::Storage) => Ok(storage_node(item_kind, quantity, key, available, true)),
        Some(CraftSelection::Any) => Ok(leaf_node(item_kind, quantity, key, CraftNodeKind::Any)),
        _ => {
            if found.len() > 1 && selection.is_none() {
                if preview {
                    Ok(leaf_node(item_kind, quantity, key, CraftNodeKind::Deferred))
                } else {
                    proof {
                        lemma_descend(recipes@, texts(outer), item_kind@);
                    }
                    match build_options(item_kind, quantity, key, selections, recipes, available, active, &found) {
                        Err(e) => Err(e),
                        Ok(options) => {
                            let mut options = options;
                            let ghost built = options@;
                            let any_key = suffixed(key, "#any");
                            let any_preview = leaf_node(item_kind, quantity, &any_key, CraftNodeKind::Any);
                            let any_option = CraftOption::Any { preview: any_preview };
                            assert(any_option.model() == OptionModel::Any {
                                preview: leaf_model(item_kind@, quantity, key@ + "#any"@, NodeKindModel::Any),
                            });
                            options.push(any_option);
                            let storage_key = suffixed(key, "#storage");
                            let in_storage = available_quantity(available, item_kind);
                            let storage_preview = storage_node(item_kind, quantity, &storage_key, available, false);
                            let storage_option = CraftOption::Storage { preview: storage_preview, available: in_storage >= quantity };
                            assert(storage_option.model() == OptionModel::Storage {
                                preview: storage_model(item_kind@, quantity, key@ + "#storage"@, available@, false),
                                available: available_of(available@, item_kind@) >= quantity,
                            });
                            options.push(storage_option);
                            let ghost opts = options@;
                            assert(option_models(opts) =~= option_models(built) + seq![opts[opts.len() - 2].model(), opts[opts.len() - 1].model()]);
                            let kind = CraftNodeKind::Choice { options };
                            assert(kind.model() == NodeKindModel::Choice { options: option_models(opts) }) by {
                                assert(kind.model()->Choice_options =~= option_models(opts));
                            }
                            Ok(leaf_node(item_kind, quantity, key, kind))
                        },
                    }
                }
            } else if found.len() == 0 {
                Ok(storage_node(item_kind, quantity, key, available, false))
            } else {
                proof {
                    lemma_descend(recipes@, texts(outer), item_kind@);
                }
                match selection {
                    Some(CraftSelection::Recipe { recipe_id }) => match parse_uuid(recipe_id.as_str()) {
                        None => Err(CraftPlanError::InvalidRecipeId { text: recipe_id.clone() }),
                        Some(id) => match find_recipe_with_id(recipes, &found, id) {
                            None => Err(CraftPlanError::RecipeDoesNotProduce { recipe_id: id, item_kind: item_kind.clone() }),
                            Some(r) => build_recipe_node(item_kind, quantity, key, key, r, selections, recipes, available, active, preview),
                        },
                    },
                    _ => build_recipe_node(item_kind, quantity, key, key, found[0], selections, recipes, available, active, preview),
                }
            }
        },
    };
    active.pop();
    assert(active@ =~= outer);
    result
}

/// Builds the recipe options of a choice between the recipes at `found`.
fn build_options(
    item_kind: &String,
    quantity: u32,
    key: &String,
    selections: &[(String, CraftSelection)],
    recipes: &[Recipe],
    available: &[(String, u32)],
    active: &mut Vec<String>,
    found: &Vec<usize>,
) -> (result: Result<Vec<CraftOption>, CraftPlanError>)
    requires
        yields_positive(recipes@),
        forall|k: int| 0 <= k < found@.len() ==> #[trigger] found@[k] < recipes@.len(),
    ensures
        final(active)@ == old(active)@,
        match result {
            Ok(options) => spec_options(item_kind@, quantity, key@, selections@, recipes@, available@,
                texts(old(active)@), as_ints(found@), 0) == Ok::<Seq<OptionModel>, PlanErrorModel>(option_models(options@)),
            Err(e) => spec_options(item_kind@, quantity, key@, selections@, recipes@, available@,
                texts(old(active)@), as_ints(found@), 0) == Err::<Seq<OptionModel>, PlanErrorModel>(e.model()),
        },
    decreases unvisited(recipes@, texts(active@), recipes@.len() as int), 2nat,
{
    let ghost a0 = active@;
    let mut options: Vec<CraftOption> = Vec::new();
    let mut i: usize = 0;
    while i < found.len()
        invariant
            yields_positive(recipes@),
            forall|k: int| 0 <= k < found@.len() ==> #[trigger] found@[k] < recipes@.len(),
            active@ == a0,
            old(active)@ == a0,
            i <= found@.len(),
            spec_options(item_kind@, quantity, key@, selections@, recipes@, available@, texts(a0), as_ints(found@), 0)
                == prepend(option_models(options@), spec_options(item_kind@, quantity, key@, selections@, recipes@,
                    available@, texts(a0), as_ints(found@), i as int)),
        decreases found.len() - i,
    {
        let r = found[i];
        let recipe = &recipes[r];
        let option_key_text = make_option_key(key, recipe.id);
        match build_recipe_node(item_kind, quantity, key, &option_key_text, r, selections, recipes, available, active, true) {
            Err(e) => {
                return Err(e);
            },
            Ok(preview) => {
                let ok = recipe_available(recipe, quantity, available);
                let recipe_id = uuid_to_string(recipe.id);
                let ghost before = options@;
                let option = CraftOption::Recipe { recipe_id, preview, available: ok };
                let ghost om = option.model();
                options.push(option);
                assert(option_models(options@) =~= option_models(before).push(om));
                proof {
                    lemma_prepend_step(option_models(before), om, spec_options(item_kind@, quantity, key@, selections@,
                        recipes@, available@, texts(a0), as_ints(found@), i + 1));
                }
            },
        }
        i = i + 1;
    }
    assert(option_models(options@) + Seq::<OptionModel>::empty() =~= option_models(options@));
    Ok(options)
}

/// Builds the plan that makes `quantity` items of `item_kind` with recipe `r`;
/// the node has key `node_key` and its children are keyed below `children_key`.
pub fn build_recipe_node(
    item_kind: &String,
    quantity: u32,
    node_key: &String,
    children_key: &String,
    r: usize,
    selections: &[(String, CraftSelection)],
    recipes: &[Recipe],
    available: &[(String, u32)],
    active: &mut Vec<String>,
    preview: bool,
) -> (result: Result<CraftNode, CraftPlanError>)
    requires
        yields_positive(recipes@),
        r < recipes@.len(),
    ensures
        final(active)@ == old(active)@,
        node_result_model(result) == spec_recipe_node(item_kind@, quantity, node_key@, children_key@, r as int,
            selections@, recipes@, available@, texts(old(active)@), preview),
    decreases unvisited(recipes@, texts(active@), recipes@.len() as int), 1nat,
{
    let ghost a0 = active@;
    let recipe = &recipes[r];
    let crafts = div_ceil_u32(quantity, recipe.output_yield);
    let mut children: Vec<CraftNode> = Vec::new();
    let mut i: usize = 0;
    while i < recipe.ingredients.len()
        invariant
            yields_positive(recipes@),
            r < recipes@.len(),
            recipe == recipes@[r as int],
            crafts == div_ceil(quantity, recipe.output_yield),
            active@ == a0,
            old(active)@ == a0,
            i <= recipe.ingredients@.len(),
            spec_children(recipe.ingredients@, crafts, children_key@, selections@, recipes@, available@, texts(a0), preview, 0)
                == prepend(node_models(children@), spec_children(recipe.ingredients@, crafts, children_key@,
                    selections@, recipes@, available@, texts(a0), preview, i as int)),
        decreases recipe.ingredients.len() - i,
    {
        let ingredient = &recipe.ingredients[i];
        let key = make_child_key(children_key, i);
        let needed = saturating_mul_u32(ingredient.quantity, crafts);
        match build_node(&ingredient.item_kind, needed, &key, selections, recipes, available, active, preview) {
            Err(e) => {
                return Err(e);
            },
            Ok(node) => {
                let ghost before = children@;
                let ghost nm = node.model();
                children.push(node);
                assert(node_models(children@) =~= node_models(before).push(nm));
                proof {
                    lemma_prepend_step(node_models(before), nm, spec_children(recipe.ingredients@, crafts, children_key@,
                        selections@, recipes@, available@, texts(a0), preview, i + 1));
                }
            },
        }
        i = i + 1;
    }
    let selected = find_selection(selections, node_key).is_some();
    let recipe_id = uuid_to_string(recipe.id);
    let ghost kids = children@;
    let node = CraftNode {
        key: node_key.clone(),
        item_kind: item_kind.clone(),
        quantity,
        children,
        kind: CraftNodeKind::Recipe { recipe_id, crafts, output_yield: recipe.output_yield, selected },
    };
    assert(node.model().children =~= node_models(kids));
    assert(node.kind.model() == NodeKindModel::Recipe {
        recipe_id: uuid_text(recipe.id),
        crafts,
        output_yield: recipe.output_yield,
        selected: selection_for(selections@, node_key@) is Some,
    });
    assert(node_models(kids) + Seq::<NodeModel>::empty() =~= node_models(kids));
    Ok(node)
}

/// Whether a plan still holds a choice: a choice node at the root or below it.
pub open spec fn has_choice(node: NodeModel) -> bool
    decreases node, 0nat,
{
    node.kind is Choice || children_have_choice(node.children, 0)
}

/// Whether one of `children[i..]` holds a choice.
pub open spec fn children_have_choice(children: Seq<NodeModel>, i: int) -> bool
    decreases children, children.len() - i,
{
    if 0 <= i < children.len() {
        has_choice(children[i]) || children_have_choice(children, i + 1)
    } else {
        false
    }
}

pub proof fn lemma_kind_model(kind: &CraftNodeKind)
    ensures
        (kind.model() is Choice) == (kind is Choice),
        (kind.model() is Storage) == (kind is Storage),
        (kind.model() is Any) == (kind is Any),
        (kind.model() is Recipe) == (kind is Recipe),
        (kind.model() is Deferred) == (kind is Deferred),
{
}

/// Whether the plan rooted at `node` still holds an unresolved choice.
pub fn contains_choice(node: &CraftNode) -> (found: bool)
    ensures
        found == has_choice(node.model()),
    decreases node,
{
    let ghost m = node.model();
    assert(m.children =~= node_models(node.children@));
    proof {
        lemma_kind_model(&node.kind);
    }
    if matches!(node.kind, CraftNodeKind::Choice { .. }) {
        assert(m.kind is Choice);
        return true;
    }
    assert(!(m.kind is Choice));
    let mut i: usize = 0;
    while i < node.children.len()
        invariant
            i <= node.children@.len(),
            m == node.model(),
            m.children =~= node_models(node.children@),
            !(m.kind is Choice),
            children_have_choice(m.children, 0) == children_have_choice(m.children, i as int),
        decreases node.children.len() - i,
    {
        assert(decreases_to!(node => node.children@[i as int]));
        if contains_choice(&node.children[i]) {
            return true;
        }
        i = i + 1;
    }
    false
}

/// The raw material contributions of a plan, in pre-order: every storage and
/// "any" node asks for its quantity of its item kind.
pub open spec fn raw_entries(node: NodeModel) -> Seq<(Seq<char>, u32)>
    decreases node, 0nat,
{
    let own = if node.kind is Storage || node.kind is Any {
        seq![(node.item_kind, node.quantity)]
    } else {
        Seq::empty()
    };
    own + children_raw_entries(node.children, 0)
}

/// The raw material contributions of `children[i..]`.
pub open spec fn children_raw_entries(children: Seq<NodeModel>, i: int) -> Seq<(Seq<char>, u32)>
    decreases children, children.len() - i,
{
    if 0 <= i < children.len() {
        raw_entries(children[i]) + children_raw_entries(children, i + 1)
    } else {
        Seq::empty()
    }
}

/// Totals per item kind: the first entry for a kind holds its total.
pub open spec fn raw_model(raw: Seq<(String, u32)>) -> Seq<(Seq<char>, int)> {
    raw.map_values(|e: (String, u32)| (e.0@, e.1 as int))
}

/// Index of the first entry for `item_kind` in `raw[i..]`, if any.
pub open spec fn entry_index(raw: Seq<(Seq<char>, int)>, item_kind: Seq<char>, i: int) -> Option<int>
    decreases raw.len() - i,
{
    if i < 0 || i >= raw.len() {
        None
    } else if raw[i].0 == item_kind {
        Some(i)
    } else {
        entry_index(raw, item_kind, i + 1)
    }
}

/// Adds `quantity` to the entry for `item_kind`, or appends an entry for it.
pub open spec fn add_entry(raw: Seq<(Seq<char>, int)>, item_kind: Seq<char>, quantity: int) -> Seq<(Seq<char>, int)> {
    match entry_index(raw, item_kind, 0) {
        Some(j) => raw.update(j, (item_kind, raw[j].1 + quantity)),
        None => raw.push((item_kind, quantity)),
    }
}

/// Adds every contribution of `entries`, in order.
pub open spec fn accumulate(raw: Seq<(Seq<char>, int)>, entries: Seq<(Seq<char>, u32)>) -> Seq<(Seq<char>, int)>
    decreases entries.len(),
{
    if entries.len() == 0 {
        raw
    } else {
        accumulate(add_entry(raw, entries[0].0, entries[0].1 as int), entries.subrange(1, entries.len() as int))
    }
}

/// Every total that accumulating `entries` into `raw` gives fits in a `u32`.
pub open spec fn totals_fit(raw: Seq<(Seq<char>, int)>, entries: Seq<(Seq<char>, u32)>) -> bool {
    forall|k: int| 0 <= k < accumulate(raw, entries).len() ==> #[trigger] accumulate(raw, entries)[k].1 <= u32::MAX
}

pub proof fn lemma_entry_index(raw: Seq<(Seq<char>, int)>, item_kind: Seq<char>, i: int)
    requires
        0 <= i,
    ensures
        match entry_index(raw, item_kind, i) {
            Some(j) => i <= j < raw.len() && raw[j].0 == item_kind,
            None => forall|k: int| i <= k < raw.len() ==> raw[k].0 != item_kind,
        },
    decreases raw.len() - i,
{
    if i < raw.len() {
        lemma_entry_index(raw, item_kind, i + 1);
    }
}

/// Accumulating never lowers a total nor drops an entry.
pub proof fn lemma_accumulate_grows(raw: Seq<(Seq<char>, int)>, entries: Seq<(Seq<char>, u32)>)
    requires
        forall|k: int| 0 <= k < raw.len() ==> #[trigger] raw[k].1 >= 0,
    ensures
        accumulate(raw, entries).len() >= raw.len(),
        forall|k: int| #![trigger accumulate(raw, entries)[k]] 0 <= k < raw.len() ==> accumulate(raw, entries)[k].0 == raw[k].0
            && accumulate(raw, entries)[k].1 >= raw[k].1,
    decreases entries.len(),
{
    if entries.len() > 0 {
        let next = add_entry(raw, entries[0].0, entries[0].1 as int);
        lemma_entry_index(raw, entries[0].0, 0);
        assert(forall|k: int| 0 <= k < raw.len() ==> #[trigger] next[k].0 == raw[k].0 && next[k].1 >= raw[k].1);
        lemma_accumulate_grows(next, entries.subrange(1, entries.len() as int));
    }
}

pub proof fn lemma_accumulate_append(raw: Seq<(Seq<char>, int)>, a: Seq<(Seq<char>, u32)>, b: Seq<(Seq<char>, u32)>)
    ensures
        accumulate(raw, a + b) == accumulate(accumulate(raw, a), b),
    decreases a.len(),
{
    if a.len() == 0 {
        assert(a + b =~= b);
    } else {
        let next = add_entry(raw, a[0].0, a[0].1 as int);
        assert((a + b).subrange(1, (a + b).len() as int) =~= a.subrange(1, a.len() as int) + b);
        lemma_accumulate_append(next, a.subrange(1, a.len() as int), b);
    }
}

/// Adds `quantity` of `item_kind` to the totals in `raw`.
fn add_raw(raw: &mut Vec<(String, u32)>, item_kind: &String, quantity: u32)
    requires
        forall|k: int| 0 <= k < add_entry(raw_model(old(raw)@), item_kind@, quantity as int).len() ==>
            #[trigger] add_entry(raw_model(old(raw)@), item_kind@, quantity as int)[k].1 <= u32::MAX,
    ensures
        raw_model(final(raw)@) == add_entry(raw_model(old(raw)@), item_kind@, quantity as int),
{
    let ghost before = raw_model(raw@);
    proof {
        lemma_entry_index(before, item_kind@, 0);
    }
    let mut i: usize = 0;
    while i < raw.len()
        invariant
            i <= raw@.len(),
            raw_model(raw@) == before,
            before == raw_model(old(raw)@),
            entry_index(before, item_kind@, 0) == entry_index(before, item_kind@, i as int),
            forall|k: int| 0 <= k < add_entry(before, item_kind@, quantity as int).len() ==>
                #[trigger] add_entry(before, item_kind@, quantity as int)[k].1 <= u32::MAX,
        decreases raw.len() - i,
    {
        assert(before[i as int] == (raw@[i as int].0@, raw@[i as int].1 as int));
        if raw[i].0 == *item_kind {
            assert(entry_index(before, item_kind@, 0) == Some(i as int));
            assert(add_entry(before, item_kind@, quantity as int)[i as int].1 <= u32::MAX);
            let total = raw[i].1 + quantity;
            let name = item_kind.clone();
            raw.set(i, (name, total));
            assert(raw_model(raw@) =~= add_entry(before, item_kind@, quantity as int));
            return;
        }
        i = i + 1;
    }
    raw.push((item_kind.clone(), quantity));
    assert(raw_model(raw@) =~= add_entry(before, item_kind@, quantity as int));
}

/// Adds the raw material needs of the plan rooted at `node` to `raw`: every
/// storage and "any" node adds its quantity to the total of its item kind.
pub fn collect_raw_materials(node: &CraftNode, raw: &mut Vec<(String, u32)>)
    requires
        totals_fit(raw_model(old(raw)@), raw_entries(node.model())),
    ensures
        raw_model(final(raw)@) == accumulate(raw_model(old(raw)@), raw_entries(node.model())),
    decreases node,
{
    let ghost m = node.model();
    let ghost start = raw_model(raw@);
    assert(m.children =~= node_models(node.children@));
    proof {
        lemma_kind_model(&node.kind);
    }
    let ghost own: Seq<(Seq<char>, u32)> = if m.kind is Storage || m.kind is Any {
        seq![(m.item_kind, m.quantity)]
    } else {
        Seq::empty()
    };
    proof {
        assert(raw_entries(m) == own + children_raw_entries(m.children, 0));
        lemma_accumulate_append(start, own, children_raw_entries(m.children, 0));
        lemma_raw_nonneg(raw@);
        lemma_fits_split(start, own, children_raw_entries(m.children, 0));
    }
    if matches!(node.kind, CraftNodeKind::Storage { .. } | CraftNodeKind::Any) {
        proof {
            lemma_accumulate_single(start, (m.item_kind, m.quantity));
        }
        add_raw(raw, &node.item_kind, node.quantity);
    } else {
        assert(accumulate(start, own) == start);
    }
    let ghost mid = raw_model(raw@);
    let mut i: usize = 0;
    while i < node.children.len()
        invariant
            i <= node.children@.len(),
            m == node.model(),
            m.children =~= node_models(node.children@),
            start == raw_model(old(raw)@),
            raw_entries(m) == own + children_raw_entries(m.children, 0),
            accumulate(start, raw_entries(m)) == accumulate(mid, children_raw_entries(m.children, 0)),
            accumulate(mid, children_raw_entries(m.children, 0))
                == accumulate(raw_model(raw@), children_raw_entries(m.children, i as int)),
            totals_fit(raw_model(raw@), children_raw_entries(m.children, i as int)),
        decreases node.children.len() - i,
    {
        assert(decreases_to!(node => node.children@[i as int]));
        let ghost cur = raw_model(raw@);
        proof {
            let child = m.children[i as int];
            let rest = children_raw_entries(m.children, i + 1);
            assert(children_raw_entries(m.children, i as int) == raw_entries(child) + rest);
            lemma_accumulate_append(cur, raw_entries(child), rest);
            lemma_raw_nonneg(raw@);
            lemma_fits_split(cur, raw_entries(child), rest);
        }
        collect_raw_materials(&node.children[i], raw);
        i = i + 1;
    }
}

pub proof fn lemma_accumulate_single(raw: Seq<(Seq<char>, int)>, entry: (Seq<char>, u32))
    ensures
        accumulate(raw, seq![entry]) == add_entry(raw, entry.0, entry.1 as int),
{
    reveal_with_fuel(accumulate, 2);
    assert(seq![entry].subrange(1, 1) =~= Seq::<(Seq<char>, u32)>::empty());
}

/// When accumulating `a` then `b` fits, accumulating `a` fits and so does `b` after it.
pub proof fn lemma_fits_split(raw: Seq<(Seq<char>, int)>, a: Seq<(Seq<char>, u32)>, b: Seq<(Seq<char>, u32)>)
    requires
        forall|k: int| 0 <= k < raw.len() ==> #[trigger] raw[k].1 >= 0,
        totals_fit(raw, a + b),
    ensures
        totals_fit(raw, a),
        totals_fit(accumulate(raw, a), b),
{
    lemma_accumulate_append(raw, a, b);
    lemma_raw_model_nonneg(accumulate(raw, a), raw, a);
    lemma_accumulate_grows(accumulate(raw, a), b);
    assert forall|k: int| 0 <= k < accumulate(raw, a).len() implies #[trigger] accumulate(raw, a)[k].1 <= u32::MAX by {
        assert(accumulate(accumulate(raw, a), b)[k].1 >= accumulate(raw, a)[k].1);
        assert(accumulate(raw, a + b)[k].1 <= u32::MAX);
    }
    assert forall|k: int| 0 <= k < accumulate(accumulate(raw, a), b).len() implies
        #[trigger] accumulate(accumulate(raw, a), b)[k].1 <= u32::MAX by {
        assert(accumulate(raw, a + b)[k].1 <= u32::MAX);
    }
}

pub proof fn lemma_raw_nonneg(raw: Seq<(String, u32)>)
    ensures
        forall|k: int| 0 <= k < raw_model(raw).len() ==> #[trigger] raw_model(raw)[k].1 >= 0,
{
}

pub proof fn lemma_raw_model_nonneg(result: Seq<(Seq<char>, int)>, raw: Seq<(Seq<char>, int)>, entries: Seq<(Seq<char>, u32)>)
    requires
        forall|k: int| 0 <= k < raw.len() ==> #[trigger] raw[k].1 >= 0,
        result == accumulate(raw, entries),
    ensures
        forall|k: int| 0 <= k < result.len() ==> #[trigger] result[k].1 >= 0,
    decreases entries.len(),
{
    if entries.len() > 0 {
        let next = add_entry(raw, entries[0].0, entries[0].1 as int);
        lemma_entry_index(raw, entries[0].0, 0);
        assert(forall|k: int| 0 <= k < next.len() ==> #[trigger] next[k].1 >= 0);
        lemma_raw_model_nonneg(result, next, entries.subrange(1, entries.len() as int));
    }
}

/// A request to plan (and possibly queue) a craft.
#[derive(Debug)]
pub struct CraftPlanRequest {
    pub item_kind: String,
    pub amount: u32,
    pub selections: Vec<(String, CraftSelection)>,
    pub job_id: Option<String>,
}

/// How much of a raw material a plan takes from storage, and how much is there.
#[derive(Debug)]
pub struct RawMaterialRequirement {
    pub item_kind: String,
    pub quantity: u32,
    pub available: u32,
}

/// A resolved crafting plan.
#[derive(Debug)]
pub struct CraftPlan {
    pub target_item_kind: String,
    pub target_quantity: u32,
    pub root: CraftNode,
    pub raw_materials: Vec<RawMaterialRequirement>,
    pub unresolved: bool,
}

/// Mathematical model of a [`CraftPlan`]; raw materials are (item kind, quantity, available).
pub struct PlanModel {
    pub target_item_kind: Seq<char>,
    pub target_quantity: u32,
    pub root: NodeModel,
    pub raw_materials: Seq<(Seq<char>, int, u32)>,
    pub unresolved: bool,
}

impl CraftPlan {
    pub open spec fn model(&self) -> PlanModel {
        PlanModel {
            target_item_kind: self.target_item_kind@,
            target_quantity: self.target_quantity,
            root: self.root.model(),
            raw_materials: requirement_models(self.raw_materials@),
            unresolved: self.unresolved,
        }
    }
}

pub open spec fn requirement_models(v: Seq<RawMaterialRequirement>) -> Seq<(Seq<char>, int, u32)> {
    v.map_values(|r: RawMaterialRequirement| (r.item_kind@, r.quantity as int, r.available))
}

/// The first recipe at `recipes[i..]` that cannot be planned with: one that
/// yields nothing or has no ingredients.
pub open spec fn first_invalid_recipe(recipes: Seq<Recipe>, i: int) -> Option<PlanErrorModel>
    decreases recipes.len() - i,
{
    if i < 0 || i >= recipes.len() {
        None
    } else if recipes[i].output_yield == 0 {
        Some(PlanErrorModel::InvalidRecipeYield { recipe_id: recipes[i].id })
    } else if recipes[i].ingredients@.len() == 0 {
        Some(PlanErrorModel::RecipeWithoutIngredients { recipe_id: recipes[i].id })
    } else {
        first_invalid_recipe(recipes, i + 1)
    }
}

/// The raw material totals with what storage holds of each.
pub open spec fn raw_requirements(raw: Seq<(Seq<char>, int)>, available: Seq<(String, u32)>) -> Seq<(Seq<char>, int, u32)> {
    raw.map_values(|e: (Seq<char>, int)| (e.0, e.1, available_of(available, e.0)))
}

/// The tree of a plan for `amount` items of `item_kind`, rooted at key `"0"`.
pub open spec fn spec_plan_root(item_kind: Seq<char>, amount: u32, selections: Seq<(String, CraftSelection)>,
    recipes: Seq<Recipe>, available: Seq<(String, u32)>) -> Result<NodeModel, PlanErrorModel> {
    spec_build_node(item_kind, amount, "0"@, selections, recipes, available, Seq::empty(), false)
}

/// The plan for a request: `target` is the request's item kind in canonical
/// form, or `None` when it names no item kind.
pub open spec fn spec_resolve_plan(
    request_item_kind: Seq<char>,
    amount: u32,
    selections: Seq<(String, CraftSelection)>,
    target: Option<Seq<char>>,
    recipes: Seq<Recipe>,
    available: Seq<(String, u32)>,
) -> Result<PlanModel, PlanErrorModel> {
    if amount == 0 {
        Err(PlanErrorModel::AmountNotPositive)
    } else {
        match target {
            None => Err(PlanErrorModel::UnknownItemKind { item_kind: request_item_kind }),
            Some(item_kind) => match first_invalid_recipe(recipes, 0) {
                Some(e) => Err(e),
                None => match spec_plan_root(item_kind, amount, selections, recipes, available) {
                    Err(e) => Err(e),
                    Ok(root) => Ok(PlanModel {
                        target_item_kind: request_item_kind,
                        target_quantity: amount,
                        root,
                        raw_materials: raw_requirements(accumulate(Seq::empty(), raw_entries(root)), available),
                        unresolved: has_choice(root),
                    }),
                },
            },
        }
    }
}

/// Every raw material total of the plan, when there is one, fits in a `u32`.
pub open spec fn plan_totals_fit(item_kind: Seq<char>, amount: u32, selections: Seq<(String, CraftSelection)>,
    recipes: Seq<Recipe>, available: Seq<(String, u32)>) -> bool {
    match spec_plan_root(item_kind, amount, selections, recipes, available) {
        Ok(root) => totals_fit(Seq::empty(), raw_entries(root)),
        Err(_) => true,
    }
}

fn check_recipes(recipes: &[Recipe]) -> (result: Result<(), CraftPlanError>)
    ensures
        match result {
            Ok(()) => first_invalid_recipe(recipes@, 0) is None,
            Err(e) => first_invalid_recipe(recipes@, 0) == Some(e.model()),
        },
        result is Ok ==> yields_positive(recipes@),
{
    let mut i: usize = 0;
    while i < recipes.len()
        invariant
            i <= recipes@.len(),
            first_invalid_recipe(recipes@, 0) == first_invalid_recipe(recipes@, i as int),
            forall|j: int| 0 <= j < i ==> #[trigger] recipes@[j].output_yield > 0,
        decreases recipes.len() - i,
    {
        if recipes[i].output_yield == 0 {
            return Err(CraftPlanError::InvalidRecipeYield { recipe_id: recipes[i].id });
        }
        if recipes[i].ingredients.len() == 0 {
            return Err(CraftPlanError::RecipeWithoutIngredients { recipe_id: recipes[i].id });
        }
        i = i + 1;
    }
    Ok(())
}

/// The entries of `entries` as (text, quantity) pairs.
pub open spec fn entry_models(entries: Seq<(String, u32)>) -> Seq<(Seq<char>, u32)> {
    entries.map_values(|e: (String, u32)| (e.0@, e.1))
}

/// Appends the raw material contributions of the plan rooted at `node`, in
/// the order the plan needs them.
fn push_raw_entries(node: &CraftNode, out: &mut Vec<(String, u32)>)
    ensures
        entry_models(final(out)@) == entry_models(old(out)@) + raw_entries(node.model()),
    decreases node,
{
    let ghost m = node.model();
    let ghost start = entry_models(out@);
    assert(m.children =~= node_models(node.children@));
    proof {
        lemma_kind_model(&node.kind);
    }
    if matches!(node.kind, CraftNodeKind::Storage { .. } | CraftNodeKind::Any) {
        out.push((node.item_kind.clone(), node.quantity));
        assert(entry_models(out@) =~= start + seq![(m.item_kind, m.quantity)]);
    } else {
        assert(entry_models(out@) =~= start + Seq::<(Seq<char>, u32)>::empty());
    }
    let ghost own = entry_models(out@);
    let mut i: usize = 0;
    while i < node.children.len()
        invariant
            i <= node.children@.len(),
            m == node.model(),
            m.children =~= node_models(node.children@),
            entry_models(out@) == own + children_raw_entries(m.children, 0).subrange(0, 0) + raw_prefix(m.children, i as int),
            own + children_raw_entries(m.children, 0) == own + raw_prefix(m.children, i as int) + children_raw_entries(m.children, i as int),
        decreases node.children.len() - i,
    {
        assert(decreases_to!(node => node.children@[i as int]));
        push_raw_entries(&node.children[i], out);
        proof {
            let child = m.children[i as int];
            assert(children_raw_entries(m.children, i as int) == raw_entries(child) + children_raw_entries(m.children, i + 1));
            assert(raw_prefix(m.children, i + 1) == raw_prefix(m.children, i as int) + raw_entries(child));
            assert(own + raw_prefix(m.children, i as int) + children_raw_entries(m.children, i as int)
                =~= own + raw_prefix(m.children, i + 1) + children_raw_entries(m.children, i + 1));
            assert(entry_models(out@) =~= own + children_raw_entries(m.children, 0).subrange(0, 0) + raw_prefix(m.children, i + 1));
        }
        i = i + 1;
    }
    proof {
        assert(children_raw_entries(m.children, i as int) =~= Seq::<(Seq<char>, u32)>::empty());
        assert(entry_models(out@) =~= start + raw_entries(m));
    }
}

/// The contributions of `children[..n]`, in order.
pub open spec fn raw_prefix(children: Seq<NodeModel>, n: int) -> Seq<(Seq<char>, u32)>
    decreases n,
{
    if n <= 0 {
        Seq::empty()
    } else {
        raw_prefix(children, n - 1) + raw_entries(children[n - 1])
    }
}

/// Whether adding up `entries` keeps every total within a `u32`.
fn entries_fit(entries: &Vec<(String, u32)>) -> (fits: bool)
    ensures
        fits == totals_fit(Seq::empty(), entry_models(entries@)),
{
    let ghost all = entry_models(entries@);
    let mut raw: Vec<(String, u32)> = Vec::new();
    let mut j: usize = 0;
    assert(raw_model(raw@) =~= Seq::<(Seq<char>, int)>::empty());
    assert(all.subrange(0, 0) =~= Seq::<(Seq<char>, u32)>::empty());
    assert(all.subrange(0, all.len() as int) =~= all);
    while j < entries.len()
        invariant
            j <= entries@.len(),
            all == entry_models(entries@),
            raw_model(raw@) == accumulate(Seq::empty(), all.subrange(0, j as int)),
            accumulate(Seq::empty(), all) == accumulate(raw_model(raw@), all.subrange(j as int, all.len() as int)),
        decreases entries.len() - j,
    {
        let ghost cur = raw_model(raw@);
        let ghost rest = all.subrange(j + 1, all.len() as int);
        let item_kind = &entries[j].0;
        let quantity = entries[j].1;
        proof {
            lemma_entry_index(cur, item_kind@, 0);
            lemma_raw_nonneg(raw@);
            assert(all.subrange(j as int, all.len() as int).subrange(1, all.len() - j) =~= rest);
            assert(all.subrange(j as int, all.len() as int)[0] == (item_kind@, quantity));
            assert(all.subrange(0, j + 1) =~= all.subrange(0, j as int) + seq![(item_kind@, quantity)]);
            lemma_accumulate_append(Seq::empty(), all.subrange(0, j as int), seq![(item_kind@, quantity)]);
            lemma_accumulate_single(cur, (item_kind@, quantity));
        }
        let mut i: usize = 0;
        while i < raw.len()
            invariant
                i <= raw@.len(),
                raw_model(raw@) == cur,
                entry_index(cur, item_kind@, 0) == entry_index(cur, item_kind@, i as int),
            ensures
                i <= raw@.len(),
                raw_model(raw@) == cur,
                i < raw@.len() ==> entry_index(cur, item_kind@, 0) == Some(i as int),
                i == raw@.len() ==> entry_index(cur, item_kind@, 0) is None,
            decreases raw.len() - i,
        {
            if raw[i].0 == *item_kind {
                assert(cur[i as int] == (raw@[i as int].0@, raw@[i as int].1 as int));
                break;
            }
            i = i + 1;
        }
        if i < raw.len() {
            assert(cur[i as int] == (raw@[i as int].0@, raw@[i as int].1 as int));
            assert(entry_index(cur, item_kind@, 0) == Some(i as int));
            let ghost next = add_entry(cur, item_kind@, quantity as int);
            match raw[i].1.checked_add(quantity) {
                None => {
                    proof {
                        lemma_raw_model_nonneg(next, cur, seq![(item_kind@, quantity)]);
                        lemma_accumulate_grows(next, rest);
                        assert(accumulate(Seq::empty(), all)[i as int].1 > u32::MAX);
                    }
                    return false;
                },
                Some(total) => {
                    let name = item_kind.clone();
                    raw.set(i, (name, total));
                    assert(raw_model(raw@) =~= next);
                },
            }
        } else {
            raw.push((item_kind.clone(), quantity));
            assert(raw_model(raw@) =~= add_entry(cur, item_kind@, quantity as int));
        }
        j = j + 1;
    }
    proof {
        assert(all.subrange(j as int, all.len() as int) =~= Seq::<(Seq<char>, u32)>::empty());
        assert(all.subrange(0, j as int) =~= all);
        assert forall|k: int| 0 <= k < accumulate(Seq::empty(), all).len() implies #[trigger] accumulate(Seq::empty(), all)[k].1 <= u32::MAX by {
            assert(raw_model(raw@)[k] == (raw@[k].0@, raw@[k].1 as int));
        }
    }
    true
}

/// Whether every raw material total of the plan rooted at `root` fits in a `u32`.
pub fn raw_totals_fit(root: &CraftNode) -> (fits: bool)
    ensures
        fits == totals_fit(Seq::empty(), raw_entries(root.model())),
{
    let mut entries: Vec<(String, u32)> = Vec::new();
    push_raw_entries(root, &mut entries);
    assert(entry_models(entries@) =~= Seq::<(Seq<char>, u32)>::empty() + raw_entries(root.model()));
    entries_fit(&entries)
}

/// Resolves the plan for `request`.
///
/// `target` is the request's item kind in canonical form (`None` when it names
/// no item kind), `recipes` every known recipe and `available` the quantity of
/// each relevant item kind in storage. The plan's raw materials list every
/// storage and "any" need with its total, in the order the plan first needs it.
pub fn resolve_plan(
    request: &CraftPlanRequest,
    target: Option<String>,
    recipes: &[Recipe],
    available: &[(String, u32)],
) -> (result: Result<CraftPlan, CraftPlanError>)
    requires
        target matches Some(t) ==> (request.amount > 0 && first_invalid_recipe(recipes@, 0) is None
            ==> plan_totals_fit(t@, request.amount, request.selections@, recipes@, available@)),
    ensures
        match result {
            Ok(plan) => spec_resolve_plan(request.item_kind@, request.amount, request.selections@,
                match target { Some(t) => Some(t@), None => None }, recipes@, available@) == Ok::<PlanModel, PlanErrorModel>(plan.model()),
            Err(e) => spec_resolve_plan(request.item_kind@, request.amount, request.selections@,
                match target { Some(t) => Some(t@), None => None }, recipes@, available@) == Err::<PlanModel, PlanErrorModel>(e.model()),
        },
{
    if request.amount == 0 {
        return Err(CraftPlanError::AmountNotPositive);
    }
    let item_kind = match target {
        Some(t) => t,
        None => {
            return Err(CraftPlanError::UnknownItemKind { item_kind: request.item_kind.clone() });
        },
    };
    match check_recipes(recipes) {
        Err(e) => {
            return Err(e);
        },
        Ok(()) => {},
    }
    let mut active: Vec<String> = Vec::new();
    assert(texts(active@) =~= Seq::<Seq<char>>::empty());
    let root_key = "0".to_owned();
    assert(root_key@ == "0"@);
    let root = match build_node(&item_kind, request.amount, &root_key, request.selections.as_slice(), recipes,
        available, &mut active, false) {
        Err(e) => {
            return Err(e);
        },
        Ok(root) => root,
    };
    let mut raw: Vec<(String, u32)> = Vec::new();
    assert(raw_model(raw@) =~= Seq::<(Seq<char>, int)>::empty());
    collect_raw_materials(&root, &mut raw);
    let mut raw_materials: Vec<RawMaterialRequirement> = Vec::new();
    let mut i: usize = 0;
    while i < raw.len()
        invariant
            i <= raw@.len(),
            requirement_models(raw_materials@) =~= raw_requirements(raw_model(raw@), available@).subrange(0, i as int),
        decreases raw.len() - i,
    {
        let quantity_available = available_quantity(available, &raw[i].0);
        let ghost before = raw_materials@;
        raw_materials.push(RawMaterialRequirement {
            item_kind: raw[i].0.clone(),
            quantity: raw[i].1,
            available: quantity_available,
        });
        assert(requirement_models(raw_materials@) =~= requirement_models(before).push(
            raw_requirements(raw_model(raw@), available@)[i as int]));
        i = i + 1;
    }
    assert(requirement_models(raw_materials@) =~= raw_requirements(raw_model(raw@), available@));
    let unresolved = contains_choice(&root);
    Ok(CraftPlan {
        target_item_kind: request.item_kind.clone(),
        target_quantity: request.amount,
        root,
        raw_materials,
        unresolved,
    })
}

/// Resolves the plan for `request` (see [`resolve_plan`]) when its raw
/// material totals fit in a `u32`; `None` when they do not.
pub fn resolve_plan_checked(
    request: &CraftPlanRequest,
    target: Option<String>,
    recipes: &[Recipe],
    available: &[(String, u32)],
) -> (result: Option<Result<CraftPlan, CraftPlanError>>)
    ensures
        result is None <==> (target matches Some(t) && request.amount > 0 && first_invalid_recipe(recipes@, 0) is None
            && !plan_totals_fit(t@, request.amount, request.selections@, recipes@, available@)),
        result matches Some(r) ==> match r {
            Ok(plan) => spec_resolve_plan(request.item_kind@, request.amount, request.selections@,
                match target { Some(t) => Some(t@), None => None }, recipes@, available@) == Ok::<PlanModel, PlanErrorModel>(plan.model()),
            Err(e) => spec_resolve_plan(request.item_kind@, request.amount, request.selections@,
                match target { Some(t) => Some(t@), None => None }, recipes@, available@) == Err::<PlanModel, PlanErrorModel>(e.model()),
        },
{
    match &target {
        Some(item_kind) => {
            if request.amount > 0 {
                let valid = check_recipes(recipes);
                if valid.is_ok() {
                    let mut active: Vec<String> = Vec::new();
                    assert(texts(active@) =~= Seq::<Seq<char>>::empty());
                    let root_key = "0".to_owned();
                    assert(root_key@ == "0"@);
                    let root = build_node(item_kind, request.amount, &root_key, request.selections.as_slice(), recipes,
                        available, &mut active, false);
                    match root {
                        Ok(root) => {
                            if !raw_totals_fit(&root) {
                                return None;
                            }
                        },
                        Err(_) => {},
                    }
                }
            }
        },
        None => {},
    }
    Some(resolve_plan(request, target, recipes, available))
}

/// Whether `item_kind` is the target, or the output or an ingredient of one
/// of `recipes[..n]`: an item kind whose stored quantity a plan may consult.
pub open spec fn mentioned(target: Seq<char>, recipes: Seq<Recipe>, n: int, item_kind: Seq<char>) -> bool {
    ||| item_kind == target
    ||| exists|r: int| 0 <= r < n && (#[trigger] recipes[r]).output_item_kind@ == item_kind
    ||| exists|r: int, i: int| 0 <= r < n && 0 <= i < recipes[r].ingredients@.len()
        && (#[trigger] recipes[r].ingredients@[i]).item_kind@ == item_kind
}

fn push_new_kind(kinds: &mut Vec<String>, item_kind: &String)
    requires
        texts(old(kinds)@).no_duplicates(),
    ensures
        texts(final(kinds)@).no_duplicates(),
        forall|k: Seq<char>| #[trigger] texts(final(kinds)@).contains(k) <==> (texts(old(kinds)@).contains(k) || k == item_kind@),
{
    let ghost before = texts(kinds@);
    if !contains_text(kinds, item_kind) {
        kinds.push(item_kind.clone());
        let ghost after = texts(kinds@);
        assert(after =~= before.push(item_kind@));
        assert forall|k: Seq<char>| #[trigger] after.contains(k) <==> (before.contains(k) || k == item_kind@) by {
            if before.contains(k) {
                let j = choose|j: int| 0 <= j < before.len() && before[j] == k;
                assert(after[j] == k);
            }
            if k == item_kind@ {
                assert(after[before.len() as int] == k);
            }
            if after.contains(k) {
                let j = choose|j: int| 0 <= j < after.len() && after[j] == k;
                if j < before.len() {
                    assert(before[j] == k);
                }
            }
        }
    }
}

/// The item kinds whose stored quantity a plan for `target` may consult:
/// the target, and every output and ingredient of `recipes`, each once.
pub fn plan_item_kinds(target: &String, recipes: &[Recipe]) -> (kinds: Vec<String>)
    ensures
        texts(kinds@).no_duplicates(),
        forall|k: Seq<char>| #[trigger] texts(kinds@).contains(k) <==> mentioned(target@, recipes@, recipes@.len() as int, k),
{
    let mut kinds: Vec<String> = Vec::new();
    kinds.push(target.clone());
    assert(texts(kinds@) =~= seq![target@]);
    assert forall|k: Seq<char>| #[trigger] texts(kinds@).contains(k) <==> mentioned(target@, recipes@, 0, k) by {
        if k == target@ {
            assert(texts(kinds@)[0] == k);
        }
    }
    let mut r: usize = 0;
    while r < recipes.len()
        invariant
            r <= recipes@.len(),
            texts(kinds@).no_duplicates(),
            forall|k: Seq<char>| #[trigger] texts(kinds@).contains(k) <==> mentioned(target@, recipes@, r as int, k),
        decreases recipes.len() - r,
    {
        push_new_kind(&mut kinds, &recipes[r].output_item_kind);
        let mut i: usize = 0;
        while i < recipes[r].ingredients.len()
            invariant
                r < recipes@.len(),
                i <= recipes@[r as int].ingredients@.len(),
                texts(kinds@).no_duplicates(),
                forall|k: Seq<char>| #[trigger] texts(kinds@).contains(k) <==> (mentioned(target@, recipes@, r as int, k)
                    || k == recipes@[r as int].output_item_kind@
                    || exists|j: int| 0 <= j < i && (#[trigger] recipes@[r as int].ingredients@[j]).item_kind@ == k),
            decreases recipes@[r as int].ingredients@.len() - i,
        {
            push_new_kind(&mut kinds, &recipes[r].ingredients[i].item_kind);
            assert forall|k: Seq<char>| #[trigger] texts(kinds@).contains(k) <==> (mentioned(target@, recipes@, r as int, k)
                || k == recipes@[r as int].output_item_kind@
                || exists|j: int| 0 <= j < i + 1 && (#[trigger] recipes@[r as int].ingredients@[j]).item_kind@ == k) by {
                if k == recipes@[r as int].ingredients@[i as int].item_kind@ {
                    assert(0 <= i < i + 1);
                }
                if exists|j: int| 0 <= j < i + 1 && (#[trigger] recipes@[r as int].ingredients@[j]).item_kind@ == k {
                    let j = choose|j: int| 0 <= j < i + 1 && (#[trigger] recipes@[r as int].ingredients@[j]).item_kind@ == k;
                    if j < i {
                        assert(exists|j: int| 0 <= j < i && (#[trigger] recipes@[r as int].ingredients@[j]).item_kind@ == k);
                    }
                }
            }
            i = i + 1;
        }
        assert forall|k: Seq<char>| #[trigger] texts(kinds@).contains(k) <==> mentioned(target@, recipes@, r + 1, k) by {
            if mentioned(target@, recipes@, r as int, k) {
                if exists|q: int| 0 <= q < r && (#[trigger] recipes@[q]).output_item_kind@ == k {
                    let q = choose|q: int| 0 <= q < r && (#[trigger] recipes@[q]).output_item_kind@ == k;
                    assert(0 <= q < r + 1);
                }
                if exists|q: int, j: int| 0 <= q < r && 0 <= j < recipes@[q].ingredients@.len()
                    && (#[trigger] recipes@[q].ingredients@[j]).item_kind@ == k {
                    let (q, j) = choose|q: int, j: int| 0 <= q < r && 0 <= j < recipes@[q].ingredients@.len()
                        && (#[trigger] recipes@[q].ingredients@[j]).item_kind@ == k;
                    assert(0 <= q < r + 1);
                }
            }
            if k == recipes@[r as int].output_item_kind@ {
                assert(0 <= r < r + 1);
            }
            if exists|j: int| 0 <= j < i && (#[trigger] recipes@[r as int].ingredients@[j]).item_kind@ == k {
                let j = choose|j: int| 0 <= j < i && (#[trigger] recipes@[r as int].ingredients@[j]).item_kind@ == k;
                assert(0 <= r < r + 1 && 0 <= j < recipes@[r as int].ingredients@.len());
            }
            if mentioned(target@, recipes@, r + 1, k) && k != target@ {
                if exists|q: int| 0 <= q < r + 1 && (#[trigger] recipes@[q]).output_item_kind@ == k {
                    let q = choose|q: int| 0 <= q < r + 1 && (#[trigger] recipes@[q]).output_item_kind@ == k;
                    if q < r {
                        assert(mentioned(target@, recipes@, r as int, k));
                    }
                }
                if exists|q: int, j: int| 0 <= q < r + 1 && 0 <= j < recipes@[q].ingredients@.len()
                    && (#[trigger] recipes@[q].ingredients@[j]).item_kind@ == k {
                    let (q, j) = choose|q: int, j: int| 0 <= q < r + 1 && 0 <= j < recipes@[q].ingredients@.len()
                        && (#[trigger] recipes@[q].ingredients@[j]).item_kind@ == k;
                    if q < r {
                        assert(mentioned(target@, recipes@, r as int, k));
                    } else {
                        assert(recipes@[r as int].ingredients@[j].item_kind@ == k);
                    }
                }
            }
        }
        r = r + 1;
    }
    kinds
}

} // verus!
