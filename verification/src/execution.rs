//! Turning a resolved crafting plan into the nodes of a durable craft job:
//! one stored node per plan node, listed parent before children, each child
//! pointing at its parent.
use crate::craft_job::{CraftNodeSpec, CraftRecipeSnapshot};
use crate::crafting::{CraftIngredient, CraftNode, CraftNodeKind, NodeKindModel, NodeModel, Recipe};
use crate::ids::{concat, new_uuid, parse_uuid, uuid_parse, uuid_text, uuid_to_string};
use vstd::prelude::*;

verus! {

/// A node of a craft job to store.
#[derive(Debug)]
pub struct NewCraftJobNode {
    pub spec: CraftNodeSpec,
    pub parent_id: Option<u128>,
    pub child_order: i32,
    pub kind: NewCraftJobNodeKind,
}

/// How a stored craft node obtains its items.
#[derive(Debug)]
pub enum NewCraftJobNodeKind {
    Recipe(CraftRecipeSnapshot),
    Storage,
    Any,
}

/// Why a plan could not be turned into a craft job.
#[derive(Debug)]
pub enum QueueError {
    InvalidRecipeId { text: String },
    RecipeDisappeared { recipe_id: u128 },
    RecipeChanged { recipe_id: u128 },
    UnresolvedChoices,
    TooManyChildren,
}

/// Mathematical model of a [`QueueError`].
pub enum QueueErrorModel {
    InvalidRecipeId { text: Seq<char> },
    RecipeDisappeared { recipe_id: u128 },
    RecipeChanged { recipe_id: u128 },
    UnresolvedChoices,
    TooManyChildren,
}

impl QueueError {
    pub open spec fn model(&self) -> QueueErrorModel {
        match self {
            QueueError::InvalidRecipeId { text } => QueueErrorModel::InvalidRecipeId { text: text@ },
            QueueError::RecipeDisappeared { recipe_id } => QueueErrorModel::RecipeDisappeared { recipe_id: *recipe_id },
            QueueError::RecipeChanged { recipe_id } => QueueErrorModel::RecipeChanged { recipe_id: *recipe_id },
            QueueError::UnresolvedChoices => QueueErrorModel::UnresolvedChoices,
            QueueError::TooManyChildren => QueueErrorModel::TooManyChildren,
        }
    }
}

/// The text of a queueing error.
pub open spec fn queue_error_text(e: QueueErrorModel) -> Seq<char> {
    match e {
        QueueErrorModel::InvalidRecipeId { text } => "invalid recipe id "@ + text,
        QueueErrorModel::RecipeDisappeared { recipe_id } => "recipe "@ + uuid_text(recipe_id) + " disappeared before queueing"@,
        QueueErrorModel::RecipeChanged { recipe_id } => "recipe "@ + uuid_text(recipe_id) + " changed while queueing"@,
        QueueErrorModel::UnresolvedChoices => "craft plan contains unresolved choices"@,
        QueueErrorModel::TooManyChildren => "out of range integral type conversion attempted"@,
    }
}

impl QueueError {
    /// The error's text, as users see it.
    pub fn message(&self) -> (text: String)
        ensures
            text@ == queue_error_text(self.model()),
    {
        match self {
            QueueError::InvalidRecipeId { text } => concat("invalid recipe id ", text.as_str()),
            QueueError::RecipeDisappeared { recipe_id } => {
                let head = concat("recipe ", uuid_to_string(*recipe_id).as_str());
                concat(head.as_str(), " disappeared before queueing")
            },
            QueueError::RecipeChanged { recipe_id } => {
                let head = concat("recipe ", uuid_to_string(*recipe_id).as_str());
                concat(head.as_str(), " changed while queueing")
            },
            QueueError::UnresolvedChoices => "craft plan contains unresolved choices".to_owned(),
            QueueError::TooManyChildren => "out of range integral type conversion attempted".to_owned(),
        }
    }
}

/// The last of `recipes[..n]` with id `id`: the one a map keyed by id keeps.
pub open spec fn last_recipe(recipes: Seq<Recipe>, id: u128, n: int) -> Option<int>
    decreases n,
{
    if n <= 0 {
        None
    } else if recipes[n - 1].id == id {
        Some(n - 1)
    } else {
        last_recipe(recipes, id, n - 1)
    }
}

pub proof fn lemma_last_recipe(recipes: Seq<Recipe>, id: u128, n: int)
    requires
        0 <= n <= recipes.len(),
    ensures
        last_recipe(recipes, id, n) matches Some(r) ==> 0 <= r < n && recipes[r].id == id,
    decreases n,
{
    if n > 0 {
        lemma_last_recipe(recipes, id, n - 1);
    }
}

/// What stops a plan node itself from being stored, if anything.
pub open spec fn own_queue_error(node: NodeModel, recipes: Seq<Recipe>) -> Option<QueueErrorModel> {
    match node.kind {
        NodeKindModel::Recipe { recipe_id, output_yield, .. } => match uuid_parse(recipe_id) {
            None => Some(QueueErrorModel::InvalidRecipeId { text: recipe_id }),
            Some(id) => match last_recipe(recipes, id, recipes.len() as int) {
                None => Some(QueueErrorModel::RecipeDisappeared { recipe_id: id }),
                Some(r) => if recipes[r].output_yield != output_yield {
                    Some(QueueErrorModel::RecipeChanged { recipe_id: id })
                } else {
                    None
                },
            },
        },
        NodeKindModel::Storage { .. } => None,
        NodeKindModel::Any => None,
        _ => Some(QueueErrorModel::UnresolvedChoices),
    }
}

/// The first thing, in listing order, that stops a plan subtree from being stored.
pub open spec fn queue_error(node: NodeModel, recipes: Seq<Recipe>) -> Option<QueueErrorModel>
    decreases node, 0int,
{
    match own_queue_error(node, recipes) {
        Some(e) => Some(e),
        None => children_queue_error(node.children, 0, recipes),
    }
}

/// The first thing that stops the subtrees of `children[i..]` from being stored.
pub open spec fn children_queue_error(children: Seq<NodeModel>, i: int, recipes: Seq<Recipe>) -> Option<QueueErrorModel>
    decreases children, children.len() - i,
{
    if i < 0 || i >= children.len() {
        None
    } else if i > i32::MAX {
        Some(QueueErrorModel::TooManyChildren)
    } else {
        match queue_error(children[i], recipes) {
            Some(e) => Some(e),
            None => children_queue_error(children, i + 1, recipes),
        }
    }
}

/// A plan node in a listing: the node, the index of its parent in the
/// listing (`None` for the top), and its place among its siblings.
pub struct ListedNode {
    pub node: NodeModel,
    pub parent: Option<int>,
    pub order: int,
}

/// The listing of a plan subtree that starts at index `base`: the node,
/// then its children's subtrees in order.
pub open spec fn listing(node: NodeModel, parent: Option<int>, order: int, base: int) -> Seq<ListedNode>
    decreases node, 0int,
{
    seq![ListedNode { node, parent, order }] + children_listing(node.children, node.children.len() as int, base, base + 1)
}

/// The listing of the subtrees of `children[..n]` of the node at `parent`, from index `start`.
pub open spec fn children_listing(children: Seq<NodeModel>, n: int, parent: int, start: int) -> Seq<ListedNode>
    decreases children, n,
{
    if n <= 0 || n > children.len() {
        Seq::empty()
    } else {
        let prev = children_listing(children, n - 1, parent, start);
        prev + listing(children[n - 1], Some(parent), n - 1, start + prev.len())
    }
}

/// The entry's parent is listed in `lo..hi`.
pub open spec fn parent_in(entry: ListedNode, lo: int, hi: int) -> bool {
    match entry.parent {
        Some(p) => lo <= p < hi,
        None => false,
    }
}

/// Every listed node but the first has its parent listed before it, from `base` on.
pub open spec fn parents_before(entries: Seq<ListedNode>, base: int, first: int) -> bool {
    forall|j: int| first <= j < entries.len() ==> parent_in(#[trigger] entries[j], base, base + j)
}

pub proof fn lemma_listing_parents(node: NodeModel, parent: Option<int>, order: int, base: int)
    ensures
        parents_before(listing(node, parent, order, base), base, 1),
        listing(node, parent, order, base)[0] == (ListedNode { node, parent, order }),
    decreases node, 0int,
{
    let kids = children_listing(node.children, node.children.len() as int, base, base + 1);
    lemma_children_listing_parents(node.children, node.children.len() as int, base, base + 1);
    let all = listing(node, parent, order, base);
    assert forall|j: int| 1 <= j < all.len() implies parent_in(#[trigger] all[j], base, base + j) by {
        assert(all[j] == kids[j - 1]);
    }
}

pub proof fn lemma_children_listing_parents(children: Seq<NodeModel>, n: int, parent: int, start: int)
    requires
        parent < start,
    ensures
        forall|j: int| 0 <= j < children_listing(children, n, parent, start).len()
            ==> parent_in(#[trigger] children_listing(children, n, parent, start)[j], parent, start + j),
    decreases children, n,
{
    if 0 < n <= children.len() {
        lemma_children_listing_parents(children, n - 1, parent, start);
        let prev = children_listing(children, n - 1, parent, start);
        let sub = listing(children[n - 1], Some(parent), n - 1, start + prev.len());
        lemma_listing_parents(children[n - 1], Some(parent), n - 1, start + prev.len());
        let all = children_listing(children, n, parent, start);
        assert forall|j: int| 0 <= j < all.len() implies parent_in(#[trigger] all[j], parent, start + j) by {
            if j < prev.len() {
                assert(all[j] == prev[j]);
            } else {
                assert(all[j] == sub[j - prev.len()]);
                if j > prev.len() {
                    assert(parent_in(sub[j - prev.len()], start + prev.len(), start + prev.len() + (j - prev.len())));
                }
            }
        }
    }
}

/// The models of a list of ingredients.
pub open spec fn ingredient_models(ingredients: Seq<CraftIngredient>) -> Seq<(Seq<char>, u32)> {
    ingredients.map_values(|i: CraftIngredient| (i.item_kind@, i.quantity))
}

/// Whether a stored kind is the one for a plan node's kind.
pub open spec fn kind_matches(kind: NewCraftJobNodeKind, model: NodeKindModel, recipes: Seq<Recipe>) -> bool {
    match model {
        NodeKindModel::Recipe { recipe_id, crafts, output_yield, .. } => match uuid_parse(recipe_id) {
            Some(id) => match last_recipe(recipes, id, recipes.len() as int) {
                Some(r) => match kind {
                    NewCraftJobNodeKind::Recipe(s) => {
                        &&& s.recipe_id == id
                        &&& s.engine_type == recipes[r].engine_type
                        &&& ingredient_models(s.ingredients@) == ingredient_models(recipes[r].ingredients@)
                        &&& s.planned_crafts == crafts
                        &&& s.output_yield == output_yield
                    },
                    _ => false,
                },
                None => false,
            },
            None => false,
        },
        NodeKindModel::Storage { .. } => kind is Storage,
        NodeKindModel::Any => kind is Any,
        _ => false,
    }
}

/// Whether a stored node is the one for a listed plan node: its parent is
/// `parent_id` at the top of the listing, else the stored node at its
/// parent's index in `all`.
pub open spec fn listed_matches(stored: NewCraftJobNode, entry: ListedNode, parent_id: Option<u128>, all: Seq<NewCraftJobNode>, recipes: Seq<Recipe>) -> bool {
    &&& stored.spec.key@ == entry.node.key
    &&& stored.spec.item_kind@ == entry.node.item_kind
    &&& stored.spec.required_quantity == entry.node.quantity
    &&& stored.child_order == entry.order
    &&& stored.parent_id == match entry.parent {
        None => parent_id,
        Some(p) => Some(all[p].spec.id),
    }
    &&& kind_matches(stored.kind, entry.node.kind, recipes)
}

/// `new` is `old` with stored nodes for `entries` appended, in order.
pub open spec fn appended(old_nodes: Seq<NewCraftJobNode>, new_nodes: Seq<NewCraftJobNode>, entries: Seq<ListedNode>, parent_id: Option<u128>, recipes: Seq<Recipe>) -> bool {
    &&& new_nodes.len() == old_nodes.len() + entries.len()
    &&& new_nodes.subrange(0, old_nodes.len() as int) == old_nodes
    &&& forall|j: int| 0 <= j < entries.len()
        ==> listed_matches(#[trigger] new_nodes[old_nodes.len() + j], entries[j], parent_id, new_nodes, recipes)
}

/// Copies of a list of ingredients.
pub fn copy_ingredients(ingredients: &Vec<CraftIngredient>) -> (copy: Vec<CraftIngredient>)
    ensures
        ingredient_models(copy@) == ingredient_models(ingredients@),
{
    let mut copy: Vec<CraftIngredient> = Vec::new();
    let mut i: usize = 0;
    while i < ingredients.len()
        invariant
            i <= ingredients@.len(),
            ingredient_models(copy@) == ingredient_models(ingredients@).subrange(0, i as int),
        decreases ingredients.len() - i,
    {
        let item_kind = ingredients[i].item_kind.clone();
        let ghost before = copy@;
        copy.push(CraftIngredient { item_kind, quantity: ingredients[i].quantity });
        proof {
            assert(copy@ == before.push(CraftIngredient { item_kind, quantity: ingredients@[i as int].quantity }));
            assert(ingredient_models(copy@) =~= ingredient_models(before).push((ingredients@[i as int].item_kind@, ingredients@[i as int].quantity)));
            assert(ingredient_models(copy@) =~= ingredient_models(ingredients@).subrange(0, i + 1));
        }
        i = i + 1;
    }
    proof {
        assert(ingredient_models(ingredients@).subrange(0, ingredients@.len() as int) =~= ingredient_models(ingredients@));
    }
    copy
}

/// Index of the last recipe with id `id`, if any.
pub fn last_recipe_index(recipes: &Vec<Recipe>, id: u128) -> (found: Option<usize>)
    ensures
        match found {
            Some(r) => last_recipe(recipes@, id, recipes@.len() as int) == Some(r as int),
            None => last_recipe(recipes@, id, recipes@.len() as int) is None,
        },
{
    let mut n: usize = recipes.len();
    while n > 0
        invariant
            n <= recipes@.len(),
            last_recipe(recipes@, id, recipes@.len() as int) == last_recipe(recipes@, id, n as int),
        decreases n,
    {
        if recipes[n - 1].id == id {
            return Some(n - 1);
        }
        n = n - 1;
    }
    None
}

/// Listed nodes whose parents lie below `len` match the same way in any
/// list of stored nodes that agrees on the first `len`.
pub proof fn lemma_listed_frame(stored: NewCraftJobNode, entry: ListedNode, parent_id: Option<u128>, a: Seq<NewCraftJobNode>, b: Seq<NewCraftJobNode>, len: int, recipes: Seq<Recipe>)
    requires
        0 <= len <= a.len(),
        len <= b.len(),
        a.subrange(0, len) == b.subrange(0, len),
        entry.parent is None || parent_in(entry, 0, len),
    ensures
        listed_matches(stored, entry, parent_id, a, recipes) == listed_matches(stored, entry, parent_id, b, recipes),
{
    if let Some(p) = entry.parent {
        assert(a[p] == a.subrange(0, len)[p]);
        assert(b[p] == b.subrange(0, len)[p]);
    }
}

/// Appends the stored nodes for the plan subtree of `node` to `nodes`, in
/// listing order (see [`listing`]): the node first, under `parent_id` at
/// `child_order`, each with a fresh random id, then its children's subtrees,
/// each child under its parent's id at its index. Fails with the first thing
/// in listing order that stops a node from being stored (see [`queue_error`]).
pub fn append_execution_node(
    node: &CraftNode,
    parent_id: Option<u128>,
    child_order: i32,
    recipes: &Vec<Recipe>,
    nodes: &mut Vec<NewCraftJobNode>,
) -> (result: Result<(), QueueError>)
    ensures
        match queue_error(node.model(), recipes@) {
            Some(e) => match result {
                Err(err) => err.model() == e,
                Ok(()) => false,
            },
            None => result is Ok && appended(old(nodes)@, final(nodes)@, listing(node.model(), None, child_order as int,
                old(nodes)@.len() as int), parent_id, recipes@),
        },
    decreases node,
{
    let ghost base = nodes@.len() as int;
    let ghost m = node.model();
    assert(m.kind == node.kind.model());
    assert(m.key == node.key@ && m.item_kind == node.item_kind@ && m.quantity == node.quantity);
    let id = new_uuid();
    let kind = match &node.kind {
        CraftNodeKind::Recipe { recipe_id, crafts, output_yield, .. } => {
            let parsed = match parse_uuid(recipe_id.as_str()) {
                None => {
                    return Err(QueueError::InvalidRecipeId { text: recipe_id.clone() });
                },
                Some(parsed) => parsed,
            };
            let r = match last_recipe_index(recipes, parsed) {
                None => {
                    return Err(QueueError::RecipeDisappeared { recipe_id: parsed });
                },
                Some(r) => r,
            };
            proof {
                lemma_last_recipe(recipes@, parsed, recipes@.len() as int);
            }
            if recipes[r].output_yield != *output_yield {
                return Err(QueueError::RecipeChanged { recipe_id: parsed });
            }
            NewCraftJobNodeKind::Recipe(CraftRecipeSnapshot {
                recipe_id: parsed,
                engine_type: recipes[r].engine_type,
                ingredients: copy_ingredients(&recipes[r].ingredients),
                planned_crafts: *crafts,
                output_yield: *output_yield,
            })
        },
        CraftNodeKind::Storage { .. } => NewCraftJobNodeKind::Storage,
        CraftNodeKind::Any => NewCraftJobNodeKind::Any,
        _ => {
            return Err(QueueError::UnresolvedChoices);
        },
    };
    let stored = NewCraftJobNode {
        spec: CraftNodeSpec { id, key: node.key.clone(), item_kind: node.item_kind.clone(), required_quantity: node.quantity },
        parent_id,
        child_order,
        kind,
    };
    let ghost root = ListedNode { node: m, parent: None, order: child_order as int };
    assert(listed_matches(stored, root, parent_id, nodes@.push(stored), recipes@));
    nodes.push(stored);
    proof {
        assert(nodes@.subrange(0, base) =~= old(nodes)@);
        assert(children_listing(m.children, 0, base, base + 1) =~= Seq::<ListedNode>::empty());
    }
    let mut i: usize = 0;
    while i < node.children.len()
        invariant
            i <= node.children@.len(),
            m == node.model(),
            m.children.len() == node.children@.len(),
            base == old(nodes)@.len(),
            root == (ListedNode { node: m, parent: None, order: child_order as int }),
            own_queue_error(m, recipes@) is None,
            queue_error(m, recipes@) == children_queue_error(m.children, i as int, recipes@),
            nodes@.len() == base + 1 + children_listing(m.children, i as int, base, base + 1).len(),
            nodes@.subrange(0, base) == old(nodes)@,
            nodes@[base].spec.id == id,
            listed_matches(nodes@[base], root, parent_id, nodes@, recipes@),
            forall|j: int| 0 <= j < children_listing(m.children, i as int, base, base + 1).len()
                ==> listed_matches(#[trigger] nodes@[base + 1 + j], children_listing(m.children, i as int, base, base + 1)[j],
                    parent_id, nodes@, recipes@),
        decreases node.children.len() - i,
    {
        if i > i32::MAX as usize {
            return Err(QueueError::TooManyChildren);
        }
        let ghost before = nodes@;
        let ghost prev = children_listing(m.children, i as int, base, base + 1);
        assert(m.children[i as int] == node.children@[i as int].model());
        match append_execution_node(&node.children[i], Some(id), i as i32, recipes, nodes) {
            Err(e) => {
                return Err(e);
            },
            Ok(()) => {},
        }
        proof {
            let child = m.children[i as int];
            let start = base + 1 + prev.len();
            let mine = listing(child, None, i as int, start);
            let theirs = listing(child, Some(base), i as int, start);
            let next = children_listing(m.children, i + 1, base, base + 1);
            assert(next == prev + theirs);
            lemma_listing_parents(child, Some(base), i as int, start);
            lemma_children_listing_parents(m.children, i as int, base, base + 1);
            assert(nodes@.subrange(0, before.len() as int) == before);
            assert(before.subrange(0, before.len() as int) =~= before);
            assert(nodes@.subrange(0, base) =~= old(nodes)@) by {
                assert(nodes@.subrange(0, base) =~= before.subrange(0, base));
            }
            assert(nodes@[base] == before[base]);
            lemma_listed_frame(nodes@[base], root, parent_id, before, nodes@, before.len() as int, recipes@);
            assert forall|j: int| 0 <= j < next.len()
                implies listed_matches(#[trigger] nodes@[base + 1 + j], next[j], parent_id, nodes@, recipes@) by {
                if j < prev.len() {
                    assert(next[j] == prev[j]);
                    assert(nodes@[base + 1 + j] == before[base + 1 + j]);
                    assert(parent_in(prev[j], base, base + 1 + j));
                    lemma_listed_frame(before[base + 1 + j], prev[j], parent_id, before, nodes@, before.len() as int, recipes@);
                } else {
                    let t = j - prev.len();
                    assert(next[j] == theirs[t]);
                    assert(nodes@[base + 1 + j] == nodes@[before.len() + t]);
                    assert(listed_matches(nodes@[before.len() + t], mine[t], Some(id), nodes@, recipes@));
                    if t == 0 {
                        assert(mine[0] == (ListedNode { node: child, parent: None, order: i as int }));
                        assert(theirs[0] == (ListedNode { node: child, parent: Some(base), order: i as int }));
                    } else {
                        assert(mine[t] == theirs[t]);
                    }
                }
            }
        }
        i = i + 1;
    }
    proof {
        let kids = children_listing(m.children, m.children.len() as int, base, base + 1);
        let all = listing(m, None, child_order as int, base);
        assert(all == seq![root] + kids);
        assert forall|j: int| 0 <= j < all.len()
            implies listed_matches(#[trigger] nodes@[base + j], all[j], parent_id, nodes@, recipes@) by {
            if j == 0 {
                assert(all[0] == root);
            } else {
                assert(all[j] == kids[j - 1]);
                assert(nodes@[base + j] == nodes@[base + 1 + (j - 1)]);
            }
        }
    }
    Ok(())
}

/// The stored nodes for a whole plan, listed from its root, which has no parent.
pub fn execution_nodes_from_recipes(root: &CraftNode, recipes: &Vec<Recipe>) -> (result: Result<Vec<NewCraftJobNode>, QueueError>)
    ensures
        match queue_error(root.model(), recipes@) {
            Some(e) => match result {
                Err(err) => err.model() == e,
                Ok(_) => false,
            },
            None => match result {
                Ok(nodes) => appended(Seq::empty(), nodes@, listing(root.model(), None, 0, 0), None, recipes@),
                Err(_) => false,
            },
        },
{
    let mut nodes: Vec<NewCraftJobNode> = Vec::new();
    match append_execution_node(root, None, 0, recipes, &mut nodes) {
        Err(e) => Err(e),
        Ok(()) => Ok(nodes),
    }
}

} // verus!
