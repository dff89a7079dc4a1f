//! The execution tree of a stored craft job: its node records put back
//! together, each node under its parent, siblings in their stored order,
//! with the progress of each node and of its current operation.
use crate::craft_job::{
    CraftJobOperationRecord, CraftNodeKind, CraftNodeSpec, CraftNodeState, CraftOperationKind, CraftOperationState,
    CraftRecipeSnapshot,
};
use crate::crafting::{CraftIngredient, CraftingEngineType};
use crate::ids::{concat, uuid_text, uuid_to_string};
use crate::sorting::{lemma_stable_sorted_len, stable_sort, stable_sorted, SortKey};
use vstd::prelude::*;

verus! {

/// A stored node of a craft job.
#[derive(Debug)]
pub struct CraftJobNodeRecord {
    pub spec: CraftNodeSpec,
    pub parent_id: Option<u128>,
    pub child_order: i32,
    pub completed_quantity: i32,
    pub state: CraftNodeState,
    pub assigned_region_id: Option<u128>,
    pub error: Option<String>,
    pub kind: CraftJobNodeData,
    pub operation: Option<CraftJobOperationRecord>,
}

/// What a stored node does, with its recipe's progress.
#[derive(Debug)]
pub enum CraftJobNodeData {
    Recipe { recipe: CraftRecipeSnapshot, completed_crafts: u32 },
    Storage,
    Any,
}

/// A node of a craft job as it is shown: its progress, its current
/// operation and its children.
#[derive(Debug)]
pub struct CraftExecutionNode {
    pub key: String,
    pub item_kind: String,
    pub required_quantity: u32,
    pub completed_quantity: u32,
    pub state: String,
    pub assigned_region_id: Option<String>,
    pub error: Option<String>,
    pub operation: Option<CraftExecutionOperation>,
    pub children: Vec<CraftExecutionNode>,
    pub kind: CraftExecutionNodeKind,
}

/// The current operation of a shown node.
#[derive(Debug)]
pub struct CraftExecutionOperation {
    pub kind: String,
    pub state: String,
    pub completed_amount: u32,
    pub error: Option<String>,
}

/// What a shown node does.
#[derive(Debug)]
pub enum CraftExecutionNodeKind {
    Recipe { recipe_id: String, engine_type: String, planned_crafts: u32, completed_crafts: u32, output_yield: u32 },
    Storage,
    Any,
}

/// A craft job's status with its execution tree.
#[derive(Debug)]
pub struct CraftJobDetail {
    pub job: crate::craft_job::CraftJobStatus,
    pub root: CraftExecutionNode,
}

/// Why the records of a craft job do not make a tree.
#[derive(Debug, Clone, Copy, PartialEq, Eq, Structural)]
pub enum TreeError {
    /// Not exactly one record lacks a parent.
    NotOneRoot,
    /// A node is missing, or is reached a second time.
    NodeNotFound { id: u128 },
    /// A stored progress count is negative.
    OutOfRange,
}

/// The text of a tree error.
pub open spec fn tree_error_text(error: TreeError) -> Seq<char> {
    match error {
        TreeError::NotOneRoot => "craft job must have exactly one root node"@,
        TreeError::NodeNotFound { id } => "craft node "@ + uuid_text(id) + " was not found"@,
        TreeError::OutOfRange => "out of range integral type conversion attempted"@,
    }
}

impl TreeError {
    /// The error's text.
    pub fn message(&self) -> (text: String)
        ensures
            text@ == tree_error_text(*self),
    {
        match self {
            TreeError::NotOneRoot => String::from_str("craft job must have exactly one root node"),
            TreeError::NodeNotFound { id } => {
                let id_text = uuid_to_string(*id);
                let head = concat("craft node ", id_text.as_str());
                concat(head.as_str(), " was not found")
            },
            TreeError::OutOfRange => String::from_str("out of range integral type conversion attempted"),
        }
    }
}

/// Mathematical model of a [`CraftExecutionNode`].
pub struct NodeView {
    pub key: Seq<char>,
    pub item_kind: Seq<char>,
    pub required_quantity: u32,
    pub completed_quantity: u32,
    pub state: Seq<char>,
    pub assigned_region_id: Option<Seq<char>>,
    pub error: Option<Seq<char>>,
    pub operation: Option<OperationView>,
    pub children: Seq<NodeView>,
    pub kind: KindView,
}

/// Mathematical model of a [`CraftExecutionOperation`].
pub struct OperationView {
    pub kind: Seq<char>,
    pub state: Seq<char>,
    pub completed_amount: u32,
    pub error: Option<Seq<char>>,
}

/// Mathematical model of a [`CraftExecutionNodeKind`].
pub enum KindView {
    Recipe { recipe_id: Seq<char>, engine_type: Seq<char>, planned_crafts: u32, completed_crafts: u32, output_yield: u32 },
    Storage,
    Any,
}

/// The text of an optional string.
pub open spec fn opt_text(text: Option<String>) -> Option<Seq<char>> {
    match text {
        Some(t) => Some(t@),
        None => None,
    }
}

impl CraftExecutionOperation {
    pub open spec fn view(&self) -> OperationView {
        OperationView { kind: self.kind@, state: self.state@, completed_amount: self.completed_amount, error: opt_text(self.error) }
    }
}

impl CraftExecutionNodeKind {
    pub open spec fn view(&self) -> KindView {
        match self {
            CraftExecutionNodeKind::Recipe { recipe_id, engine_type, planned_crafts, completed_crafts, output_yield } => KindView::Recipe {
                recipe_id: recipe_id@,
                engine_type: engine_type@,
                planned_crafts: *planned_crafts,
                completed_crafts: *completed_crafts,
                output_yield: *output_yield,
            },
            CraftExecutionNodeKind::Storage => KindView::Storage,
            CraftExecutionNodeKind::Any => KindView::Any,
        }
    }
}

impl CraftExecutionNode {
    /// The model of this node and its subtree.
    pub open spec fn model(&self) -> NodeView
        decreases self,
    {
        NodeView {
            key: self.key@,
            item_kind: self.item_kind@,
            required_quantity: self.required_quantity,
            completed_quantity: self.completed_quantity,
            state: self.state@,
            assigned_region_id: match self.assigned_region_id {
                Some(t) => Some(t@),
                None => None,
            },
            error: opt_text(self.error),
            operation: match self.operation {
                Some(op) => Some(op.view()),
                None => None,
            },
            children: Seq::new(
                self.children@.len(),
                |i: int|
                    if 0 <= i < self.children@.len() {
                        self.children@[i].model()
                    } else {
                        arbitrary()
                    },
            ),
            kind: self.kind.view(),
        }
    }
}

/// Models of a sequence of shown nodes.
pub open spec fn node_views(nodes: Seq<CraftExecutionNode>) -> Seq<NodeView> {
    Seq::new(nodes.len(), |i: int| nodes[i].model())
}

/// A child of a node: its stored order among its siblings, and its id.
#[derive(Debug, Clone, Copy)]
pub struct ChildRef {
    pub order: i32,
    pub id: u128,
}

impl SortKey for ChildRef {
    open spec fn sorts_before(self, other: Self) -> bool {
        self.order < other.order
    }

    fn before(&self, other: &Self) -> (before: bool) {
        self.order < other.order
    }
}

/// The index of the record that stands for `id`: the last one with that id
/// among `records[..n]` (a later record replaces an earlier one).
pub open spec fn record_index(records: Seq<CraftJobNodeRecord>, id: u128, n: int) -> Option<int>
    decreases n,
{
    if n <= 0 {
        None
    } else if records[n - 1].spec.id == id {
        Some(n - 1)
    } else {
        record_index(records, id, n - 1)
    }
}

pub proof fn lemma_record_index(records: Seq<CraftJobNodeRecord>, id: u128, n: int)
    ensures
        record_index(records, id, n) matches Some(i) ==> 0 <= i < n && records[i].spec.id == id,
    decreases n,
{
    if n > 0 && records[n - 1].spec.id != id {
        lemma_record_index(records, id, n - 1);
    }
}

/// The children of `id` among `records[..n]`, in the order of the records.
pub open spec fn child_refs(records: Seq<CraftJobNodeRecord>, id: u128, n: int) -> Seq<ChildRef>
    decreases n,
{
    if n <= 0 {
        Seq::empty()
    } else {
        let r = records[n - 1];
        let earlier = child_refs(records, id, n - 1);
        if r.parent_id == Some(id) {
            earlier.push(ChildRef { order: r.child_order, id: r.spec.id })
        } else {
            earlier
        }
    }
}

/// The children of `id`, stably sorted by their stored order.
pub open spec fn children_of(records: Seq<CraftJobNodeRecord>, id: u128) -> Seq<ChildRef> {
    let refs = child_refs(records, id, records.len() as int);
    stable_sorted(refs, refs.len() as int)
}

/// The number of records not yet taken.
pub open spec fn count_present(present: Seq<bool>) -> nat
    decreases present.len(),
{
    if present.len() == 0 {
        0
    } else {
        count_present(present.drop_last()) + if present.last() { 1nat } else { 0nat }
    }
}

pub proof fn lemma_count_take(present: Seq<bool>, i: int)
    requires
        0 <= i < present.len(),
        present[i],
    ensures
        count_present(present.update(i, false)) + 1 == count_present(present),
    decreases present.len(),
{
    let updated = present.update(i, false);
    if i < present.len() - 1 {
        assert(updated.drop_last() =~= present.drop_last().update(i, false));
        lemma_count_take(present.drop_last(), i);
    } else {
        assert(updated.drop_last() =~= present.drop_last());
    }
}

/// What a record shows as, over the models of its children: fails when a
/// stored progress count is negative.
pub open spec fn record_view(r: CraftJobNodeRecord, children: Seq<NodeView>) -> Result<NodeView, TreeError> {
    let operation: Result<Option<OperationView>, TreeError> = match r.operation {
        None => Ok(None),
        Some(op) => if op.completed_amount < 0 {
            Err(TreeError::OutOfRange)
        } else {
            Ok(Some(OperationView {
                kind: op.kind.name(),
                state: op.state.name(),
                completed_amount: op.completed_amount as u32,
                error: opt_text(op.error),
            }))
        },
    };
    match operation {
        Err(e) => Err(e),
        Ok(operation) => if r.completed_quantity < 0 {
            Err(TreeError::OutOfRange)
        } else {
            Ok(NodeView {
                key: r.spec.key@,
                item_kind: r.spec.item_kind@,
                required_quantity: r.spec.required_quantity,
                completed_quantity: r.completed_quantity as u32,
                state: r.state.name(),
                assigned_region_id: match r.assigned_region_id {
                    Some(id) => Some(uuid_text(id)),
                    None => None,
                },
                error: opt_text(r.error),
                operation,
                children,
                kind: match r.kind {
                    CraftJobNodeData::Recipe { recipe, completed_crafts } => KindView::Recipe {
                        recipe_id: uuid_text(recipe.recipe_id),
                        engine_type: recipe.engine_type.name(),
                        planned_crafts: recipe.planned_crafts,
                        completed_crafts,
                        output_yield: recipe.output_yield,
                    },
                    CraftJobNodeData::Storage => KindView::Storage,
                    CraftJobNodeData::Any => KindView::Any,
                },
            })
        },
    }
}

/// Building the subtree of `id` from the records still `present`: the
/// node's record is taken (it is missing when none stands for `id` or it was
/// taken already), then its children are built in order, then the node.
/// Returns the result and the records left.
pub open spec fn build_tree(records: Seq<CraftJobNodeRecord>, present: Seq<bool>, id: u128) -> (Result<NodeView, TreeError>, Seq<bool>)
    decreases count_present(present), 0nat, 0nat,
{
    match record_index(records, id, records.len() as int) {
        None => (Err(TreeError::NodeNotFound { id }), present),
        Some(i) => if !(0 <= i < present.len()) || !present[i] {
            (Err(TreeError::NodeNotFound { id }), present)
        } else {
            let taken = present.update(i, false);
            proof {
                lemma_count_take(present, i);
            }
            let (children, left) = build_children(records, taken, children_of(records, id), 0);
            match children {
                Err(e) => (Err(e), left),
                Ok(views) => (record_view(records[i], views), left),
            }
        },
    }
}

/// Building the subtrees of `kids[i..]` in order, stopping at the first error.
pub open spec fn build_children(records: Seq<CraftJobNodeRecord>, present: Seq<bool>, kids: Seq<ChildRef>, i: int) -> (Result<Seq<NodeView>, TreeError>, Seq<bool>)
    decreases count_present(present), 1nat, kids.len() - i,
{
    if i < 0 || i >= kids.len() {
        (Ok(Seq::empty()), present)
    } else {
        let (first, left) = build_tree(records, present, kids[i].id);
        if count_present(left) > count_present(present) {
            (Ok(Seq::empty()), present)
        } else {
            match first {
                Err(e) => (Err(e), left),
                Ok(view) => {
                    let (rest, last) = build_children(records, left, kids, i + 1);
                    match rest {
                        Err(e) => (Err(e), last),
                        Ok(views) => (Ok(seq![view] + views), last),
                    }
                },
            }
        }
    }
}

/// Building never gives records back, and keeps their number of flags.
pub proof fn lemma_build_tree_takes(records: Seq<CraftJobNodeRecord>, present: Seq<bool>, id: u128)
    ensures
        count_present(build_tree(records, present, id).1) <= count_present(present),
        build_tree(records, present, id).1.len() == present.len(),
    decreases count_present(present), 0nat, 0nat,
{
    match record_index(records, id, records.len() as int) {
        None => {},
        Some(i) => if 0 <= i < present.len() && present[i] {
            let taken = present.update(i, false);
            lemma_count_take(present, i);
            lemma_build_children_takes(records, taken, children_of(records, id), 0);
        },
    }
}

pub proof fn lemma_build_children_takes(records: Seq<CraftJobNodeRecord>, present: Seq<bool>, kids: Seq<ChildRef>, i: int)
    ensures
        count_present(build_children(records, present, kids, i).1) <= count_present(present),
        build_children(records, present, kids, i).1.len() == present.len(),
    decreases count_present(present), 1nat, kids.len() - i,
{
    if 0 <= i < kids.len() {
        let (first, left) = build_tree(records, present, kids[i].id);
        lemma_build_tree_takes(records, present, kids[i].id);
        if first is Ok {
            lemma_build_children_takes(records, left, kids, i + 1);
        }
    }
}

/// The ids of the records without a parent.
pub open spec fn root_ids(records: Seq<CraftJobNodeRecord>, n: int) -> Seq<u128>
    decreases n,
{
    if n <= 0 {
        Seq::empty()
    } else if records[n - 1].parent_id is None {
        root_ids(records, n - 1).push(records[n - 1].spec.id)
    } else {
        root_ids(records, n - 1)
    }
}

/// The execution tree of a craft job's records: built from the one record
/// without a parent, with every record present.
pub open spec fn execution_tree_view(records: Seq<CraftJobNodeRecord>) -> Result<NodeView, TreeError> {
    let roots = root_ids(records, records.len() as int);
    if roots.len() != 1 {
        Err(TreeError::NotOneRoot)
    } else {
        build_tree(records, Seq::new(records.len(), |i: int| true), roots[0]).0
    }
}

/// The model of a built node, or the error.
pub open spec fn tree_result(result: Result<CraftExecutionNode, TreeError>) -> Result<NodeView, TreeError> {
    match result {
        Ok(node) => Ok(node.model()),
        Err(e) => Err(e),
    }
}

/// Children built so far, before the result of building the rest.
pub open spec fn prepend_views(done: Seq<NodeView>, rest: (Result<Seq<NodeView>, TreeError>, Seq<bool>)) -> (Result<Seq<NodeView>, TreeError>, Seq<bool>) {
    (
        match rest.0 {
            Err(e) => Err(e),
            Ok(views) => Ok(done + views),
        },
        rest.1,
    )
}

fn copy_text(text: &Option<String>) -> (copy: Option<String>)
    ensures
        opt_text(copy) == opt_text(*text),
{
    match text {
        Some(t) => Some(t.clone()),
        None => None,
    }
}

/// The index of the record that stands for `id`.
fn find_record(records: &Vec<CraftJobNodeRecord>, id: u128) -> (found: Option<usize>)
    ensures
        match found {
            Some(i) => record_index(records@, id, records@.len() as int) == Some(i as int),
            None => record_index(records@, id, records@.len() as int) is None,
        },
{
    let mut n = records.len();
    while n > 0
        invariant
            n <= records@.len(),
            record_index(records@, id, records@.len() as int) == record_index(records@, id, n as int),
        decreases n,
    {
        if records[n - 1].spec.id == id {
            return Some(n - 1);
        }
        n = n - 1;
    }
    None
}

/// The children of `id`, in the order of the records.
fn find_children(records: &Vec<CraftJobNodeRecord>, id: u128) -> (refs: Vec<ChildRef>)
    ensures
        refs@ == child_refs(records@, id, records@.len() as int),
{
    let mut refs: Vec<ChildRef> = Vec::new();
    let mut n: usize = 0;
    while n < records.len()
        invariant
            n <= records@.len(),
            refs@ == child_refs(records@, id, n as int),
        decreases records.len() - n,
    {
        if records[n].parent_id == Some(id) {
            refs.push(ChildRef { order: records[n].child_order, id: records[n].spec.id });
        }
        n = n + 1;
    }
    refs
}

/// The shown node of `record` over its built `children`; fails when a
/// stored progress count is negative.
fn show_record(record: &CraftJobNodeRecord, children: Vec<CraftExecutionNode>) -> (result: Result<CraftExecutionNode, TreeError>)
    ensures
        tree_result(result) == record_view(*record, node_views(children@)),
{
    let kind = match &record.kind {
        CraftJobNodeData::Recipe { recipe, completed_crafts } => CraftExecutionNodeKind::Recipe {
            recipe_id: uuid_to_string(recipe.recipe_id),
            engine_type: String::from_str(recipe.engine_type.as_str()),
            planned_crafts: recipe.planned_crafts,
            completed_crafts: *completed_crafts,
            output_yield: recipe.output_yield,
        },
        CraftJobNodeData::Storage => CraftExecutionNodeKind::Storage,
        CraftJobNodeData::Any => CraftExecutionNodeKind::Any,
    };
    let operation = match &record.operation {
        Some(op) => {
            if op.completed_amount < 0 {
                return Err(TreeError::OutOfRange);
            }
            Some(CraftExecutionOperation {
                kind: String::from_str(op.kind.as_str()),
                state: String::from_str(op.state.as_str()),
                completed_amount: op.completed_amount as u32,
                error: copy_text(&op.error),
            })
        },
        None => None,
    };
    if record.completed_quantity < 0 {
        return Err(TreeError::OutOfRange);
    }
    let assigned_region_id = match record.assigned_region_id {
        Some(id) => Some(uuid_to_string(id)),
        None => None,
    };
    let ghost built = children@;
    let node = CraftExecutionNode {
        key: record.spec.key.clone(),
        item_kind: record.spec.item_kind.clone(),
        required_quantity: record.spec.required_quantity,
        completed_quantity: record.completed_quantity as u32,
        state: String::from_str(record.state.as_str()),
        assigned_region_id,
        error: copy_text(&record.error),
        operation,
        children,
        kind,
    };
    assert(node.model().children =~= node_views(built));
    Ok(node)
}

/// Builds the subtree of `id` from the records still `present` (see
/// [`build_tree`]), taking the records it uses.
fn build_subtree(records: &Vec<CraftJobNodeRecord>, present: &mut Vec<bool>, id: u128) -> (result: Result<CraftExecutionNode, TreeError>)
    requires
        old(present)@.len() == records@.len(),
    ensures
        (tree_result(result), final(present)@) == build_tree(records@, old(present)@, id),
    decreases count_present(old(present)@),
{
    let found = find_record(records, id);
    let i = match found {
        Some(i) => i,
        None => {
            return Err(TreeError::NodeNotFound { id });
        },
    };
    proof {
        lemma_record_index(records@, id, records@.len() as int);
    }
    if !present[i] {
        return Err(TreeError::NodeNotFound { id });
    }
    proof {
        lemma_count_take(present@, i as int);
    }
    present.set(i, false);
    let ghost taken = present@;
    let unsorted = find_children(records, id);
    let kids = stable_sort(&unsorted);
    let mut children: Vec<CraftExecutionNode> = Vec::new();
    let mut k: usize = 0;
    while k < kids.len()
        invariant
            k <= kids@.len(),
            kids@ == children_of(records@, id),
            record_index(records@, id, records@.len() as int) == Some(i as int),
            i < old(present)@.len(),
            old(present)@[i as int],
            taken == old(present)@.update(i as int, false),
            present@.len() == records@.len(),
            count_present(present@) < count_present(old(present)@),
            build_children(records@, taken, kids@, 0) == prepend_views(node_views(children@), build_children(records@, present@, kids@, k as int)),
        decreases kids.len() - k,
    {
        let ghost before = present@;
        let ghost done = node_views(children@);
        proof {
            lemma_build_tree_takes(records@, before, kids@[k as int].id);
        }
        let child = build_subtree(records, present, kids[k].id);
        match child {
            Err(e) => {
                proof {
                    assert(build_children(records@, before, kids@, k as int) == (Err::<Seq<NodeView>, TreeError>(e), present@));
                    assert(build_children(records@, taken, kids@, 0) == (Err::<Seq<NodeView>, TreeError>(e), present@));
                }
                return Err(e);
            },
            Ok(node) => {
                let ghost view = node.model();
                let ghost rest = build_children(records@, present@, kids@, k + 1);
                proof {
                    assert(build_children(records@, before, kids@, k as int) == prepend_views(seq![view], rest));
                    match rest.0 {
                        Ok(views) => {
                            assert(done + (seq![view] + views) =~= (done + seq![view]) + views);
                        },
                        Err(_) => {},
                    }
                }
                children.push(node);
                proof {
                    assert(node_views(children@) =~= done + seq![view]);
                }
            },
        }
        k = k + 1;
    }
    proof {
        assert(build_children(records@, present@, kids@, k as int) == (Ok::<Seq<NodeView>, TreeError>(Seq::empty()), present@));
        assert(node_views(children@) + Seq::<NodeView>::empty() =~= node_views(children@));
    }
    show_record(&records[i], children)
}

/// Rebuilds the execution tree of a craft job from its stored node records:
/// the one record without a parent is the root; each node's children are
/// the records naming it as parent, in their stored order (records of equal
/// order keep theirs). A later record with an id replaces an earlier one.
/// Fails when not exactly one record lacks a parent, when a node is
/// missing or reached twice, or when a stored progress count is negative.
pub fn execution_tree(records: Vec<CraftJobNodeRecord>) -> (result: Result<CraftExecutionNode, TreeError>)
    ensures
        tree_result(result) == execution_tree_view(records@),
{
    let mut roots: Vec<u128> = Vec::new();
    let mut n: usize = 0;
    while n < records.len()
        invariant
            n <= records@.len(),
            roots@ == root_ids(records@, n as int),
        decreases records.len() - n,
    {
        if records[n].parent_id.is_none() {
            roots.push(records[n].spec.id);
        }
        n = n + 1;
    }
    if roots.len() != 1 {
        return Err(TreeError::NotOneRoot);
    }
    let mut present: Vec<bool> = Vec::new();
    let mut m: usize = 0;
    while m < records.len()
        invariant
            m <= records@.len(),
            present@ =~= Seq::new(m as nat, |i: int| true),
        decreases records.len() - m,
    {
        present.push(true);
        m = m + 1;
    }
    build_subtree(&records, &mut present, roots[0])
}

/// A stored node row as the database gives it, with its recipe's ingredients
/// already read from their JSON form (`None` when the column is empty, an
/// error text when it does not parse).
#[derive(Debug)]
pub struct CraftJobNodeRow {
    pub id: u128,
    pub parent_id: Option<u128>,
    pub key: String,
    pub child_order: i32,
    pub kind: CraftNodeKind,
    pub item_kind: String,
    pub required_quantity: i32,
    pub completed_quantity: i32,
    pub state: CraftNodeState,
    pub recipe_id: Option<u128>,
    pub engine_type: Option<CraftingEngineType>,
    pub planned_crafts: Option<i32>,
    pub completed_crafts: i32,
    pub output_yield: Option<i32>,
    pub recipe_ingredients: Option<Result<Vec<CraftIngredient>, String>>,
    pub assigned_region_id: Option<u128>,
    pub error: Option<String>,
    pub operation_kind: Option<CraftOperationKind>,
    pub operation_state: Option<CraftOperationState>,
    pub operation_completed_amount: Option<i32>,
    pub operation_error: Option<String>,
}

/// Why a stored node row is not a node record.
#[derive(Debug)]
pub enum RowError {
    /// The row of a `kind` node with this key lacks a value, or a valid one.
    Missing { kind: CraftNodeKind, key: String, field: String },
    /// The recipe's ingredients do not parse.
    Protocol { message: String },
    /// The row has an operation kind without a state, or the reverse.
    IncompleteOperation,
}

/// What is wrong with a row, first found first.
pub enum RowProblem {
    Missing(Seq<char>),
    Protocol(Seq<char>),
    IncompleteOperation,
}

/// The first problem of a row, checked in this order: for a recipe node its
/// recipe id, engine type, ingredients (present, then parsed), planned
/// crafts (present, then not negative), output yield (likewise) and
/// completed crafts (not negative); then that operation kind and state come
/// together; then that the required quantity is not negative.
pub open spec fn row_problem(row: CraftJobNodeRow) -> Option<RowProblem> {
    let recipe_problem: Option<RowProblem> = if row.kind == CraftNodeKind::Recipe {
        if row.recipe_id is None {
            Some(RowProblem::Missing("recipe id"@))
        } else if row.engine_type is None {
            Some(RowProblem::Missing("engine type"@))
        } else if row.recipe_ingredients is None {
            Some(RowProblem::Missing("recipe ingredients"@))
        } else if row.recipe_ingredients->0 is Err {
            Some(RowProblem::Protocol(row.recipe_ingredients->0->Err_0@))
        } else if row.planned_crafts is None {
            Some(RowProblem::Missing("planned crafts"@))
        } else if row.planned_crafts->0 < 0 {
            Some(RowProblem::Missing("valid planned crafts"@))
        } else if row.output_yield is None {
            Some(RowProblem::Missing("output yield"@))
        } else if row.output_yield->0 < 0 {
            Some(RowProblem::Missing("valid output yield"@))
        } else if row.completed_crafts < 0 {
            Some(RowProblem::Missing("valid completed crafts"@))
        } else {
            None
        }
    } else {
        None
    };
    if recipe_problem is Some {
        recipe_problem
    } else if row.operation_kind is Some != row.operation_state is Some {
        Some(RowProblem::IncompleteOperation)
    } else if row.required_quantity < 0 {
        Some(RowProblem::Missing("valid required quantity"@))
    } else {
        None
    }
}

/// The text of a row error.
pub open spec fn row_error_text(error: RowError) -> Seq<char> {
    match error {
        RowError::Missing { kind, key, field } => kind.name() + " node "@ + key@ + " has no "@ + field@,
        RowError::Protocol { message } => message@,
        RowError::IncompleteOperation => "incomplete craft operation row"@,
    }
}

impl RowError {
    /// The error's text.
    pub fn message(&self) -> (text: String)
        ensures
            text@ == row_error_text(*self),
    {
        match self {
            RowError::Missing { kind, key, field } => {
                let head = concat(kind.as_str(), " node ");
                let with_key = concat(head.as_str(), key.as_str());
                let with_has = concat(with_key.as_str(), " has no ");
                concat(with_has.as_str(), field.as_str())
            },
            RowError::Protocol { message } => message.clone(),
            RowError::IncompleteOperation => String::from_str("incomplete craft operation row"),
        }
    }
}

/// Whether an error is the one a row's problem gives.
pub open spec fn error_matches(error: RowError, row: CraftJobNodeRow, problem: RowProblem) -> bool {
    match problem {
        RowProblem::Missing(field) => error matches RowError::Missing { kind, key, field: f }
            && kind == row.kind && key@ == row.key@ && f@ == field,
        RowProblem::Protocol(message) => error matches RowError::Protocol { message: m } && m@ == message,
        RowProblem::IncompleteOperation => error is IncompleteOperation,
    }
}

impl CraftJobNodeRecord {
    /// Reads a stored node row (see [`row_problem`] for what fails). A
    /// stored operation without a completed amount has completed none.
    pub fn try_from_row(row: CraftJobNodeRow) -> (result: Result<CraftJobNodeRecord, RowError>)
        ensures
            match result {
                Err(e) => row_problem(row) matches Some(p) && error_matches(e, row, p),
                Ok(r) => {
                    &&& row_problem(row) is None
                    &&& r.spec.id == row.id
                    &&& r.spec.key == row.key
                    &&& r.spec.item_kind == row.item_kind
                    &&& r.spec.required_quantity == row.required_quantity as u32
                    &&& r.parent_id == row.parent_id
                    &&& r.child_order == row.child_order
                    &&& r.completed_quantity == row.completed_quantity
                    &&& r.state == row.state
                    &&& r.assigned_region_id == row.assigned_region_id
                    &&& r.error == row.error
                    &&& match r.kind {
                        CraftJobNodeData::Recipe { recipe, completed_crafts } => {
                            &&& row.kind == CraftNodeKind::Recipe
                            &&& Some(recipe.recipe_id) == row.recipe_id
                            &&& Some(recipe.engine_type) == row.engine_type
                            &&& row.recipe_ingredients == Some(Ok::<Vec<CraftIngredient>, String>(recipe.ingredients))
                            &&& Some(recipe.planned_crafts as i32) == row.planned_crafts
                            &&& Some(recipe.output_yield as i32) == row.output_yield
                            &&& completed_crafts as i32 == row.completed_crafts
                        },
                        CraftJobNodeData::Storage => row.kind == CraftNodeKind::Storage,
                        CraftJobNodeData::Any => row.kind == CraftNodeKind::Any,
                    }
                    &&& match r.operation {
                        Some(op) => {
                            &&& row.operation_kind == Some(op.kind)
                            &&& row.operation_state == Some(op.state)
                            &&& op.completed_amount == match row.operation_completed_amount {
                                Some(amount) => amount,
                                None => 0,
                            }
                            &&& op.error == row.operation_error
                        },
                        None => row.operation_kind is None && row.operation_state is None,
                    }
                },
            },
    {
        let row_kind = row.kind;
        let kind = match row_kind {
            CraftNodeKind::Recipe => {
                let recipe_id = match row.recipe_id {
                    Some(id) => id,
                    None => {
                        return Err(RowError::Missing { kind: row_kind, key: row.key, field: String::from_str("recipe id") });
                    },
                };
                let engine_type = match row.engine_type {
                    Some(engine) => engine,
                    None => {
                        return Err(RowError::Missing { kind: row_kind, key: row.key, field: String::from_str("engine type") });
                    },
                };
                let ingredients = match row.recipe_ingredients {
                    None => {
                        return Err(RowError::Missing {
                            kind: row_kind,
                            key: row.key,
                            field: String::from_str("recipe ingredients"),
                        });
                    },
                    Some(Err(message)) => {
                        return Err(RowError::Protocol { message });
                    },
                    Some(Ok(ingredients)) => ingredients,
                };
                let planned_crafts = match row.planned_crafts {
                    None => {
                        return Err(RowError::Missing { kind: row_kind, key: row.key, field: String::from_str("planned crafts") });
                    },
                    Some(n) => {
                        if n < 0 {
                            return Err(RowError::Missing {
                                kind: row_kind,
                                key: row.key,
                                field: String::from_str("valid planned crafts"),
                            });
                        }
                        n as u32
                    },
                };
                let output_yield = match row.output_yield {
                    None => {
                        return Err(RowError::Missing { kind: row_kind, key: row.key, field: String::from_str("output yield") });
                    },
                    Some(n) => {
                        if n < 0 {
                            return Err(RowError::Missing {
                                kind: row_kind,
                                key: row.key,
                                field: String::from_str("valid output yield"),
                            });
                        }
                        n as u32
                    },
                };
                if row.completed_crafts < 0 {
                    return Err(RowError::Missing {
                        kind: row_kind,
                        key: row.key,
                        field: String::from_str("valid completed crafts"),
                    });
                }
                CraftJobNodeData::Recipe {
                    recipe: CraftRecipeSnapshot { recipe_id, engine_type, ingredients, planned_crafts, output_yield },
                    completed_crafts: row.completed_crafts as u32,
                }
            },
            CraftNodeKind::Storage => CraftJobNodeData::Storage,
            CraftNodeKind::Any => CraftJobNodeData::Any,
        };
        let operation = match (row.operation_kind, row.operation_state) {
            (Some(kind), Some(state)) => Some(CraftJobOperationRecord {
                kind,
                state,
                completed_amount: match row.operation_completed_amount {
                    Some(amount) => amount,
                    None => 0,
                },
                error: row.operation_error,
            }),
            (None, None) => None,
            _ => {
                return Err(RowError::IncompleteOperation);
            },
        };
        if row.required_quantity < 0 {
            return Err(RowError::Missing { kind: row_kind, key: row.key, field: String::from_str("valid required quantity") });
        }
        Ok(CraftJobNodeRecord {
            spec: CraftNodeSpec {
                id: row.id,
                key: row.key,
                item_kind: row.item_kind,
                required_quantity: row.required_quantity as u32,
            },
            parent_id: row.parent_id,
            child_order: row.child_order,
            completed_quantity: row.completed_quantity,
            state: row.state,
            assigned_region_id: row.assigned_region_id,
            error: row.error,
            kind,
            operation,
        })
    }
}

} // verus!
