//! Searching indexed storage: the query, its sort keys, and the totals
//! reported for an item kind.
use crate::staging::ItemKindStackRow;
use vstd::prelude::*;

verus! {

/// How to search indexed storage.
#[derive(Debug)]
pub struct StorageQuery {
    pub q: Option<String>,
    pub region_id: Option<String>,
    pub min_quantity: Option<i64>,
    pub sort_by: Option<StorageSortBy>,
    pub sort_direction: Option<StorageSortDirection>,
}

/// What storage search results are sorted by.
#[derive(Debug, Clone, Copy, PartialEq, Eq)]
pub enum StorageSortBy {
    Name,
    Quantity,
    Stacks,
    Containers,
}

impl Default for StorageSortBy {
    fn default() -> (sort_by: Self)
        ensures
            sort_by == StorageSortBy::Name,
    {
        StorageSortBy::Name
    }
}

impl StorageSortBy {
    /// The name of the sort key, as the search takes it.
    pub fn as_str(self) -> (name: &'static str)
        ensures
            name@ == match self {
                StorageSortBy::Name => "name"@,
                StorageSortBy::Quantity => "quantity"@,
                StorageSortBy::Stacks => "stacks"@,
                StorageSortBy::Containers => "containers"@,
            },
    {
        match self {
            StorageSortBy::Name => "name",
            StorageSortBy::Quantity => "quantity",
            StorageSortBy::Stacks => "stacks",
            StorageSortBy::Containers => "containers",
        }
    }
}

/// The direction of a storage search's sort.
#[derive(Debug, Clone, Copy, PartialEq, Eq)]
pub enum StorageSortDirection {
    Asc,
    Desc,
}

impl Default for StorageSortDirection {
    fn default() -> (direction: Self)
        ensures
            direction == StorageSortDirection::Asc,
    {
        StorageSortDirection::Asc
    }
}

impl StorageSortDirection {
    /// The name of the direction, as the search takes it.
    pub fn as_str(self) -> (name: &'static str)
        ensures
            name@ == match self {
                StorageSortDirection::Asc => "asc"@,
                StorageSortDirection::Desc => "desc"@,
            },
    {
        match self {
            StorageSortDirection::Asc => "asc",
            StorageSortDirection::Desc => "desc",
        }
    }
}

/// One item kind in storage search results.
#[derive(Debug)]
pub struct StorageItem {
    pub item_kind: String,
    pub quantity: i64,
    pub stack_count: i64,
    pub container_count: i64,
}

/// One row of a storage search.
#[derive(Debug)]
pub struct StorageItemRow {
    pub item_kind: String,
    pub quantity: i64,
    pub stack_count: i64,
    pub container_count: i64,
}

impl StorageItemRow {
    /// The search result for this row, field by field.
    pub fn into_item(self) -> (item: StorageItem)
        ensures
            item.item_kind == self.item_kind,
            item.quantity == self.quantity,
            item.stack_count == self.stack_count,
            item.container_count == self.container_count,
    {
        StorageItem {
            item_kind: self.item_kind,
            quantity: self.quantity,
            stack_count: self.stack_count,
            container_count: self.container_count,
        }
    }
}

/// Sum of the quantities of `rows[..n]`.
pub open spec fn total_quantity<P>(rows: Seq<ItemKindStackRow<P>>, n: int) -> int
    decreases n,
{
    if n <= 0 {
        0
    } else {
        total_quantity(rows, n - 1) + rows[n - 1].quantity
    }
}

/// The distinct container ids of `rows[..n]`.
pub open spec fn containers_of<P>(rows: Seq<ItemKindStackRow<P>>, n: int) -> Set<u128>
    decreases n,
{
    if n <= 0 {
        Set::empty()
    } else {
        containers_of(rows, n - 1).insert(rows[n - 1].container_id)
    }
}

pub proof fn lemma_total_quantity_bounds<P>(rows: Seq<ItemKindStackRow<P>>, n: int)
    requires
        0 <= n <= rows.len(),
    ensures
        n * i32::MIN <= total_quantity(rows, n) <= n * i32::MAX,
    decreases n,
{
    if n > 0 {
        lemma_total_quantity_bounds(rows, n - 1);
    }
}

pub proof fn lemma_containers_of_finite<P>(rows: Seq<ItemKindStackRow<P>>, n: int)
    ensures
        containers_of(rows, n).finite(),
        containers_of(rows, n).len() <= if n < 0 { 0 } else { n },
    decreases n,
{
    if n > 0 {
        lemma_containers_of_finite(rows, n - 1);
    }
}

/// The totals reported for the stacks of an item kind: the sum of their
/// quantities, how many stacks there are, and in how many distinct containers.
pub fn item_kind_totals<P>(rows: &Vec<ItemKindStackRow<P>>) -> (totals: (i64, i64, i64))
    requires
        rows@.len() <= u32::MAX,
    ensures
        totals.0 == total_quantity(rows@, rows@.len() as int),
        totals.1 == rows@.len(),
        totals.2 == containers_of(rows@, rows@.len() as int).len(),
{
    let mut quantity: i64 = 0;
    let mut containers: Vec<u128> = Vec::new();
    let mut i: usize = 0;
    while i < rows.len()
        invariant
            i <= rows@.len(),
            rows@.len() <= u32::MAX,
            quantity == total_quantity(rows@, i as int),
            containers@.to_set() == containers_of(rows@, i as int),
            containers@.no_duplicates(),
            containers@.len() <= i,
        decreases rows.len() - i,
    {
        proof {
            lemma_total_quantity_bounds(rows@, i + 1);
            assert((i + 1) * i32::MAX <= u32::MAX * i32::MAX) by (nonlinear_arith)
                requires i + 1 <= u32::MAX;
            assert((i + 1) * i32::MIN >= u32::MAX * i32::MIN) by (nonlinear_arith)
                requires i + 1 <= u32::MAX;
        }
        quantity = quantity + rows[i].quantity as i64;
        let id = rows[i].container_id;
        let mut seen = false;
        let mut j: usize = 0;
        while j < containers.len()
            invariant
                j <= containers@.len(),
                seen <==> exists|k: int| 0 <= k < j && containers@[k] == id,
            decreases containers.len() - j,
        {
            if containers[j] == id {
                seen = true;
            }
            j = j + 1;
        }
        let ghost before = containers@;
        if !seen {
            containers.push(id);
            proof {
                assert forall|a: int, b: int| 0 <= a < b < containers@.len() implies containers@[a] != containers@[b] by {
                    if b == before.len() {
                        assert(containers@[a] == before[a]);
                    } else {
                        assert(containers@[a] == before[a] && containers@[b] == before[b]);
                    }
                }
                assert forall|x: u128| #[trigger] containers@.to_set().contains(x) == before.to_set().insert(id).contains(x) by {
                    if x == id {
                        assert(containers@[before.len() as int] == id);
                    } else if containers@.contains(x) {
                        let k = choose|k: int| 0 <= k < containers@.len() && containers@[k] == x;
                        assert(before[k] == x);
                    } else if before.contains(x) {
                        let k = choose|k: int| 0 <= k < before.len() && before[k] == x;
                        assert(containers@[k] == x);
                    }
                }
                assert(containers@.to_set() =~= before.to_set().insert(id));
            }
        } else {
            proof {
                let k = choose|k: int| 0 <= k < containers@.len() && containers@[k] == id;
                assert(before.to_set().contains(id));
                assert(before.to_set().insert(id) =~= before.to_set());
            }
        }
        i = i + 1;
    }
    proof {
        containers@.unique_seq_to_set();
        lemma_containers_of_finite(rows@, rows@.len() as int);
    }
    (quantity, rows.len() as i64, containers.len() as i64)
}

/// The sum of `quantities[..n]`, a negative quantity counting as none.
pub open spec fn stored_sum(quantities: Seq<i32>, n: int) -> int
    decreases n,
{
    if n <= 0 {
        0
    } else {
        stored_sum(quantities, n - 1) + if quantities[n - 1] > 0 { quantities[n - 1] as int } else { 0 }
    }
}

pub proof fn lemma_stored_sum_grows(quantities: Seq<i32>, a: int, b: int)
    requires
        0 <= a <= b <= quantities.len(),
    ensures
        0 <= stored_sum(quantities, a) <= stored_sum(quantities, b),
    decreases b,
{
    if b > a {
        lemma_stored_sum_grows(quantities, a, b - 1);
    } else if b > 0 {
        lemma_stored_sum_grows(quantities, 0, b - 1);
    }
}

/// How many items stacks with these quantities hold in all (a negative
/// quantity counting as none); `None` when that exceeds a `u32`.
pub fn available_total(quantities: &Vec<i32>) -> (total: Option<u32>)
    ensures
        match total {
            Some(t) => t == stored_sum(quantities@, quantities@.len() as int),
            None => stored_sum(quantities@, quantities@.len() as int) > u32::MAX,
        },
{
    let mut total: u32 = 0;
    let mut i: usize = 0;
    while i < quantities.len()
        invariant
            i <= quantities@.len(),
            total == stored_sum(quantities@, i as int),
        decreases quantities.len() - i,
    {
        let q = quantities[i];
        let add: u32 = if q > 0 { q as u32 } else { 0 };
        match total.checked_add(add) {
            Some(t) => {
                total = t;
            },
            None => {
                proof {
                    lemma_stored_sum_grows(quantities@, i + 1, quantities@.len() as int);
                }
                return None;
            },
        }
        i = i + 1;
    }
    Some(total)
}

} // verus!
