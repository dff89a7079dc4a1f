//! Container regions and the order in which regions of a type are used.
use crate::sorting::{stable_sort, stable_sorted, SortKey};
use vstd::prelude::*;

verus! {

/// What a region of containers is for.
#[derive(Debug, Clone, Copy, PartialEq, Eq, Structural)]
pub enum RegionType {
    Bulk,
    Pickface,
    Putaway,
    Processing,
    Order,
}

/// A region of containers: lower priorities are used first. `W` is the
/// region's extent in the world.
#[derive(Debug, Clone)]
pub struct ContainerRegion<W> {
    pub id: u128,
    pub region_type: RegionType,
    pub priority: i32,
    pub world_region: W,
}

/// The sort key of a region: its priority, then its id, with where it was.
#[derive(Debug, Clone, Copy)]
pub struct RegionKey {
    pub priority: i32,
    pub id: u128,
    pub index: usize,
}

impl SortKey for RegionKey {
    open spec fn sorts_before(self, other: Self) -> bool {
        self.priority < other.priority || (self.priority == other.priority && self.id < other.id)
    }

    fn before(&self, other: &Self) -> (before: bool) {
        self.priority < other.priority || (self.priority == other.priority && self.id < other.id)
    }
}

/// The keys of the regions of `region_type` among `regions[..n]`, in order.
pub open spec fn region_keys<W>(regions: Seq<ContainerRegion<W>>, region_type: RegionType, n: int) -> Seq<RegionKey>
    decreases n,
{
    if n <= 0 {
        Seq::empty()
    } else if regions[n - 1].region_type == region_type {
        region_keys(regions, region_type, n - 1).push(RegionKey {
            priority: regions[n - 1].priority,
            id: regions[n - 1].id,
            index: (n - 1) as usize,
        })
    } else {
        region_keys(regions, region_type, n - 1)
    }
}

pub proof fn lemma_region_keys<W>(regions: Seq<ContainerRegion<W>>, region_type: RegionType, n: int)
    requires
        0 <= n <= regions.len(),
        regions.len() <= usize::MAX,
    ensures
        forall|i: int| 0 <= i < region_keys(regions, region_type, n).len() ==> {
            let k = #[trigger] region_keys(regions, region_type, n)[i];
            &&& k.index < n
            &&& k.priority == regions[k.index as int].priority
            &&& k.id == regions[k.index as int].id
        },
    decreases n,
{
    if n > 0 {
        lemma_region_keys(regions, region_type, n - 1);
        let prev = region_keys(regions, region_type, n - 1);
        let cur = region_keys(regions, region_type, n);
        assert forall|i: int| 0 <= i < cur.len() implies {
            let k = #[trigger] cur[i];
            &&& k.index < n
            &&& k.priority == regions[k.index as int].priority
            &&& k.id == regions[k.index as int].id
        } by {
            if i < prev.len() {
                assert(cur[i] == prev[i]);
            }
        }
    }
}

pub proof fn lemma_sorted_members<T: SortKey>(items: Seq<T>, n: int, i: int)
    requires
        0 <= n <= items.len(),
        0 <= i < stable_sorted(items, n).len(),
    ensures
        exists|j: int| 0 <= j < n && items[j] == #[trigger] stable_sorted(items, n)[i],
    decreases n,
{
    crate::sorting::lemma_stable_sorted_len(items, n);
    if n > 0 {
        let prev = stable_sorted(items, n - 1);
        crate::sorting::lemma_stable_sorted_len(items, n - 1);
        let at = crate::sorting::sorted_insert_index(prev, items[n - 1], 0);
        crate::sorting::lemma_sorted_insert_index(prev, items[n - 1], 0);
        if i == at {
            assert(items[n - 1] == stable_sorted(items, n)[i]);
        } else {
            let i0 = if i < at { i } else { i - 1 };
            assert(stable_sorted(items, n)[i] == prev[i0]);
            lemma_sorted_members(items, n - 1, i0);
            let j = choose|j: int| 0 <= j < n - 1 && items[j] == #[trigger] prev[i0];
            assert(items[j] == stable_sorted(items, n)[i]);
        }
    }
}

/// The regions of `region_type`, stably sorted by priority and then id.
pub fn ordered_regions<'a, W>(regions: &'a Vec<ContainerRegion<W>>, region_type: RegionType) -> (ordered: Vec<&'a ContainerRegion<W>>)
    ensures
        ordered@.len() == region_keys(regions@, region_type, regions@.len() as int).len(),
        forall|i: int| 0 <= i < ordered@.len() ==> {
            let keys = region_keys(regions@, region_type, regions@.len() as int);
            let k = stable_sorted(keys, keys.len() as int)[i];
            &&& k.index < regions@.len()
            &&& *#[trigger] ordered@[i] == regions@[k.index as int]
        },
{
    let mut keys: Vec<RegionKey> = Vec::new();
    let mut n: usize = 0;
    while n < regions.len()
        invariant
            n <= regions@.len(),
            keys@ == region_keys(regions@, region_type, n as int),
        decreases regions.len() - n,
    {
        if regions[n].region_type == region_type {
            keys.push(RegionKey { priority: regions[n].priority, id: regions[n].id, index: n });
        }
        n = n + 1;
    }
    let sorted = stable_sort(&keys);
    let ghost all = region_keys(regions@, region_type, regions@.len() as int);
    proof {
        lemma_region_keys(regions@, region_type, regions@.len() as int);
        crate::sorting::lemma_stable_sorted_len(all, all.len() as int);
        assert forall|j: int| 0 <= j < sorted@.len() implies #[trigger] sorted@[j].index < regions@.len() by {
            lemma_sorted_members(all, all.len() as int, j);
            let w = choose|w: int| 0 <= w < all.len() && all[w] == #[trigger] stable_sorted(all, all.len() as int)[j];
            assert(all[w].index < regions@.len());
        }
    }
    let mut ordered: Vec<&'a ContainerRegion<W>> = Vec::new();
    let mut i: usize = 0;
    while i < sorted.len()
        invariant
            i <= sorted@.len(),
            sorted@ == stable_sorted(all, all.len() as int),
            all == region_keys(regions@, region_type, regions@.len() as int),
            sorted@.len() == all.len(),
            forall|j: int| 0 <= j < all.len() ==> #[trigger] all[j].index < regions@.len(),
            ordered@.len() == i,
            forall|j: int| 0 <= j < sorted@.len() ==> #[trigger] sorted@[j].index < regions@.len(),
            forall|j: int| 0 <= j < i ==> *#[trigger] ordered@[j] == regions@[sorted@[j].index as int],
        decreases sorted.len() - i,
    {
        let index = sorted[i].index;
        let ghost before = ordered@;
        let region = &regions[index];
        assert(*region == regions@[index as int]);
        ordered.push(region);
        proof {
            assert(*ordered@[i as int] == regions@[index as int]);
            assert(sorted@[i as int].index == index);
            assert forall|j: int| 0 <= j < i + 1 implies *#[trigger] ordered@[j] == regions@[sorted@[j].index as int] by {
                if j < i {
                    assert(ordered@[j] == before[j]);
                }
            }
        }
        i = i + 1;
    }
    ordered
}

/// The ids of the regions of `region_type` among `regions[..n]`, in order.
pub open spec fn ids_of_type<W>(regions: Seq<ContainerRegion<W>>, region_type: RegionType, n: int) -> Seq<u128>
    decreases n,
{
    if n <= 0 {
        Seq::empty()
    } else if regions[n - 1].region_type == region_type {
        ids_of_type(regions, region_type, n - 1).push(regions[n - 1].id)
    } else {
        ids_of_type(regions, region_type, n - 1)
    }
}

/// The ids of the regions of `region_type`, in order.
pub fn region_ids_of_type<W>(regions: &Vec<ContainerRegion<W>>, region_type: RegionType) -> (ids: Vec<u128>)
    ensures
        ids@ == ids_of_type(regions@, region_type, regions@.len() as int),
{
    let mut ids: Vec<u128> = Vec::new();
    let mut n: usize = 0;
    while n < regions.len()
        invariant
            n <= regions@.len(),
            ids@ == ids_of_type(regions@, region_type, n as int),
        decreases regions.len() - n,
    {
        if regions[n].region_type == region_type {
            ids.push(regions[n].id);
        }
        n = n + 1;
    }
    ids
}

} // verus!
