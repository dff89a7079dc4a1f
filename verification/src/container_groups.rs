//! Containers listed by region: one group per region that holds a
//! container, highest priority first (regions unknown last), then by id.
use crate::regions::{ContainerRegion, RegionType};
use crate::sorting::{lemma_sorted_insert_index, sorted_insert_index, stable_sorted, SortKey};
use vstd::prelude::*;

verus! {

/// The containers of one region, each shown as a `V`, with the region's type
/// and priority when the region is known.
#[derive(Debug)]
pub struct ContainerRegionGroup<V> {
    pub region_id: u128,
    pub region_type: Option<RegionType>,
    pub priority: Option<i32>,
    pub containers: Vec<V>,
}

/// The order of groups: a known priority before none, higher priorities
/// first, then lower region ids first.
#[derive(Debug, Clone, Copy)]
pub struct GroupOrder {
    pub priority: Option<i32>,
    pub region_id: u128,
}

impl SortKey for GroupOrder {
    open spec fn sorts_before(self, other: Self) -> bool {
        match (self.priority, other.priority) {
            (Some(a), Some(b)) => a > b || (a == b && self.region_id < other.region_id),
            (Some(_), None) => true,
            (None, Some(_)) => false,
            (None, None) => self.region_id < other.region_id,
        }
    }

    fn before(&self, other: &Self) -> (before: bool) {
        match (self.priority, other.priority) {
            (Some(a), Some(b)) => a > b || (a == b && self.region_id < other.region_id),
            (Some(_), None) => true,
            (None, Some(_)) => false,
            (None, None) => self.region_id < other.region_id,
        }
    }
}

/// The region ids of `containers[..n]`, each once, in order of first appearance.
pub open spec fn group_ids<V>(containers: Seq<(u128, V)>, n: int) -> Seq<u128>
    decreases n,
{
    if n <= 0 {
        Seq::empty()
    } else {
        let earlier = group_ids(containers, n - 1);
        if earlier.contains(containers[n - 1].0) {
            earlier
        } else {
            earlier.push(containers[n - 1].0)
        }
    }
}

/// The shown containers of region `id` among `containers[..n]`, in order.
pub open spec fn members<V>(containers: Seq<(u128, V)>, id: u128, n: int) -> Seq<V>
    decreases n,
{
    if n <= 0 {
        Seq::empty()
    } else {
        let earlier = members(containers, id, n - 1);
        if containers[n - 1].0 == id {
            earlier.push(containers[n - 1].1)
        } else {
            earlier
        }
    }
}

/// The type and priority of region `id`: those of the last of `regions[..n]`
/// with that id (a later region replaces an earlier one).
pub open spec fn region_info<W>(regions: Seq<ContainerRegion<W>>, id: u128, n: int) -> Option<(RegionType, i32)>
    decreases n,
{
    if n <= 0 {
        None
    } else if regions[n - 1].id == id {
        Some((regions[n - 1].region_type, regions[n - 1].priority))
    } else {
        region_info(regions, id, n - 1)
    }
}

/// The order key of the group of region `id`.
pub open spec fn order_of<W>(regions: Seq<ContainerRegion<W>>, id: u128) -> GroupOrder {
    GroupOrder {
        priority: match region_info(regions, id, regions.len() as int) {
            Some(info) => Some(info.1),
            None => None,
        },
        region_id: id,
    }
}

/// The order keys of the groups, in order of first appearance.
pub open spec fn group_orders<W, V>(regions: Seq<ContainerRegion<W>>, containers: Seq<(u128, V)>) -> Seq<GroupOrder> {
    group_ids(containers, containers.len() as int).map_values(|id: u128| order_of(regions, id))
}

/// The order key of a group.
pub open spec fn group_order<V>(group: ContainerRegionGroup<V>) -> GroupOrder {
    GroupOrder { priority: group.priority, region_id: group.region_id }
}

/// A group as it should be: its region's type and priority, and every
/// shown container of its region in order.
pub open spec fn group_ok<W, V>(group: ContainerRegionGroup<V>, regions: Seq<ContainerRegion<W>>, containers: Seq<(u128, V)>) -> bool {
    &&& group.region_type == match region_info(regions, group.region_id, regions.len() as int) {
        Some(info) => Some(info.0),
        None => None,
    }
    &&& group.priority == order_of(regions, group.region_id).priority
    &&& group.containers@ == members(containers, group.region_id, containers.len() as int)
}

pub proof fn lemma_group_ids<V>(containers: Seq<(u128, V)>, n: int)
    requires
        0 <= n <= containers.len(),
    ensures
        group_ids(containers, n).no_duplicates(),
        forall|id: u128| #[trigger] group_ids(containers, n).contains(id) <==> exists|j: int| 0 <= j < n && containers[j].0 == id,
        forall|id: u128| !(#[trigger] group_ids(containers, n).contains(id)) ==> members(containers, id, n) == Seq::<V>::empty(),
    decreases n,
{
    if n > 0 {
        lemma_group_ids(containers, n - 1);
        let earlier = group_ids(containers, n - 1);
        let x = containers[n - 1].0;
        if !earlier.contains(x) {
            assert forall|id: u128| #[trigger] earlier.push(x).contains(id) <==> (earlier.contains(id) || id == x) by {
                if earlier.contains(id) {
                    let j = choose|j: int| 0 <= j < earlier.len() && earlier[j] == id;
                    assert(earlier.push(x)[j] == id);
                }
                if id == x {
                    assert(earlier.push(x)[earlier.len() as int] == id);
                }
                if earlier.push(x).contains(id) {
                    let j = choose|j: int| 0 <= j < earlier.len() + 1 && earlier.push(x)[j] == id;
                    if j < earlier.len() {
                        assert(earlier[j] == id);
                    }
                }
            }
        }
        assert forall|id: u128| #[trigger] group_ids(containers, n).contains(id) <==> exists|j: int| 0 <= j < n && containers[j].0 == id by {
            if group_ids(containers, n).contains(id) && id != x {
                assert(earlier.contains(id));
                let j = choose|j: int| 0 <= j < n - 1 && containers[j].0 == id;
                assert(0 <= j < n && containers[j].0 == id);
            }
            if exists|j: int| 0 <= j < n && containers[j].0 == id {
                let j = choose|j: int| 0 <= j < n && containers[j].0 == id;
                if j < n - 1 {
                    assert(earlier.contains(id));
                }
            }
        }
    }
}

fn region_info_of<W>(regions: &Vec<ContainerRegion<W>>, id: u128) -> (info: Option<(RegionType, i32)>)
    ensures
        info == region_info(regions@, id, regions@.len() as int),
{
    let mut n = regions.len();
    while n > 0
        invariant
            n <= regions@.len(),
            region_info(regions@, id, regions@.len() as int) == region_info(regions@, id, n as int),
        decreases n,
    {
        if regions[n - 1].id == id {
            return Some((regions[n - 1].region_type, regions[n - 1].priority));
        }
        n = n - 1;
    }
    None
}

/// Groups shown containers (each with its region id) by region: one group
/// per region that holds one, with the region's type and priority when
/// `regions` holds it, the group's containers in their order; groups with a
/// known priority first, highest first, then by region id.
pub fn group_containers<W, V>(regions: &Vec<ContainerRegion<W>>, containers: Vec<(u128, V)>) -> (groups: Vec<ContainerRegionGroup<V>>)
    ensures
        groups@.map_values(|g: ContainerRegionGroup<V>| group_order(g))
            == stable_sorted(group_orders(regions@, containers@), group_orders(regions@, containers@).len() as int),
        forall|k: int| 0 <= k < groups@.len() ==> group_ok(#[trigger] groups@[k], regions@, containers@),
{
    let ghost all = containers@;
    let mut rest = containers;
    let mut ids: Vec<u128> = Vec::new();
    let mut lists: Vec<Vec<V>> = Vec::new();
    let mut k: usize = 0;
    let total = rest.len();
    proof {
        assert(all.subrange(0, all.len() as int) =~= all);
    }
    while rest.len() > 0
        invariant
            all.len() == total,
            k + rest@.len() == total,
            rest@ == all.subrange(k as int, total as int),
            ids@ == group_ids(all, k as int),
            lists@.len() == ids@.len(),
            forall|g: int| 0 <= g < ids@.len() ==> (#[trigger] lists@[g])@ == members(all, ids@[g], k as int),
        decreases rest.len(),
    {
        proof {
            lemma_group_ids(all, k as int);
        }
        let (id, shown) = rest.remove(0);
        assert(all[k as int] == (id, shown));
        let mut g: usize = 0;
        while g < ids.len()
            invariant
                g <= ids@.len(),
                forall|h: int| 0 <= h < g ==> ids@[h] != id,
            ensures
                g <= ids@.len(),
                g < ids@.len() ==> ids@[g as int] == id,
                g == ids@.len() ==> forall|h: int| 0 <= h < ids@.len() ==> ids@[h] != id,
            decreases ids.len() - g,
        {
            if ids[g] == id {
                break;
            }
            g = g + 1;
        }
        let ghost before = lists@;
        if g < ids.len() {
            let mut list: Vec<V> = Vec::new();
            lists.set_and_swap(g, &mut list);
            list.push(shown);
            lists.set_and_swap(g, &mut list);
            proof {
                assert(group_ids(all, k + 1) == ids@);
                assert forall|h: int| 0 <= h < ids@.len() implies (#[trigger] lists@[h])@ == members(all, ids@[h], k + 1) by {
                    if h != g {
                        assert(lists@[h] == before[h]);
                    }
                }
            }
        } else {
            proof {
                assert(!ids@.contains(id));
            }
            ids.push(id);
            let mut list: Vec<V> = Vec::new();
            list.push(shown);
            lists.push(list);
            proof {
                assert(members(all, id, k as int) == Seq::<V>::empty());
                assert forall|h: int| 0 <= h < ids@.len() implies (#[trigger] lists@[h])@ == members(all, ids@[h], k + 1) by {
                    if h < ids@.len() - 1 {
                        assert(lists@[h] == before[h]);
                    } else {
                        assert(members(all, id, k + 1) =~= seq![shown]);
                    }
                }
            }
        }
        k = k + 1;
        assert(rest@ =~= all.subrange(k as int, total as int));
    }
    let ghost orders = group_orders(regions@, all);
    proof {
        lemma_group_ids(all, all.len() as int);
    }
    let mut groups: Vec<ContainerRegionGroup<V>> = Vec::new();
    let mut g: usize = 0;
    while g < ids.len()
        invariant
            g <= ids@.len(),
            ids@ == group_ids(all, all.len() as int),
            orders == group_orders(regions@, all),
            orders.len() == ids@.len(),
            lists@.len() == ids@.len(),
            forall|h: int| g <= h < ids@.len() ==> (#[trigger] lists@[h])@ == members(all, ids@[h], all.len() as int),
            groups@.map_values(|x: ContainerRegionGroup<V>| group_order(x)) == stable_sorted(orders, g as int),
            forall|m: int| 0 <= m < groups@.len() ==> group_ok(#[trigger] groups@[m], regions@, all),
        decreases ids.len() - g,
    {
        let mut list: Vec<V> = Vec::new();
        lists.set_and_swap(g, &mut list);
        let info = region_info_of(regions, ids[g]);
        let (region_type, priority) = match info {
            Some((t, p)) => (Some(t), Some(p)),
            None => (None, None),
        };
        let group = ContainerRegionGroup { region_id: ids[g], region_type, priority, containers: list };
        let key = GroupOrder { priority, region_id: ids[g] };
        let ghost sorted = groups@.map_values(|x: ContainerRegionGroup<V>| group_order(x));
        assert(key == orders[g as int]);
        let mut at: usize = 0;
        while at < groups.len()
            invariant
                at <= groups@.len(),
                sorted == groups@.map_values(|x: ContainerRegionGroup<V>| group_order(x)),
                sorted_insert_index(sorted, key, 0) == sorted_insert_index(sorted, key, at as int),
            ensures
                at == sorted_insert_index(sorted, key, 0),
            decreases groups.len() - at,
        {
            let other = GroupOrder { priority: groups[at].priority, region_id: groups[at].region_id };
            assert(other == sorted[at as int]);
            if key.before(&other) {
                break;
            }
            at = at + 1;
        }
        proof {
            lemma_sorted_insert_index(sorted, key, 0);
            crate::sorting::lemma_stable_sorted_len(orders, g as int);
        }
        let ghost old_groups = groups@;
        groups.insert(at, group);
        proof {
            assert(groups@.map_values(|x: ContainerRegionGroup<V>| group_order(x)) =~= sorted.insert(at as int, key));
            assert forall|m: int| 0 <= m < groups@.len() implies group_ok(#[trigger] groups@[m], regions@, all) by {
                if m < at {
                    assert(groups@[m] == old_groups[m]);
                } else if m > at {
                    assert(groups@[m] == old_groups[m - 1]);
                }
            }
        }
        g = g + 1;
    }
    groups
}

} // verus!
