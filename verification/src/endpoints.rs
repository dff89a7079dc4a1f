//! The checks storage endpoints make before taking part in a transfer or
//! adopting a reindexed list of containers, and the request a putaway
//! region makes of its contents.
use crate::item_stack::{Container, StackSizes};
use crate::transfer::{
    required_slots_of, same_sku, sku_key, StorageEndpointError, StorageEndpointId, TransferLine, TransferLineState,
    TransferRequest,
};
use vstd::prelude::*;

verus! {

/// A putaway endpoint takes part in a request only as its sender, towards `other`.
pub fn check_putaway_request(request: &TransferRequest, endpoint: StorageEndpointId, other: StorageEndpointId)
    -> (checked: Result<(), StorageEndpointError>)
    ensures
        checked is Ok <==> request.header.from == endpoint && request.header.to == other,
        checked is Err ==> checked == Err::<(), StorageEndpointError>(StorageEndpointError::EndpointMismatch),
{
    if request.header.from.0 != endpoint.0 || request.header.to.0 != other.0 {
        return Err(StorageEndpointError::EndpointMismatch);
    }
    Ok(())
}

/// A putaway endpoint negotiates a request only as its sender, to someone else.
pub fn check_putaway_negotiation(request: &TransferRequest, endpoint: StorageEndpointId)
    -> (checked: Result<(), StorageEndpointError>)
    ensures
        checked is Ok <==> request.header.from == endpoint && request.header.to != endpoint,
        checked is Err ==> checked == Err::<(), StorageEndpointError>(StorageEndpointError::EndpointMismatch),
{
    if request.header.from.0 != endpoint.0 || request.header.to.0 == endpoint.0 {
        return Err(StorageEndpointError::EndpointMismatch);
    }
    Ok(())
}

/// A bulk endpoint takes part in a request only when the request routes
/// between it and `other`, either way.
pub fn check_bulk_request(request: &TransferRequest, endpoint: StorageEndpointId, other: StorageEndpointId)
    -> (checked: Result<(), StorageEndpointError>)
    ensures
        checked is Ok <==> (request.header.from == endpoint || request.header.to == endpoint)
            && (request.header.from == other || request.header.to == other),
        checked is Err ==> checked == Err::<(), StorageEndpointError>(StorageEndpointError::EndpointMismatch),
{
    let from = request.header.from.0;
    let to = request.header.to.0;
    if !(from == endpoint.0 || to == endpoint.0) || !(from == other.0 || to == other.0) {
        return Err(StorageEndpointError::EndpointMismatch);
    }
    Ok(())
}

/// A bulk endpoint with `free` stack slots refuses a request it receives
/// that needs more slots than that; requests it sends are always fine.
pub fn ensure_space(request: &TransferRequest, endpoint: StorageEndpointId, free: u64) -> (checked: Result<(), StorageEndpointError>)
    requires
        required_slots_of(request.lines@, request.lines@.len() as int) <= u64::MAX,
    ensures
        checked is Err <==> request.header.to == endpoint
            && required_slots_of(request.lines@, request.lines@.len() as int) > free,
        checked is Err ==> checked == Err::<(), StorageEndpointError>(StorageEndpointError::StorageFull(endpoint)),
{
    if request.header.to.0 != endpoint.0 {
        return Ok(());
    }
    if request.required_slots() > free {
        return Err(StorageEndpointError::StorageFull(endpoint));
    }
    Ok(())
}

/// Sum of the capacities of `containers[..n]`.
pub open spec fn total_capacity_of<P>(containers: Seq<Container<P>>, n: int) -> int
    decreases n,
{
    if n <= 0 {
        0
    } else {
        total_capacity_of(containers, n - 1) + containers[n - 1].capacity
    }
}

pub proof fn lemma_total_capacity_mono<P>(containers: Seq<Container<P>>, a: int, b: int)
    requires
        0 <= a <= b <= containers.len(),
    ensures
        0 <= total_capacity_of(containers, a) <= total_capacity_of(containers, b),
    decreases b,
{
    if b > a {
        lemma_total_capacity_mono(containers, a, b - 1);
    } else if b > 0 {
        lemma_total_capacity_mono(containers, 0, b - 1);
    }
}

/// The number of stacks a region's containers can hold in all.
pub fn total_capacity<P>(containers: &Vec<Container<P>>) -> (total: u64)
    requires
        total_capacity_of(containers@, containers@.len() as int) <= u64::MAX,
    ensures
        total == total_capacity_of(containers@, containers@.len() as int),
{
    let mut total: u64 = 0;
    let mut i: usize = 0;
    while i < containers.len()
        invariant
            i <= containers@.len(),
            total_capacity_of(containers@, containers@.len() as int) <= u64::MAX,
            total == total_capacity_of(containers@, i as int),
        decreases containers.len() - i,
    {
        proof {
            lemma_total_capacity_mono(containers@, i + 1, containers@.len() as int);
        }
        total = total + containers[i].capacity;
        i = i + 1;
    }
    total
}

/// The first container of `containers[..n]` that a putaway region refuses
/// on reindexing, with why: one from another region, or an id seen before.
pub open spec fn reindex_refusal<P>(region_id: u128, containers: Seq<Container<P>>, n: int) -> Option<StorageEndpointError>
    decreases n,
{
    if n <= 0 {
        None
    } else {
        match reindex_refusal(region_id, containers, n - 1) {
            Some(e) => Some(e),
            None => if containers[n - 1].region_id != region_id {
                Some(StorageEndpointError::ContainerRegionMismatch)
            } else if exists|j: int| 0 <= j < n - 1 && #[trigger] containers[j].id == containers[n - 1].id {
                Some(StorageEndpointError::DuplicateContainerId)
            } else {
                None
            },
        }
    }
}

pub proof fn lemma_refusal_stable<P>(region_id: u128, containers: Seq<Container<P>>, n: int, m: int)
    requires
        0 <= n <= m,
        reindex_refusal(region_id, containers, n) is Some,
    ensures
        reindex_refusal(region_id, containers, m) == reindex_refusal(region_id, containers, n),
    decreases m,
{
    if n < m {
        lemma_refusal_stable(region_id, containers, n, m - 1);
    }
}

/// Checks a reindexed container list for a putaway region (see [`reindex_refusal`]).
pub fn check_reindex<P>(region_id: u128, containers: &Vec<Container<P>>) -> (checked: Result<(), StorageEndpointError>)
    ensures
        match reindex_refusal(region_id, containers@, containers@.len() as int) {
            Some(e) => checked == Err::<(), StorageEndpointError>(e),
            None => checked is Ok,
        },
{
    let mut i: usize = 0;
    while i < containers.len()
        invariant
            i <= containers@.len(),
            reindex_refusal(region_id, containers@, i as int) is None,
        decreases containers.len() - i,
    {
        if containers[i].region_id != region_id {
            proof {
                lemma_refusal_stable(region_id, containers@, i + 1, containers@.len() as int);
            }
            return Err(StorageEndpointError::ContainerRegionMismatch);
        }
        let mut j: usize = 0;
        while j < i
            invariant
                j <= i < containers@.len(),
                reindex_refusal(region_id, containers@, i as int) is None,
                containers@[i as int].region_id == region_id,
                forall|k: int| 0 <= k < j ==> #[trigger] containers@[k].id != containers@[i as int].id,
            decreases i - j,
        {
            if containers[j].id == containers[i].id {
                assert(containers@[j as int].id == containers@[i as int].id);
                proof {
                    assert(reindex_refusal(region_id, containers@, i + 1) == Some(StorageEndpointError::DuplicateContainerId));
                    lemma_refusal_stable(region_id, containers@, i + 1, containers@.len() as int);
                }
                return Err(StorageEndpointError::DuplicateContainerId);
            }
            j = j + 1;
        }
        i = i + 1;
    }
    Ok(())
}

/// The SKU and quantity of each stack with items in `containers[..c]`, container after container.
pub open spec fn putaway_entries<P>(containers: Seq<Container<P>>, sizes: StackSizes, c: int) -> Seq<((Seq<char>, Seq<char>, i32), nat)>
    decreases c,
{
    if c <= 0 {
        Seq::empty()
    } else {
        putaway_entries(containers, sizes, c - 1) + container_entries(containers[c - 1], sizes, containers[c - 1].contents@.len() as int)
    }
}

/// The SKU and quantity of each stack with items among the first `k` of a container.
pub open spec fn container_entries<P>(container: Container<P>, sizes: StackSizes, k: int) -> Seq<((Seq<char>, Seq<char>, i32), nat)>
    decreases k,
{
    if k <= 0 {
        Seq::empty()
    } else {
        let stack = container.contents@[k - 1].1;
        let rest = container_entries(container, sizes, k - 1);
        if stack.quantity > 0 {
            rest.push(((stack.item_kind@, stack.components_digest@, sizes.size_of(stack.item_kind@) as i32), stack.quantity as nat))
        } else {
            rest
        }
    }
}

/// Index of the line for a SKU among `lines[i..]`, if any.
pub open spec fn line_index(lines: Seq<((Seq<char>, Seq<char>, i32), nat)>, key: (Seq<char>, Seq<char>, i32), i: int) -> Option<int>
    decreases lines.len() - i,
{
    if i < 0 || i >= lines.len() {
        None
    } else if lines[i].0 == key {
        Some(i)
    } else {
        line_index(lines, key, i + 1)
    }
}

/// The lines of the first `n` entries: one per SKU, in the order SKUs first
/// appear, each with the total of its entries.
pub open spec fn lines_of(entries: Seq<((Seq<char>, Seq<char>, i32), nat)>, n: int) -> Seq<((Seq<char>, Seq<char>, i32), nat)>
    decreases n,
{
    if n <= 0 {
        Seq::empty()
    } else {
        let lines = lines_of(entries, n - 1);
        let e = entries[n - 1];
        match line_index(lines, e.0, 0) {
            Some(i) => lines.update(i, (e.0, lines[i].1 + e.1)),
            None => lines.push(e),
        }
    }
}

/// Sum of the quantities of the first `n` entries.
pub open spec fn entries_total(entries: Seq<((Seq<char>, Seq<char>, i32), nat)>, n: int) -> nat
    decreases n,
{
    if n <= 0 {
        0
    } else {
        entries_total(entries, n - 1) + entries[n - 1].1
    }
}

pub proof fn lemma_line_index(lines: Seq<((Seq<char>, Seq<char>, i32), nat)>, key: (Seq<char>, Seq<char>, i32), i: int)
    requires
        0 <= i,
    ensures
        line_index(lines, key, i) matches Some(j) ==> i <= j < lines.len() && lines[j].0 == key,
    decreases lines.len() - i,
{
    if i < lines.len() {
        lemma_line_index(lines, key, i + 1);
    }
}

/// No line holds more than all the entries together.
pub proof fn lemma_lines_bounded(entries: Seq<((Seq<char>, Seq<char>, i32), nat)>, n: int)
    requires
        0 <= n <= entries.len(),
    ensures
        forall|i: int| 0 <= i < lines_of(entries, n).len() ==> #[trigger] lines_of(entries, n)[i].1 <= entries_total(entries, n),
    decreases n,
{
    if n > 0 {
        lemma_lines_bounded(entries, n - 1);
        let lines = lines_of(entries, n - 1);
        lemma_line_index(lines, entries[n - 1].0, 0);
        let next = lines_of(entries, n);
        assert forall|i: int| 0 <= i < next.len() implies #[trigger] next[i].1 <= entries_total(entries, n) by {
            if i < lines.len() {
                assert(lines[i].1 <= entries_total(entries, n - 1));
            }
        }
    }
}

pub proof fn lemma_container_entries_prefix<P>(container: Container<P>, sizes: StackSizes, k: int, m: int)
    requires
        0 <= k <= m,
    ensures
        container_entries(container, sizes, k).len() <= container_entries(container, sizes, m).len(),
        container_entries(container, sizes, m).subrange(0, container_entries(container, sizes, k).len() as int)
            == container_entries(container, sizes, k),
    decreases m,
{
    if k < m {
        lemma_container_entries_prefix(container, sizes, k, m - 1);
        let a = container_entries(container, sizes, k);
        let b = container_entries(container, sizes, m - 1);
        let c = container_entries(container, sizes, m);
        assert(c.subrange(0, b.len() as int) =~= b);
        assert(c.subrange(0, a.len() as int) =~= b.subrange(0, a.len() as int));
    } else {
        assert(container_entries(container, sizes, m).subrange(0, container_entries(container, sizes, m).len() as int)
            =~= container_entries(container, sizes, m));
    }
}

pub proof fn lemma_putaway_entries_prefix<P>(containers: Seq<Container<P>>, sizes: StackSizes, a: int, b: int)
    requires
        0 <= a <= b,
    ensures
        putaway_entries(containers, sizes, a).len() <= putaway_entries(containers, sizes, b).len(),
        putaway_entries(containers, sizes, b).subrange(0, putaway_entries(containers, sizes, a).len() as int)
            == putaway_entries(containers, sizes, a),
    decreases b,
{
    if a < b {
        lemma_putaway_entries_prefix(containers, sizes, a, b - 1);
        let x = putaway_entries(containers, sizes, a);
        let y = putaway_entries(containers, sizes, b - 1);
        let z = putaway_entries(containers, sizes, b);
        assert(z.subrange(0, y.len() as int) =~= y);
        assert(z.subrange(0, x.len() as int) =~= y.subrange(0, x.len() as int));
    } else {
        assert(putaway_entries(containers, sizes, b).subrange(0, putaway_entries(containers, sizes, b).len() as int)
            =~= putaway_entries(containers, sizes, b));
    }
}

/// What the entries up to stack `k` of container `c` are, is a prefix of all entries.
pub proof fn lemma_prefix_entries<P>(containers: Seq<Container<P>>, sizes: StackSizes, c: int, k: int)
    requires
        0 <= c < containers.len(),
        0 <= k <= containers[c].contents@.len(),
    ensures
        ({
            let x = putaway_entries(containers, sizes, c) + container_entries(containers[c], sizes, k);
            &&& x.len() <= putaway_entries(containers, sizes, containers.len() as int).len()
            &&& putaway_entries(containers, sizes, containers.len() as int).subrange(0, x.len() as int) == x
        }),
{
    let full = containers[c].contents@.len() as int;
    lemma_container_entries_prefix(containers[c], sizes, k, full);
    lemma_putaway_entries_prefix(containers, sizes, c + 1, containers.len() as int);
    let x = putaway_entries(containers, sizes, c) + container_entries(containers[c], sizes, k);
    let y = putaway_entries(containers, sizes, c + 1);
    assert(y.subrange(0, x.len() as int) =~= x);
    let all = putaway_entries(containers, sizes, containers.len() as int);
    assert(all.subrange(0, x.len() as int) =~= all.subrange(0, y.len() as int).subrange(0, x.len() as int));
}

pub proof fn lemma_entries_total_mono(entries: Seq<((Seq<char>, Seq<char>, i32), nat)>, a: int, b: int)
    requires
        0 <= a <= b,
    ensures
        entries_total(entries, a) <= entries_total(entries, b),
    decreases b,
{
    if a < b {
        lemma_entries_total_mono(entries, a, b - 1);
    }
}

pub proof fn lemma_entries_total_same(x: Seq<((Seq<char>, Seq<char>, i32), nat)>, y: Seq<((Seq<char>, Seq<char>, i32), nat)>, n: int)
    requires
        0 <= n <= x.len(),
        n <= y.len(),
        x.subrange(0, n) == y.subrange(0, n),
    ensures
        entries_total(x, n) == entries_total(y, n),
    decreases n,
{
    if n > 0 {
        assert(x[n - 1] == x.subrange(0, n)[n - 1]);
        assert(y[n - 1] == y.subrange(0, n)[n - 1]);
        assert(x.subrange(0, n - 1) =~= x.subrange(0, n).subrange(0, n - 1));
        assert(y.subrange(0, n - 1) =~= y.subrange(0, n).subrange(0, n - 1));
        lemma_entries_total_same(x, y, n - 1);
    }
}

/// The total of a prefix of `all` is at most that of `all`.
pub proof fn lemma_entries_total_prefix(all: Seq<((Seq<char>, Seq<char>, i32), nat)>, prefix: Seq<((Seq<char>, Seq<char>, i32), nat)>)
    requires
        prefix.len() <= all.len(),
        all.subrange(0, prefix.len() as int) == prefix,
    ensures
        entries_total(prefix, prefix.len() as int) <= entries_total(all, all.len() as int),
{
    assert(prefix.subrange(0, prefix.len() as int) =~= prefix);
    lemma_entries_total_same(prefix, all, prefix.len() as int);
    lemma_entries_total_mono(all, prefix.len() as int, all.len() as int);
}

/// The lines of a prefix do not depend on what follows it.
pub proof fn lemma_lines_prefix(next: Seq<((Seq<char>, Seq<char>, i32), nat)>, seen: Seq<((Seq<char>, Seq<char>, i32), nat)>)
    requires
        next.len() == seen.len() + 1,
        next.subrange(0, seen.len() as int) == seen,
    ensures
        lines_of(next, seen.len() as int) == lines_of(seen, seen.len() as int),
{
    assert(seen.subrange(0, seen.len() as int) =~= seen);
    lemma_lines_same(next, seen, seen.len() as int);
}

pub proof fn lemma_lines_same(x: Seq<((Seq<char>, Seq<char>, i32), nat)>, y: Seq<((Seq<char>, Seq<char>, i32), nat)>, n: int)
    requires
        0 <= n <= x.len(),
        n <= y.len(),
        x.subrange(0, n) == y.subrange(0, n),
    ensures
        lines_of(x, n) == lines_of(y, n),
    decreases n,
{
    if n > 0 {
        assert(x[n - 1] == x.subrange(0, n)[n - 1]);
        assert(y[n - 1] == y.subrange(0, n)[n - 1]);
        assert(x.subrange(0, n - 1) =~= x.subrange(0, n).subrange(0, n - 1));
        assert(y.subrange(0, n - 1) =~= y.subrange(0, n).subrange(0, n - 1));
        lemma_lines_same(x, y, n - 1);
    }
}

/// Index of the line for `sku`, if any.
fn find_line(lines: &Vec<TransferLine>, sku: &crate::transfer::Sku) -> (found: Option<usize>)
    ensures
        match found {
            Some(i) => line_index(line_models(lines@), sku_key(*sku), 0) == Some(i as int),
            None => line_index(line_models(lines@), sku_key(*sku), 0) is None,
        },
{
    let mut i: usize = 0;
    while i < lines.len()
        invariant
            i <= lines@.len(),
            line_index(line_models(lines@), sku_key(*sku), 0) == line_index(line_models(lines@), sku_key(*sku), i as int),
        decreases lines.len() - i,
    {
        assert(line_models(lines@)[i as int] == (sku_key(lines@[i as int].sku), lines@[i as int].quantity as nat));
        if same_sku(&lines[i].sku, sku) {
            return Some(i);
        }
        i = i + 1;
    }
    None
}

/// The models of transfer lines: each line's SKU and quantity.
pub open spec fn line_models(lines: Seq<TransferLine>) -> Seq<((Seq<char>, Seq<char>, i32), nat)> {
    lines.map_values(|l: TransferLine| (sku_key(l.sku), l.quantity as nat))
}

/// The lines a putaway region asks to move: one per SKU of its stacks with
/// items, in the order the SKUs first appear, each with the total quantity
/// of its stacks and available (see [`lines_of`]). `sizes` gives the stack
/// size of each item kind.
pub fn putaway_lines<P>(containers: &Vec<Container<P>>, sizes: &StackSizes) -> (lines: Vec<TransferLine>)
    requires
        sizes.valid(),
        entries_total(putaway_entries(containers@, *sizes, containers@.len() as int),
            putaway_entries(containers@, *sizes, containers@.len() as int).len() as int) <= u64::MAX,
    ensures
        line_models(lines@) == lines_of(putaway_entries(containers@, *sizes, containers@.len() as int),
            putaway_entries(containers@, *sizes, containers@.len() as int).len() as int),
        forall|i: int| 0 <= i < lines@.len() ==> #[trigger] lines@[i].state == TransferLineState::Available,
{
    let ghost all = putaway_entries(containers@, *sizes, containers@.len() as int);
    let mut lines: Vec<TransferLine> = Vec::new();
    assert(line_models(lines@) =~= lines_of(Seq::<((Seq<char>, Seq<char>, i32), nat)>::empty(), 0));
    let ghost mut seen: Seq<((Seq<char>, Seq<char>, i32), nat)> = Seq::empty();
    let mut c: usize = 0;
    while c < containers.len()
        invariant
            c <= containers@.len(),
            sizes.valid(),
            all == putaway_entries(containers@, *sizes, containers@.len() as int),
            entries_total(all, all.len() as int) <= u64::MAX,
            seen == putaway_entries(containers@, *sizes, c as int),
            line_models(lines@) == lines_of(seen, seen.len() as int),
            forall|i: int| 0 <= i < lines@.len() ==> #[trigger] lines@[i].state == TransferLineState::Available,
        decreases containers.len() - c,
    {
        let container = &containers[c];
        let ghost start = seen;
        assert(seen =~= start + container_entries(*container, *sizes, 0));
        let mut k: usize = 0;
        while k < container.contents.len()
            invariant
                k <= container.contents@.len(),
                c < containers@.len(),
                *container == containers@[c as int],
                sizes.valid(),
                all == putaway_entries(containers@, *sizes, containers@.len() as int),
                entries_total(all, all.len() as int) <= u64::MAX,
                start == putaway_entries(containers@, *sizes, c as int),
                seen == start + container_entries(*container, *sizes, k as int),
                line_models(lines@) == lines_of(seen, seen.len() as int),
                forall|i: int| 0 <= i < lines@.len() ==> #[trigger] lines@[i].state == TransferLineState::Available,
            decreases container.contents.len() - k,
        {
            let stack = &container.contents[k].1;
            if stack.quantity > 0 {
                let sku = stack.sku(sizes);
                let ghost entry = (sku_key(sku), stack.quantity as nat);
                let ghost next = seen.push(entry);
                proof {
                    lemma_prefix_entries(containers@, *sizes, c as int, k + 1);
                    assert(container_entries(*container, *sizes, k + 1) == container_entries(*container, *sizes, k as int).push(entry));
                    assert(next =~= start + container_entries(*container, *sizes, k + 1));
                    lemma_entries_total_prefix(all, next);
                    lemma_lines_bounded(next, next.len() as int);
                }
                let found = find_line(&lines, &sku);
                let ghost models = line_models(lines@);
                proof {
                    lemma_line_index(models, sku_key(sku), 0);
                    assert(models.len() == lines@.len());
                    assert(next.len() == seen.len() + 1);
                    assert(next[next.len() - 1] == entry);
                    assert(next.subrange(0, seen.len() as int) =~= seen);
                    lemma_lines_prefix(next, seen);
                }
                match found {
                    Some(i) => {
                        let mut line = lines.remove(i);
                        assert(models[i as int].1 + entry.1 <= u64::MAX) by {
                            assert(lines_of(next, next.len() as int)[i as int].1 <= entries_total(next, next.len() as int));
                        }
                        line.quantity = line.quantity + stack.quantity as u64;
                        lines.insert(i, line);
                        proof {
                            assert(line_models(lines@) =~= models.update(i as int, (sku_key(sku), models[i as int].1 + entry.1)));
                        }
                    },
                    None => {
                        lines.push(TransferLine { sku, quantity: stack.quantity as u64, state: TransferLineState::Available });
                        proof {
                            assert(line_models(lines@) =~= models.push(entry));
                        }
                    },
                }
                proof {
                    seen = next;
                }
            }
            proof {
                if stack.quantity <= 0 {
                    assert(container_entries(*container, *sizes, k + 1) == container_entries(*container, *sizes, k as int));
                }
            }
            k = k + 1;
        }
        proof {
            assert(seen =~= putaway_entries(containers@, *sizes, c + 1));
        }
        c = c + 1;
    }
    lines
}

/// A bulk container tagged with the category it is allocated to (`None`
/// while unallocated) and the slots reserved by in-flight transfers, each
/// with the document that reserved it.
#[derive(Debug)]
pub struct BulkContainer<P> {
    pub container: Container<P>,
    pub category: Option<crate::category::ItemCategory>,
    pub reserved: Vec<(usize, crate::transfer::TransferDocumentId)>,
}

/// Whether `slot` is reserved among `reserved`.
pub open spec fn slot_reserved(reserved: Seq<(usize, crate::transfer::TransferDocumentId)>, slot: int) -> bool {
    exists|i: int| 0 <= i < reserved.len() && #[trigger] reserved[i].0 == slot
}

/// The slots below `n` that hold no stack and are not reserved, in order.
pub open spec fn free_slots<P>(bulk: BulkContainer<P>, n: int) -> Seq<usize>
    decreases n,
{
    if n <= 0 {
        Seq::empty()
    } else if !crate::craft_run::slot_taken(bulk.container.contents@, n - 1) && !slot_reserved(bulk.reserved@, n - 1) {
        free_slots(bulk, n - 1).push((n - 1) as usize)
    } else {
        free_slots(bulk, n - 1)
    }
}

impl<P> BulkContainer<P> {
    /// Slots that are neither occupied by a stack nor reserved by a transfer,
    /// in order.
    pub fn available_slots(&self) -> (slots: Vec<usize>)
        ensures
            slots@ == free_slots(*self, self.container.capacity as usize as int),
    {
        let capacity = self.container.capacity as usize;
        let mut slots: Vec<usize> = Vec::new();
        let mut slot: usize = 0;
        while slot < capacity
            invariant
                slot <= capacity,
                capacity == self.container.capacity as usize,
                slots@ == free_slots(*self, slot as int),
            decreases capacity - slot,
        {
            let mut taken = false;
            let mut i: usize = 0;
            while i < self.container.contents.len()
                invariant
                    i <= self.container.contents@.len(),
                    taken <==> exists|j: int| 0 <= j < i && #[trigger] self.container.contents@[j].0 == slot,
                decreases self.container.contents.len() - i,
            {
                if self.container.contents[i].0 == slot {
                    taken = true;
                }
                i = i + 1;
            }
            let mut reserved = false;
            let mut r: usize = 0;
            while r < self.reserved.len()
                invariant
                    r <= self.reserved@.len(),
                    reserved <==> exists|j: int| 0 <= j < r && #[trigger] self.reserved@[j].0 == slot,
                decreases self.reserved.len() - r,
            {
                if self.reserved[r].0 == slot {
                    reserved = true;
                }
                r = r + 1;
            }
            if !taken && !reserved {
                slots.push(slot);
            }
            slot = slot + 1;
        }
        slots
    }
}

} // verus!
