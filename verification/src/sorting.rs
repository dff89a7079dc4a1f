//! Stable sorting by a key, as a sort by key that keeps equal items in
//! their order does.
use vstd::prelude::*;

verus! {

/// Items sorted by a strict order on keys.
pub trait SortKey: Copy + Sized {
    /// Whether `self` sorts strictly before `other`.
    spec fn sorts_before(self, other: Self) -> bool;

    fn before(&self, other: &Self) -> (before: bool)
        ensures
            before == self.sorts_before(*other),
    ;
}

/// Where `item` goes among `sorted[i..]`: before the first item that sorts
/// after it, so that equal items keep their order.
pub open spec fn sorted_insert_index<T: SortKey>(sorted: Seq<T>, item: T, i: int) -> int
    decreases sorted.len() - i,
{
    if i < 0 || i >= sorted.len() {
        sorted.len() as int
    } else if item.sorts_before(sorted[i]) {
        i
    } else {
        sorted_insert_index(sorted, item, i + 1)
    }
}

/// The first `n` items of `items`, stably sorted.
pub open spec fn stable_sorted<T: SortKey>(items: Seq<T>, n: int) -> Seq<T>
    decreases n,
{
    if n <= 0 {
        Seq::empty()
    } else {
        let sorted = stable_sorted(items, n - 1);
        sorted.insert(sorted_insert_index(sorted, items[n - 1], 0), items[n - 1])
    }
}

pub proof fn lemma_sorted_insert_index<T: SortKey>(sorted: Seq<T>, item: T, i: int)
    requires
        0 <= i <= sorted.len(),
    ensures
        i <= sorted_insert_index(sorted, item, i) <= sorted.len(),
    decreases sorted.len() - i,
{
    if i < sorted.len() {
        lemma_sorted_insert_index(sorted, item, i + 1);
    }
}

pub proof fn lemma_stable_sorted_len<T: SortKey>(items: Seq<T>, n: int)
    requires
        0 <= n <= items.len(),
    ensures
        stable_sorted(items, n).len() == n,
    decreases n,
{
    if n > 0 {
        lemma_stable_sorted_len(items, n - 1);
        lemma_sorted_insert_index(stable_sorted(items, n - 1), items[n - 1], 0);
    }
}

fn insert_position<T: SortKey>(sorted: &Vec<T>, item: &T) -> (at: usize)
    ensures
        at == sorted_insert_index(sorted@, *item, 0),
{
    let mut i: usize = 0;
    while i < sorted.len()
        invariant
            i <= sorted@.len(),
            sorted_insert_index(sorted@, *item, 0) == sorted_insert_index(sorted@, *item, i as int),
        decreases sorted.len() - i,
    {
        if item.before(&sorted[i]) {
            return i;
        }
        i = i + 1;
    }
    i
}

/// `items`, stably sorted.
pub fn stable_sort<T: SortKey>(items: &Vec<T>) -> (sorted: Vec<T>)
    ensures
        sorted@ == stable_sorted(items@, items@.len() as int),
{
    let mut sorted: Vec<T> = Vec::new();
    let mut n: usize = 0;
    while n < items.len()
        invariant
            n <= items@.len(),
            sorted@ == stable_sorted(items@, n as int),
        decreases items.len() - n,
    {
        proof {
            lemma_stable_sorted_len(items@, n as int);
            lemma_sorted_insert_index(sorted@, items@[n as int], 0);
        }
        let item = items[n];
        let at = insert_position(&sorted, &item);
        sorted.insert(at, item);
        n = n + 1;
    }
    sorted
}

} // verus!
