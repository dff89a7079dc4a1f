//! Collecting item moves into groups by key, with the groups kept in key
//! order as a sorted map keeps its entries.
use crate::work::ItemMove;
use vstd::prelude::*;

verus! {

/// A key by which moves are grouped, with a strict order on keys.
pub trait GroupKey: Copy + Sized {
    spec fn precedes(self, other: Self) -> bool;

    fn less(&self, other: &Self) -> (less: bool)
        ensures
            less == self.precedes(*other),
    ;

    fn same(&self, other: &Self) -> (same: bool)
        ensures
            same == (*self == *other),
    ;
}

impl GroupKey for u128 {
    open spec fn precedes(self, other: Self) -> bool {
        self < other
    }

    fn less(&self, other: &Self) -> (less: bool) {
        *self < *other
    }

    fn same(&self, other: &Self) -> (same: bool) {
        *self == *other
    }
}

/// One planned move, with the key of its group and the position that the
/// group takes when this move starts it.
pub type Emission<K, P> = (K, P, ItemMove);

/// Index of the group for `key` in `groups[i..]`, if any.
pub open spec fn group_index<K, P>(groups: Seq<(K, P)>, key: K, i: int) -> Option<int>
    decreases groups.len() - i,
{
    if i < 0 || i >= groups.len() {
        None
    } else if groups[i].0 == key {
        Some(i)
    } else {
        group_index(groups, key, i + 1)
    }
}

/// Where a new key goes among the groups from `i` on: before the first larger key.
pub open spec fn insert_index<K: GroupKey, P>(groups: Seq<(K, P)>, key: K, i: int) -> int
    decreases groups.len() - i,
{
    if i < 0 || i >= groups.len() {
        groups.len() as int
    } else if key.precedes(groups[i].0) {
        i
    } else {
        insert_index(groups, key, i + 1)
    }
}

/// The groups after a move for `key` at `position`: unchanged when `key`
/// has a group, else with a new group for it in key order.
pub open spec fn insert_group<K: GroupKey, P>(groups: Seq<(K, P)>, key: K, position: P) -> Seq<(K, P)> {
    if group_index(groups, key, 0) is Some {
        groups
    } else {
        groups.insert(insert_index(groups, key, 0), (key, position))
    }
}

/// The groups of the first `n` emissions: each key with the position of its
/// first emission, in key order.
pub open spec fn groups_of<K: GroupKey, P>(emissions: Seq<Emission<K, P>>, n: int) -> Seq<(K, P)>
    decreases n,
{
    if n <= 0 {
        Seq::empty()
    } else {
        insert_group(groups_of(emissions, n - 1), emissions[n - 1].0, emissions[n - 1].1)
    }
}

/// The moves of the first `n` emissions for `key`, in order.
pub open spec fn moves_for<K, P>(emissions: Seq<Emission<K, P>>, key: K, n: int) -> Seq<ItemMove>
    decreases n,
{
    if n <= 0 {
        Seq::empty()
    } else if emissions[n - 1].0 == key {
        moves_for(emissions, key, n - 1).push(emissions[n - 1].2)
    } else {
        moves_for(emissions, key, n - 1)
    }
}

/// The key and position of each group.
pub open spec fn group_heads<K, P>(groups: Seq<(K, P, Vec<ItemMove>)>) -> Seq<(K, P)> {
    groups.map_values(|g: (K, P, Vec<ItemMove>)| (g.0, g.1))
}

/// `groups` holds the groups of all `emissions`, each with its moves.
pub open spec fn groups_match<K: GroupKey, P>(groups: Seq<(K, P, Vec<ItemMove>)>, emissions: Seq<Emission<K, P>>) -> bool {
    &&& group_heads(groups) == groups_of(emissions, emissions.len() as int)
    &&& forall|i: int| 0 <= i < groups.len() ==> #[trigger] groups[i].2@ == moves_for(emissions, groups[i].0, emissions.len() as int)
}

pub proof fn lemma_group_index<K, P>(groups: Seq<(K, P)>, key: K, i: int)
    requires
        0 <= i <= groups.len(),
    ensures
        group_index(groups, key, i) matches Some(j) ==> i <= j < groups.len() && groups[j].0 == key,
        group_index(groups, key, i) is None ==> forall|m: int| i <= m < groups.len() ==> #[trigger] groups[m].0 != key,
    decreases groups.len() - i,
{
    if i < groups.len() {
        lemma_group_index(groups, key, i + 1);
    }
}

pub proof fn lemma_insert_index<K: GroupKey, P>(groups: Seq<(K, P)>, key: K, i: int)
    requires
        0 <= i <= groups.len(),
    ensures
        i <= insert_index(groups, key, i) <= groups.len(),
    decreases groups.len() - i,
{
    if i < groups.len() {
        lemma_insert_index(groups, key, i + 1);
    }
}

/// The groups and moves of a prefix do not depend on what follows it.
pub proof fn lemma_prefix<K: GroupKey, P>(emissions: Seq<Emission<K, P>>, e: Emission<K, P>, n: int)
    requires
        0 <= n <= emissions.len(),
    ensures
        groups_of(emissions.push(e), n) == groups_of(emissions, n),
        forall|k: K| #[trigger] moves_for(emissions.push(e), k, n) == moves_for(emissions, k, n),
    decreases n,
{
    if n > 0 {
        lemma_prefix(emissions, e, n - 1);
        assert(emissions.push(e)[n - 1] == emissions[n - 1]);
        assert forall|k: K| #[trigger] moves_for(emissions.push(e), k, n) == moves_for(emissions, k, n) by {
            assert(moves_for(emissions.push(e), k, n - 1) == moves_for(emissions, k, n - 1));
        }
    }
}

/// The groups of a prefix have distinct keys, and a key has a group exactly
/// when it has moves.
pub proof fn lemma_groups_of<K: GroupKey, P>(emissions: Seq<Emission<K, P>>, n: int)
    requires
        0 <= n <= emissions.len(),
    ensures
        forall|a: int, b: int| 0 <= a < b < groups_of(emissions, n).len()
            ==> #[trigger] groups_of(emissions, n)[a].0 != #[trigger] groups_of(emissions, n)[b].0,
        forall|k: K| #[trigger] group_index(groups_of(emissions, n), k, 0) is Some <==> moves_for(emissions, k, n).len() > 0,
    decreases n,
{
    if n > 0 {
        lemma_groups_of(emissions, n - 1);
        let gs = groups_of(emissions, n - 1);
        let e = emissions[n - 1];
        lemma_group_index(gs, e.0, 0);
        if group_index(gs, e.0, 0) is None {
            let at = insert_index(gs, e.0, 0);
            lemma_insert_index(gs, e.0, 0);
            let g2 = gs.insert(at, (e.0, e.1));
            assert(groups_of(emissions, n) == g2);
            assert forall|a: int, b: int| 0 <= a < b < g2.len() implies #[trigger] g2[a].0 != #[trigger] g2[b].0 by {
                if a == at {
                    assert(g2[b] == gs[b - 1]);
                } else if b == at {
                    assert(g2[a] == gs[a]);
                } else {
                    let a0 = if a < at { a } else { a - 1 };
                    let b0 = if b < at { b } else { b - 1 };
                    assert(g2[a] == gs[a0]);
                    assert(g2[b] == gs[b0]);
                }
            }
            assert forall|k: K| #[trigger] group_index(g2, k, 0) is Some <==> moves_for(emissions, k, n).len() > 0 by {
                lemma_group_index(g2, k, 0);
                lemma_group_index(gs, k, 0);
                if k == e.0 {
                    assert(g2[at].0 == k);
                } else {
                    if group_index(gs, k, 0) is Some {
                        let j = group_index(gs, k, 0)->0;
                        let j2 = if j < at { j } else { j + 1 };
                        assert(g2[j2] == gs[j]);
                    }
                    if group_index(g2, k, 0) is Some {
                        let j = group_index(g2, k, 0)->0;
                        let j0 = if j < at { j } else { j - 1 };
                        assert(g2[j] == gs[j0]);
                    }
                }
            }
        } else {
            assert forall|k: K| #[trigger] group_index(gs, k, 0) is Some <==> moves_for(emissions, k, n).len() > 0 by {
                if k != e.0 {
                    assert(moves_for(emissions, k, n) == moves_for(emissions, k, n - 1));
                }
            }
        }
    }
}

/// The index of the group for `key`, if `groups` has one.
fn find_group<K: GroupKey, P: Copy>(groups: &Vec<(K, P, Vec<ItemMove>)>, key: &K) -> (found: Option<usize>)
    ensures
        match found {
            Some(i) => group_index(group_heads(groups@), *key, 0) == Some(i as int),
            None => group_index(group_heads(groups@), *key, 0) is None,
        },
{
    let ghost heads = group_heads(groups@);
    let mut i: usize = 0;
    while i < groups.len()
        invariant
            i <= groups@.len(),
            heads == group_heads(groups@),
            group_index(heads, *key, 0) == group_index(heads, *key, i as int),
        decreases groups.len() - i,
    {
        assert(heads[i as int] == (groups@[i as int].0, groups@[i as int].1));
        if groups[i].0.same(key) {
            return Some(i);
        }
        i = i + 1;
    }
    None
}

/// Where a group for `key` goes in key order.
fn insert_position<K: GroupKey, P: Copy>(groups: &Vec<(K, P, Vec<ItemMove>)>, key: &K) -> (at: usize)
    ensures
        at == insert_index(group_heads(groups@), *key, 0),
{
    let ghost heads = group_heads(groups@);
    let mut i: usize = 0;
    while i < groups.len()
        invariant
            i <= groups@.len(),
            heads == group_heads(groups@),
            insert_index(heads, *key, 0) == insert_index(heads, *key, i as int),
        decreases groups.len() - i,
    {
        assert(heads[i as int] == (groups@[i as int].0, groups@[i as int].1));
        if key.less(&groups[i].0) {
            return i;
        }
        i = i + 1;
    }
    i
}

/// Adds a move for `key` to its group, starting the group at `position`
/// when `key` has none yet.
pub fn add_move<K: GroupKey, P: Copy>(
    groups: &mut Vec<(K, P, Vec<ItemMove>)>,
    key: K,
    position: P,
    item_move: ItemMove,
    Ghost(emissions): Ghost<Seq<Emission<K, P>>>,
)
    requires
        groups_match(old(groups)@, emissions),
    ensures
        groups_match(final(groups)@, emissions.push((key, position, item_move))),
{
    let ghost e = (key, position, item_move);
    let ghost em2 = emissions.push(e);
    let ghost n = emissions.len() as int;
    let ghost g0 = groups@;
    proof {
        lemma_prefix(emissions, e, n);
        lemma_groups_of(emissions, n);
        assert(em2[n] == e);
        assert(groups_of(em2, n + 1) == insert_group(groups_of(emissions, n), key, position));
    }
    match find_group(groups, &key) {
        Some(i) => {
            proof {
                lemma_group_index(group_heads(g0), key, 0);
            }
            let (k, p, mut moves) = groups.remove(i);
            moves.push(item_move);
            groups.insert(i, (k, p, moves));
            proof {
                assert(groups@ =~= g0.update(i as int, (k, p, moves)));
                assert(group_heads(groups@) =~= group_heads(g0));
                assert forall|j: int| 0 <= j < groups@.len() implies #[trigger] groups@[j].2@
                    == moves_for(em2, groups@[j].0, n + 1) by {
                    let kj = groups@[j].0;
                    assert(em2[n] == e);
                    assert(moves_for(em2, kj, n) == moves_for(emissions, kj, n));
                    assert(group_heads(g0)[i as int] == (g0[i as int].0, g0[i as int].1));
                    if j != i {
                        assert(group_heads(g0)[j] == (g0[j].0, g0[j].1));
                        assert(group_heads(g0)[j].0 != group_heads(g0)[i as int].0);
                        assert(groups@[j] == g0[j]);
                        assert(g0[j].2@ == moves_for(emissions, g0[j].0, n));
                    } else {
                        assert(g0[i as int].2@ == moves_for(emissions, g0[i as int].0, n));
                        assert(moves@ == g0[i as int].2@.push(item_move));
                    }
                }
            }
        },
        None => {
            let at = insert_position(groups, &key);
            proof {
                lemma_insert_index(group_heads(g0), key, 0);
                lemma_group_index(group_heads(g0), key, 0);
                assert(moves_for(emissions, key, n).len() == 0);
            }
            let mut moves: Vec<ItemMove> = Vec::new();
            moves.push(item_move);
            groups.insert(at, (key, position, moves));
            proof {
                assert(group_heads(groups@) =~= group_heads(g0).insert(at as int, (key, position)));
                assert forall|j: int| 0 <= j < groups@.len() implies #[trigger] groups@[j].2@
                    == moves_for(em2, groups@[j].0, n + 1) by {
                    let kj = groups@[j].0;
                    assert(em2[n] == e);
                    assert(moves_for(em2, kj, n) == moves_for(emissions, kj, n));
                    if j == at {
                        assert(moves@ =~= moves_for(emissions, key, n).push(item_move));
                    } else {
                        let j0 = if j < at { j } else { j - 1 };
                        assert(groups@[j] == g0[j0]);
                        assert(group_heads(g0)[j0] == (g0[j0].0, g0[j0].1));
                        assert(group_heads(g0).len() == g0.len());
                        assert(0 <= j0 < g0.len());
                        assert(group_heads(g0)[j0].0 != key);
                        assert(g0[j0].2@ == moves_for(emissions, g0[j0].0, n));
                    }
                }
            }
        },
    }
}

} // verus!
