//! Item categories, and the category a container is for.
use vstd::prelude::*;

verus! {

/// The category of an item kind, under which bulk storage is organised.
#[derive(Debug, Clone, Copy, PartialEq, Eq, Structural)]
pub enum ItemCategory {
    /// All rock types and their byproducts.
    Rocks,
    /// All wood types and their byproducts.
    Wood,
    /// All other natural blocks, like grass, dirt, clay, sand and gravel.
    Nature,
    /// All tools, and enchantment books.
    Tools,
    /// Materials, including valuables.
    Materials,
    /// All food.
    Food,
    /// Mob drops not covered by another category.
    MobDrops,
    /// Everything that has no other place.
    Other,
}

/// The items of `category` among `stacks[..n]`, a negative quantity
/// counting as none.
pub open spec fn tally(stacks: Seq<(Option<ItemCategory>, i32)>, category: ItemCategory, n: int) -> int
    decreases n,
{
    if n <= 0 {
        0
    } else {
        tally(stacks, category, n - 1) + if stacks[n - 1].0 == Some(category) && stacks[n - 1].1 > 0 {
            stacks[n - 1].1 as int
        } else {
            0
        }
    }
}

/// Whether some stack of `stacks` has `category`.
pub open spec fn has_category(stacks: Seq<(Option<ItemCategory>, i32)>, category: ItemCategory) -> bool {
    exists|i: int| 0 <= i < stacks.len() && (#[trigger] stacks[i]).0 == Some(category)
}

pub proof fn lemma_tally_bounds(stacks: Seq<(Option<ItemCategory>, i32)>, category: ItemCategory, n: int)
    requires
        0 <= n <= stacks.len(),
    ensures
        0 <= tally(stacks, category, n) <= n * 0x8000_0000,
    decreases n,
{
    if n > 0 {
        lemma_tally_bounds(stacks, category, n - 1);
    }
}

fn tally_of(stacks: &Vec<(Option<ItemCategory>, i32)>, category: ItemCategory) -> (result: (u128, bool))
    ensures
        result.0 == tally(stacks@, category, stacks@.len() as int),
        result.1 == has_category(stacks@, category),
{
    let mut total: u128 = 0;
    let mut found = false;
    let mut i: usize = 0;
    while i < stacks.len()
        invariant
            i <= stacks@.len(),
            total == tally(stacks@, category, i as int),
            found == exists|j: int| 0 <= j < i && (#[trigger] stacks@[j]).0 == Some(category),
        decreases stacks.len() - i,
    {
        proof {
            lemma_tally_bounds(stacks@, category, i + 1);
            assert((i + 1) * 0x8000_0000 <= 0x1_0000_0000_0000_0000 * 0x8000_0000) by (nonlinear_arith)
                requires
                    i < 0x1_0000_0000_0000_0000,
            ;
        }
        if stacks[i].0 == Some(category) {
            found = true;
            if stacks[i].1 > 0 {
                total = total + stacks[i].1 as u128;
            }
        }
        i = i + 1;
    }
    (total, found)
}

/// The category a container holding `stacks` is for: of the categories its
/// stacks have (each stack with its item kind's category, if it has one,
/// and its quantity), one whose stacks hold the most items, negative
/// quantities counting as none. `None` when no stack has a category.
pub fn categorize(stacks: &Vec<(Option<ItemCategory>, i32)>) -> (category: Option<ItemCategory>)
    ensures
        category is None <==> forall|c: ItemCategory| !#[trigger] has_category(stacks@, c),
        category matches Some(c) ==> has_category(stacks@, c) && forall|other: ItemCategory|
            #[trigger] has_category(stacks@, other) ==> tally(stacks@, other, stacks@.len() as int)
                <= tally(stacks@, c, stacks@.len() as int),
{
    let all = [
        ItemCategory::Rocks,
        ItemCategory::Wood,
        ItemCategory::Nature,
        ItemCategory::Tools,
        ItemCategory::Materials,
        ItemCategory::Food,
        ItemCategory::MobDrops,
        ItemCategory::Other,
    ];
    let mut best: Option<(ItemCategory, u128)> = None;
    let mut k: usize = 0;
    while k < 8
        invariant
            k <= 8,
            all@ == seq![
                ItemCategory::Rocks,
                ItemCategory::Wood,
                ItemCategory::Nature,
                ItemCategory::Tools,
                ItemCategory::Materials,
                ItemCategory::Food,
                ItemCategory::MobDrops,
                ItemCategory::Other,
            ],
            best matches Some((c, t)) ==> has_category(stacks@, c) && t == tally(stacks@, c, stacks@.len() as int),
            forall|j: int| 0 <= j < k ==> (#[trigger] has_category(stacks@, all@[j])) ==> (best matches Some((c, t))
                && tally(stacks@, all@[j], stacks@.len() as int) <= t),
        decreases 8 - k,
    {
        let category = all[k];
        let (total, found) = tally_of(stacks, category);
        if found {
            match best {
                Some((_, t)) => {
                    if total > t {
                        best = Some((category, total));
                    }
                },
                None => {
                    best = Some((category, total));
                },
            }
        }
        k = k + 1;
    }
    proof {
        assert forall|c: ItemCategory| #[trigger] has_category(stacks@, c) implies (best matches Some((b, t))
            && tally(stacks@, c, stacks@.len() as int) <= t) by {
            let j: int = match c {
                ItemCategory::Rocks => 0,
                ItemCategory::Wood => 1,
                ItemCategory::Nature => 2,
                ItemCategory::Tools => 3,
                ItemCategory::Materials => 4,
                ItemCategory::Food => 5,
                ItemCategory::MobDrops => 6,
                ItemCategory::Other => 7,
            };
            assert(all@[j] == c);
        }
    }
    match best {
        Some((c, _)) => Some(c),
        None => None,
    }
}

} // verus!
