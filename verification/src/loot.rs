use vstd::prelude::*;

use crate::items::{Item, MiscKind, WeaponKind};
use crate::rng::random_below;

verus! {

/// Names one of the fixed loot tables of the game, so that a tile or an
/// enemy can carry a reference to its drops as plain data.
#[derive(Clone, Copy, PartialEq, Eq, Structural, Debug)]
pub enum LootKind {
    Bush,
    Mushroom,
    SkeletonDrops,
    ZombieDrops,
    Iron,
}

/// One weighted alternative of a loot table: no drop, a concrete item, or a
/// nested table resolved recursively.
pub enum LootEntry {
    Nothing,
    Drop(Item),
    Sub(Box<LootTable>),
}

/// Specifies possible loot drops of an enemy or chest.  Weights are stored
/// in tenths, so fractional weightings stay in integer arithmetic.
pub struct LootTable {
    pub entries: Vec<(u32, LootEntry)>,
}

/// Sum of the weights of the entries before index `n`.
pub open spec fn weight_sum(entries: Seq<(u32, LootEntry)>, n: int) -> int
    decreases n,
{
    if n <= 0 {
        0
    } else {
        weight_sum(entries, n - 1) + entries[n - 1].0
    }
}

/// The index selected by a roll `r`: the first index whose cumulative weight
/// exceeds `r`.
pub open spec fn chosen_index(entries: Seq<(u32, LootEntry)>, r: int, n: int) -> int
    decreases n,
{
    if n <= 0 {
        0
    } else if chosen_index(entries, r, n - 1) < n - 1 {
        chosen_index(entries, r, n - 1)
    } else if r < weight_sum(entries, n) {
        n - 1
    } else {
        n
    }
}

proof fn lemma_weight_sum_bounds(entries: Seq<(u32, LootEntry)>, n: int)
    requires
        0 <= n,
    ensures
        weight_sum(entries, n) >= 0,
    decreases n,
{
    if n > 0 {
        lemma_weight_sum_bounds(entries, n - 1);
    }
}

/// A roll below the total always lands on an entry of positive weight; a
/// roll at or past the total scans off the end.
proof fn lemma_chosen_in_range(entries: Seq<(u32, LootEntry)>, r: int, n: int)
    requires
        0 <= r,
        0 <= n,
    ensures
        r < weight_sum(entries, n) ==> 0 <= chosen_index(entries, r, n) < n
            && entries[chosen_index(entries, r, n)].0 > 0 && weight_sum(
            entries,
            chosen_index(entries, r, n),
        ) <= r,
        r >= weight_sum(entries, n) ==> chosen_index(entries, r, n) == n,
    decreases n,
{
    if n > 0 {
        lemma_chosen_in_range(entries, r, n - 1);
    }
}

/// Pick the entry a roll `r` selects: cumulative weighted choice over the
/// listed weights.  This is the deterministic half of the draw; it is exact
/// for every roll below the total weight.
pub fn weighted_pick(choices: &Vec<(u32, LootEntry)>, r: u32) -> (idx: usize)
    requires
        r < weight_sum(choices@, choices@.len() as int),
        weight_sum(choices@, choices@.len() as int) <= u32::MAX,
    ensures
        idx < choices@.len(),
        idx == chosen_index(choices@, r as int, choices@.len() as int),
        choices@[idx as int].0 > 0,
{
    let n = choices.len();
    let mut upto: u32 = 0;
    let mut i: usize = 0;
    proof {
        lemma_chosen_in_range(choices@, r as int, n as int);
    }
    loop
        invariant
            i <= n,
            n == choices@.len(),
            r < weight_sum(choices@, n as int),
            weight_sum(choices@, n as int) <= u32::MAX,
            upto == weight_sum(choices@, i as int),
            chosen_index(choices@, r as int, i as int) == i,
            upto <= r,
        ensures
            i < n,
            i == chosen_index(choices@, r as int, n as int),
            choices@[i as int].0 > 0,
        decreases n - i,
    {
        proof {
            lemma_chosen_in_range(choices@, r as int, n as int);
            if i >= n {
                lemma_weight_sum_monotone(choices@, n as int, i as int);
                assert(false);
            }
            lemma_weight_sum_monotone(choices@, (i + 1) as int, n as int);
        }
        let w = choices[i].0;
        assert(upto + w == weight_sum(choices@, i + 1));
        if upto + w > r {
            proof {
                assert(chosen_index(choices@, r as int, (i + 1) as int) == i);
                lemma_chosen_stable(choices@, r as int, (i + 1) as int, n as int);
            }
            return i;
        }
        upto = upto + w;
        i = i + 1;
    }
}

/// Once the choice settles on an index before `m`, extending the scan to `n`
/// does not change it.
proof fn lemma_chosen_stable(entries: Seq<(u32, LootEntry)>, r: int, m: int, n: int)
    requires
        0 <= m <= n,
        chosen_index(entries, r, m) < m,
    ensures
        chosen_index(entries, r, n) == chosen_index(entries, r, m),
    decreases n - m,
{
    if m < n {
        lemma_chosen_stable(entries, r, m, n - 1);
    }
}

/// Total weight of a table, as executable code.
pub fn total_weight(choices: &Vec<(u32, LootEntry)>) -> (t: Option<u32>)
    ensures
        t is Some ==> t->0 == weight_sum(choices@, choices@.len() as int),
        t is None ==> weight_sum(choices@, choices@.len() as int) > u32::MAX,
{
    let mut total: u32 = 0;
    let mut i: usize = 0;
    while i < choices.len()
        invariant
            i <= choices@.len(),
            total == weight_sum(choices@, i as int),
        decreases choices@.len() - i,
    {
        let w = choices[i].0;
        if total > u32::MAX - w {
            proof {
                lemma_weight_sum_monotone(choices@, (i + 1) as int, choices@.len() as int);
            }
            return None;
        }
        total = total + w;
        i = i + 1;
    }
    Some(total)
}

proof fn lemma_weight_sum_monotone(entries: Seq<(u32, LootEntry)>, m: int, n: int)
    requires
        0 <= m <= n,
    ensures
        weight_sum(entries, m) <= weight_sum(entries, n),
    decreases n - m,
{
    if m < n {
        lemma_weight_sum_monotone(entries, m, n - 1);
    }
}

impl LootTable {
    /// The items a table can drop, at any nesting depth.
    pub open spec fn can_drop(self, it: Item) -> bool
        decreases self,
    {
        exists|i: int|
            0 <= i < self.entries@.len() && match #[trigger] self.entries@[i].1 {
                LootEntry::Nothing => false,
                LootEntry::Drop(d) => d == it,
                LootEntry::Sub(t) => t.can_drop(it),
            }
    }

    /// Draw one item from the table: a weighted choice among the entries,
    /// resolved through nested tables.  Every item handed back is one the
    /// table lists; a draw may also land on a "no drop" entry.
    pub fn get_item(&self) -> (r: Option<Item>)
        ensures
            r is Some ==> self.can_drop(r->0),
            0 < weight_sum(self.entries@, self.entries@.len() as int) <= u32::MAX && (forall|i: int|
                0 <= i < self.entries@.len() ==> (#[trigger] self.entries@[i]).1 is Drop)
                ==> r is Some,
        decreases *self,
    {
        let total = match total_weight(&self.entries) {
            Some(t) => t,
            None => {
                return None;
            },
        };
        if total == 0 {
            return None;
        }
        let roll = random_below(total as usize) as u32;
        let idx = weighted_pick(&self.entries, roll);
        match &self.entries[idx].1 {
            LootEntry::Nothing => None,
            LootEntry::Drop(d) => {
                proof {
                    assert(match self.entries@[idx as int].1 {
                        LootEntry::Nothing => false,
                        LootEntry::Drop(dd) => dd == *d,
                        LootEntry::Sub(_) => false,
                    });
                }
                Some(*d)
            },
            LootEntry::Sub(t) => {
                let sub = t.get_item();
                proof {
                    if sub is Some {
                        assert(match self.entries@[idx as int].1 {
                            LootEntry::Nothing => false,
                            LootEntry::Drop(_) => false,
                            LootEntry::Sub(tt) => tt.can_drop(sub->0),
                        });
                    }
                }
                sub
            },
        }
    }
}


/// Draw one entry from a weighted list: a fresh roll below the total weight
/// picks the first entry whose cumulative weight exceeds it.  The entry
/// handed back always has positive weight.
pub fn weighted_choice(choices: &Vec<(u32, LootEntry)>) -> (r: &LootEntry)
    requires
        0 < weight_sum(choices@, choices@.len() as int) <= u32::MAX,
    ensures
        exists|i: int| 0 <= i < choices@.len() && (#[trigger] choices@[i]).0 > 0 && *r == choices@[i].1,
{
    let total = match total_weight(choices) {
        Some(t) => t,
        None => {
            proof {
                assert(false);
            }
            0
        },
    };
    let roll = random_below(total as usize) as u32;
    let idx = weighted_pick(choices, roll);
    proof {
        assert(choices@[idx as int].0 > 0 && choices@[idx as int].1 == choices@[idx as int].1);
    }
    &choices[idx].1
}

/// Build the named loot table.
pub fn loot_table(kind: LootKind) -> (t: LootTable)
    ensures
        weight_sum(t.entries@, t.entries@.len() as int) > 0,
{
    let entries: Vec<(u32, LootEntry)> = match kind {
        LootKind::Bush => vec![
            (10, LootEntry::Drop(Item::Misc(MiscKind::Stick))),
            (20, LootEntry::Drop(Item::Misc(MiscKind::Leaf))),
            (10, LootEntry::Nothing),
        ],
        LootKind::Mushroom => vec![(10, LootEntry::Drop(Item::Misc(MiscKind::PoisonMushroom)))],
        LootKind::SkeletonDrops => vec![
            (10, LootEntry::Drop(Item::Misc(MiscKind::Stick))),
            (10, LootEntry::Drop(Item::Misc(MiscKind::Bone))),
            (1, LootEntry::Drop(Item::Weapon(WeaponKind::Shortbow))),
            (10, LootEntry::Nothing),
        ],
        LootKind::ZombieDrops => vec![
            (30, LootEntry::Drop(Item::Misc(MiscKind::Flesh))),
            (10, LootEntry::Nothing),
        ],
        LootKind::Iron => vec![
            (30, LootEntry::Drop(Item::Misc(MiscKind::IronChunk))),
            (10, LootEntry::Nothing),
        ],
    };
    let t = LootTable { entries };
    proof {
        reveal_with_fuel(weight_sum, 5);
    }
    t
}

} // verus!
