use vstd::prelude::*;

verus! {

/// Damage and healing amounts are stored in tenths of a hit point, so that
/// fractional values stay in integer arithmetic.
#[derive(Clone, Copy, PartialEq, Eq, Structural, Debug)]
pub enum WeaponKind {
    Melee,
    Dagger,
    Shortbow,
    Longbow,
    Spellbook,
    StoneSpear,
    BoneSpear,
}

#[derive(Clone, Copy, PartialEq, Eq, Structural, Debug)]
pub enum ArmorKind {
    IronArmor,
    Tunic,
}

#[derive(Clone, Copy, PartialEq, Eq, Structural, Debug)]
pub enum MiscKind {
    Stick,
    Bone,
    Stone,
    Flesh,
    Rations,
    Leaf,
    Fiber,
    PoisonMushroom,
    PoisonRock,
    SlimeGel,
    Pickaxe,
    IronChunk,
}

#[derive(Clone, Copy, PartialEq, Eq, Structural, Debug, Hash)]
pub enum StatusEffect {
    Poison,
}

#[derive(Clone, Copy, PartialEq, Eq, Structural, Debug)]
pub enum Item {
    Weapon(WeaponKind),
    Armor(ArmorKind),
    Misc(MiscKind),
}

/// Start of a weapon's attack interval (inclusive), in whole tiles of distance.
pub open spec fn spec_weapon_min_range(w: WeaponKind) -> usize {
    match w {
        WeaponKind::Melee => 1,
        WeaponKind::Dagger => 1,
        WeaponKind::Shortbow => 2,
        WeaponKind::Longbow => 2,
        WeaponKind::Spellbook => 2,
        WeaponKind::StoneSpear => 1,
        WeaponKind::BoneSpear => 1,
    }
}

/// End of a weapon's attack interval (exclusive).
pub open spec fn spec_weapon_max_range(w: WeaponKind) -> usize {
    match w {
        WeaponKind::Melee => 2,
        WeaponKind::Dagger => 2,
        WeaponKind::Shortbow => 4,
        WeaponKind::Longbow => 5,
        WeaponKind::Spellbook => 4,
        WeaponKind::StoneSpear => 2,
        WeaponKind::BoneSpear => 2,
    }
}

/// Base damage in tenths of a hit point.
pub open spec fn spec_weapon_damage(w: WeaponKind) -> u32 {
    match w {
        WeaponKind::Melee => 10,
        WeaponKind::Dagger => 25,
        WeaponKind::Shortbow => 10,
        WeaponKind::Longbow => 20,
        WeaponKind::Spellbook => 50,
        WeaponKind::StoneSpear => 20,
        WeaponKind::BoneSpear => 20,
    }
}

/// A weapon's attack interval contains a distance `d` when `min <= d < max`.
pub open spec fn weapon_range_contains(w: WeaponKind, d: int) -> bool {
    spec_weapon_min_range(w) <= d < spec_weapon_max_range(w)
}

pub fn weapon_min_range(w: WeaponKind) -> (r: usize)
    ensures
        r == spec_weapon_min_range(w),
{
    match w {
        WeaponKind::Melee => 1,
        WeaponKind::Dagger => 1,
        WeaponKind::Shortbow => 2,
        WeaponKind::Longbow => 2,
        WeaponKind::Spellbook => 2,
        WeaponKind::StoneSpear => 1,
        WeaponKind::BoneSpear => 1,
    }
}

pub fn weapon_max_range(w: WeaponKind) -> (r: usize)
    ensures
        r == spec_weapon_max_range(w),
{
    match w {
        WeaponKind::Melee => 2,
        WeaponKind::Dagger => 2,
        WeaponKind::Shortbow => 4,
        WeaponKind::Longbow => 5,
        WeaponKind::Spellbook => 4,
        WeaponKind::StoneSpear => 2,
        WeaponKind::BoneSpear => 2,
    }
}

pub fn weapon_damage(w: WeaponKind) -> (r: u32)
    ensures
        r == spec_weapon_damage(w),
{
    match w {
        WeaponKind::Melee => 10,
        WeaponKind::Dagger => 25,
        WeaponKind::Shortbow => 10,
        WeaponKind::Longbow => 20,
        WeaponKind::Spellbook => 50,
        WeaponKind::StoneSpear => 20,
        WeaponKind::BoneSpear => 20,
    }
}

/// Damage dealt when the item is thrown, in tenths of a hit point;
/// `None` for items that cannot be thrown.
pub open spec fn spec_throw_damage(it: Item) -> Option<u32> {
    match it {
        Item::Weapon(WeaponKind::StoneSpear) => Some(60),
        Item::Weapon(WeaponKind::BoneSpear) => Some(60),
        Item::Misc(MiscKind::Stone) => Some(30),
        Item::Misc(MiscKind::PoisonMushroom) => Some(0),
        Item::Misc(MiscKind::PoisonRock) => Some(30),
        _ => None,
    }
}

pub fn throwable(it: Item) -> (r: Option<u32>)
    ensures
        r == spec_throw_damage(it),
{
    match it {
        Item::Weapon(WeaponKind::StoneSpear) => Some(60),
        Item::Weapon(WeaponKind::BoneSpear) => Some(60),
        Item::Misc(MiscKind::Stone) => Some(30),
        Item::Misc(MiscKind::PoisonMushroom) => Some(0),
        Item::Misc(MiscKind::PoisonRock) => Some(30),
        _ => None,
    }
}

/// Chance that the armor blocks a hit, in percent.
pub open spec fn spec_armor_block_pct(a: ArmorKind) -> u32 {
    match a {
        ArmorKind::IronArmor => 40,
        ArmorKind::Tunic => 30,
    }
}

pub fn armor_block_pct(a: ArmorKind) -> (r: u32)
    ensures
        r == spec_armor_block_pct(a),
{
    match a {
        ArmorKind::IronArmor => 40,
        ArmorKind::Tunic => 30,
    }
}

/// Healing granted when the item is consumed (tenths of a hit point) and the
/// status effect it inflicts, for consumable items.
pub open spec fn spec_consumable(m: MiscKind) -> Option<(u32, Option<StatusEffect>)> {
    match m {
        MiscKind::Flesh => Some((20, None)),
        MiscKind::Rations => Some((30, None)),
        MiscKind::PoisonMushroom => Some((0, Some(StatusEffect::Poison))),
        MiscKind::PoisonRock => Some((0, Some(StatusEffect::Poison))),
        MiscKind::SlimeGel => Some((10, None)),
        _ => None,
    }
}

pub fn consumable(m: MiscKind) -> (r: Option<(u32, Option<StatusEffect>)>)
    ensures
        r == spec_consumable(m),
{
    match m {
        MiscKind::Flesh => Some((20, None)),
        MiscKind::Rations => Some((30, None)),
        MiscKind::PoisonMushroom => Some((0, Some(StatusEffect::Poison))),
        MiscKind::PoisonRock => Some((0, Some(StatusEffect::Poison))),
        MiscKind::SlimeGel => Some((10, None)),
        _ => None,
    }
}

/// The crafting table: the result of combining the given unordered pair of
/// items, tried in a fixed order, or `None` when no recipe applies.
pub open spec fn spec_combine(a: Item, b: Item) -> Option<Item> {
    if pair_matches(a, b, Item::Misc(MiscKind::Stone), Item::Misc(MiscKind::Stick)) {
        Some(Item::Weapon(WeaponKind::StoneSpear))
    } else if pair_matches(a, b, Item::Misc(MiscKind::Leaf), Item::Misc(MiscKind::Leaf)) {
        Some(Item::Misc(MiscKind::Fiber))
    } else if pair_matches(a, b, Item::Misc(MiscKind::Fiber), Item::Misc(MiscKind::Fiber)) {
        Some(Item::Armor(ArmorKind::Tunic))
    } else if pair_matches(a, b, Item::Misc(MiscKind::Leaf), Item::Misc(MiscKind::Flesh)) {
        Some(Item::Misc(MiscKind::Rations))
    } else if pair_matches(a, b, Item::Misc(MiscKind::Bone), Item::Misc(MiscKind::Stone)) {
        Some(Item::Weapon(WeaponKind::BoneSpear))
    } else if pair_matches(a, b, Item::Misc(MiscKind::Fiber), Item::Misc(MiscKind::Stick)) {
        Some(Item::Weapon(WeaponKind::Shortbow))
    } else if pair_matches(a, b, Item::Weapon(WeaponKind::Shortbow), Item::Weapon(WeaponKind::Shortbow)) {
        Some(Item::Weapon(WeaponKind::Longbow))
    } else if pair_matches(a, b, Item::Misc(MiscKind::PoisonMushroom), Item::Misc(MiscKind::Stone)) {
        Some(Item::Misc(MiscKind::PoisonRock))
    } else {
        None
    }
}

/// Whether `(a, b)` is the pair `(x, y)` in either order.
pub open spec fn pair_matches(a: Item, b: Item, x: Item, y: Item) -> bool {
    (a == x && b == y) || (a == y && b == x)
}

fn pair_eq(a: Item, b: Item, x: Item, y: Item) -> (r: bool)
    ensures
        r == pair_matches(a, b, x, y),
{
    (a == x && b == y) || (a == y && b == x)
}

/// Combine two items by the crafting table.  The caller must already know
/// that a recipe exists for the pair; `get_combinable` reports which pairs do.
pub fn combine(a: Item, b: Item) -> (r: Item)
    requires
        spec_combine(a, b) is Some,
    ensures
        Some(r) == spec_combine(a, b),
{
    if pair_eq(a, b, Item::Misc(MiscKind::Stone), Item::Misc(MiscKind::Stick)) {
        Item::Weapon(WeaponKind::StoneSpear)
    } else if pair_eq(a, b, Item::Misc(MiscKind::Leaf), Item::Misc(MiscKind::Leaf)) {
        Item::Misc(MiscKind::Fiber)
    } else if pair_eq(a, b, Item::Misc(MiscKind::Fiber), Item::Misc(MiscKind::Fiber)) {
        Item::Armor(ArmorKind::Tunic)
    } else if pair_eq(a, b, Item::Misc(MiscKind::Leaf), Item::Misc(MiscKind::Flesh)) {
        Item::Misc(MiscKind::Rations)
    } else if pair_eq(a, b, Item::Misc(MiscKind::Bone), Item::Misc(MiscKind::Stone)) {
        Item::Weapon(WeaponKind::BoneSpear)
    } else if pair_eq(a, b, Item::Misc(MiscKind::Fiber), Item::Misc(MiscKind::Stick)) {
        Item::Weapon(WeaponKind::Shortbow)
    } else if pair_eq(a, b, Item::Weapon(WeaponKind::Shortbow), Item::Weapon(WeaponKind::Shortbow)) {
        Item::Weapon(WeaponKind::Longbow)
    } else {
        Item::Misc(MiscKind::PoisonRock)
    }
}

/// Indices of the inventory slots whose item can be combined with the item in
/// `items[index]`: exactly those other occupied slots for which the crafting
/// table has a recipe.
pub fn get_combinable(items: &Vec<Option<Item>>, index: usize) -> (r: Vec<usize>)
    requires
        index < items@.len(),
    ensures
        forall|j: usize|
            r@.contains(j) <==> (j < items@.len() && j != index && items@[index as int] is Some
                && items@[j as int] is Some && #[trigger] spec_combine(
                items@[index as int]->0,
                items@[j as int]->0,
            ) is Some),
{
    let mut r: Vec<usize> = Vec::new();
    let target = items[index];
    if target.is_none() {
        assert(forall|j: usize| !r@.contains(j));
        return r;
    }
    let target = target.unwrap();
    let mut i: usize = 0;
    while i < items.len()
        invariant
            index < items@.len(),
            items@[index as int] == Some(target),
            i <= items@.len(),
            forall|j: usize|
                r@.contains(j) <==> (j < i && j != index && items@[j as int] is Some
                    && #[trigger] spec_combine(target, items@[j as int]->0) is Some),
        decreases items@.len() - i,
    {
        if i != index {
            match items[i] {
                Some(other) => {
                    if combinable(target, other) {
                        let ghost old_r = r@;
                        r.push(i);
                        proof {
                            assert(r@[old_r.len() as int] == i);
                            assert forall|j: usize| r@.contains(j) implies old_r.contains(j) || j
                                == i by {
                                let k = choose|k: int| 0 <= k < r@.len() && r@[k] == j;
                                if k < old_r.len() {
                                    assert(old_r[k] == j);
                                }
                            };
                            assert forall|j: usize| old_r.contains(j) implies r@.contains(j) by {
                                let k = choose|k: int| 0 <= k < old_r.len() && old_r[k] == j;
                                assert(r@[k] == j);
                            };
                        }
                    }
                },
                None => {},
            }
        }
        i = i + 1;
    }
    r
}

/// Whether the crafting table has a recipe for the pair.
pub fn combinable(a: Item, b: Item) -> (r: bool)
    ensures
        r == (spec_combine(a, b) is Some),
{
    if pair_eq(a, b, Item::Misc(MiscKind::Stone), Item::Misc(MiscKind::Stick)) {
        true
    } else if pair_eq(a, b, Item::Misc(MiscKind::Leaf), Item::Misc(MiscKind::Leaf)) {
        true
    } else if pair_eq(a, b, Item::Misc(MiscKind::Fiber), Item::Misc(MiscKind::Fiber)) {
        true
    } else if pair_eq(a, b, Item::Misc(MiscKind::Leaf), Item::Misc(MiscKind::Flesh)) {
        true
    } else if pair_eq(a, b, Item::Misc(MiscKind::Bone), Item::Misc(MiscKind::Stone)) {
        true
    } else if pair_eq(a, b, Item::Misc(MiscKind::Fiber), Item::Misc(MiscKind::Stick)) {
        true
    } else if pair_eq(a, b, Item::Weapon(WeaponKind::Shortbow), Item::Weapon(WeaponKind::Shortbow)) {
        true
    } else {
        pair_eq(a, b, Item::Misc(MiscKind::PoisonMushroom), Item::Misc(MiscKind::Stone))
    }
}

/// Slot discipline of the inventory: slot 0 holds the weapon, slot 1 the
/// armor, the rest general items; an empty hand fits anywhere.
pub open spec fn spec_item_can_go_in_slot(item: Option<Item>, slot: usize) -> bool {
    match item {
        Some(Item::Armor(_)) => slot >= 1,
        Some(Item::Weapon(_)) => slot == 0 || slot > 1,
        Some(Item::Misc(_)) => slot > 1,
        None => true,
    }
}

pub fn item_can_go_in_slot(item: &Option<Item>, slot: usize) -> (r: bool)
    ensures
        r == spec_item_can_go_in_slot(*item, slot),
{
    match item {
        Some(Item::Armor(_)) => slot >= 1,
        Some(Item::Weapon(_)) => slot == 0 || slot > 1,
        Some(Item::Misc(_)) => slot > 1,
        None => true,
    }
}

} // verus!
