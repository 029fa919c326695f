use dunfog::items::{
    combinable, combine, get_combinable, item_can_go_in_slot, throwable, ArmorKind, Item, MiscKind,
    WeaponKind,
};
use dunfog::loot::{loot_table, weighted_choice, weighted_pick, LootEntry, LootKind};

#[test]
fn test_weighted_choice() {
    macroquad::rand::srand(0xdecafbad);
    let data: Vec<(u32, LootEntry)> = vec![
        (5, LootEntry::Drop(Item::Weapon(WeaponKind::Dagger))),
        (5, LootEntry::Drop(Item::Weapon(WeaponKind::Shortbow))),
        (5, LootEntry::Drop(Item::Weapon(WeaponKind::Melee))),
    ];
    weighted_choice(&data);
}

#[test]
fn weighted_pick_follows_cumulative_weights() {
    let data: Vec<(u32, LootEntry)> = vec![
        (10, LootEntry::Nothing),
        (20, LootEntry::Drop(Item::Misc(MiscKind::Stick))),
        (5, LootEntry::Drop(Item::Misc(MiscKind::Leaf))),
    ];
    assert_eq!(weighted_pick(&data, 0), 0);
    assert_eq!(weighted_pick(&data, 9), 0);
    assert_eq!(weighted_pick(&data, 10), 1);
    assert_eq!(weighted_pick(&data, 29), 1);
    assert_eq!(weighted_pick(&data, 30), 2);
    assert_eq!(weighted_pick(&data, 34), 2);
}

#[test]
fn weighted_pick_skips_zero_weight_entries() {
    let data: Vec<(u32, LootEntry)> = vec![
        (0, LootEntry::Nothing),
        (7, LootEntry::Drop(Item::Misc(MiscKind::Bone))),
    ];
    assert_eq!(weighted_pick(&data, 0), 1);
    assert_eq!(weighted_pick(&data, 6), 1);
}

#[test]
fn mushroom_table_always_drops_the_mushroom() {
    macroquad::rand::srand(99);
    let t = loot_table(LootKind::Mushroom);
    for _ in 0..10 {
        assert_eq!(t.get_item(), Some(Item::Misc(MiscKind::PoisonMushroom)));
    }
}

#[test]
fn bush_table_drops_only_listed_items() {
    macroquad::rand::srand(4242);
    let t = loot_table(LootKind::Bush);
    for _ in 0..50 {
        match t.get_item() {
            Some(it) => assert!(
                it == Item::Misc(MiscKind::Stick) || it == Item::Misc(MiscKind::Leaf)
            ),
            None => {},
        }
    }
}

#[test]
fn crafting_table_is_symmetric() {
    let spear = combine(Item::Misc(MiscKind::Stone), Item::Misc(MiscKind::Stick));
    assert_eq!(spear, Item::Weapon(WeaponKind::StoneSpear));
    let spear2 = combine(Item::Misc(MiscKind::Stick), Item::Misc(MiscKind::Stone));
    assert_eq!(spear2, Item::Weapon(WeaponKind::StoneSpear));
    let tunic = combine(Item::Misc(MiscKind::Fiber), Item::Misc(MiscKind::Fiber));
    assert_eq!(tunic, Item::Armor(ArmorKind::Tunic));
    let longbow = combine(
        Item::Weapon(WeaponKind::Shortbow),
        Item::Weapon(WeaponKind::Shortbow),
    );
    assert_eq!(longbow, Item::Weapon(WeaponKind::Longbow));
}

#[test]
fn uncombinable_pairs_are_reported() {
    assert!(!combinable(Item::Misc(MiscKind::Bone), Item::Misc(MiscKind::Leaf)));
    assert!(combinable(Item::Misc(MiscKind::PoisonMushroom), Item::Misc(MiscKind::Stone)));
}

#[test]
fn get_combinable_lists_matching_slots() {
    let items: Vec<Option<Item>> = vec![
        Some(Item::Misc(MiscKind::Stone)),
        Some(Item::Misc(MiscKind::Stick)),
        None,
        Some(Item::Misc(MiscKind::Bone)),
        Some(Item::Misc(MiscKind::Leaf)),
    ];
    // the stone combines with the stick (a spear) and the bone (a spear)
    let c = get_combinable(&items, 0);
    assert!(c.contains(&1));
    assert!(c.contains(&3));
    assert!(!c.contains(&0));
    assert!(!c.contains(&2));
    assert!(!c.contains(&4));
}

#[test]
fn slot_discipline() {
    let weapon = Some(Item::Weapon(WeaponKind::Dagger));
    let armor = Some(Item::Armor(ArmorKind::Tunic));
    let misc = Some(Item::Misc(MiscKind::Stick));
    assert!(item_can_go_in_slot(&weapon, 0));
    assert!(!item_can_go_in_slot(&weapon, 1));
    assert!(item_can_go_in_slot(&weapon, 2));
    assert!(!item_can_go_in_slot(&armor, 0));
    assert!(item_can_go_in_slot(&armor, 1));
    assert!(!item_can_go_in_slot(&misc, 0));
    assert!(!item_can_go_in_slot(&misc, 1));
    assert!(item_can_go_in_slot(&misc, 5));
    assert!(item_can_go_in_slot(&None, 0));
}

#[test]
fn throwables_carry_their_damage() {
    assert_eq!(throwable(Item::Misc(MiscKind::Stone)), Some(30));
    assert_eq!(throwable(Item::Weapon(WeaponKind::StoneSpear)), Some(60));
    assert_eq!(throwable(Item::Misc(MiscKind::Stick)), None);
    assert_eq!(throwable(Item::Armor(ArmorKind::IronArmor)), None);
}
