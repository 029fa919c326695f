use vstd::prelude::*;

use crate::dungeon::Dungeon;
use crate::geom::{cell_distance, dir64, nearest_dir64, ray_dir, spec_dist};
use crate::grid::{
    adjacent, idx_spec, in_grid, lemma_idx_bounds, lemma_idx_injective, tile_index, walkable_at,
    Tile,
};
use crate::items::{
    spec_armor_block_pct, weapon_damage, weapon_max_range, weapon_min_range, weapon_range_contains,
    ArmorKind, Item, MiscKind, StatusEffect, WeaponKind,
};
use crate::loot::LootKind;
use crate::pathfind::find_path;
use crate::rng::random_below;
use crate::{GRID_AREA, TILES_HORIZONTAL, TILES_VERTICAL};

verus! {

/// What the player resolved to do this turn.
#[derive(Clone, Copy, Debug)]
pub enum PlayerAction {
    MoveDirection((i32, i32)),
    Attack((i32, i32)),
    Wait,
    GotoNextDungeon,
}

/// Per-cell player memory: never seen, currently in sight, or seen before.
#[derive(Clone, Copy, PartialEq, Eq, Structural, Debug)]
pub enum TileStatus {
    Unknown,
    Known,
    Remembered,
}

impl TileStatus {
    pub fn is_unknown(self) -> (r: bool)
        ensures
            r == (self is Unknown),
    {
        matches!(self, TileStatus::Unknown)
    }
}

/// Number of inventory slots; slot 0 is the weapon, slot 1 the armor.
pub const INVENTORY_SLOTS: usize = 14;

/// Player health at the start of a run, in tenths of a hit point.
pub const MAX_PLAYER_HP: i32 = 200;

/// Poison damage per turn, in tenths of a hit point.
pub const POISON_TICK: u32 = 20;

pub struct Player {
    pub active_action: Option<PlayerAction>,
    /// Queued path for click-to-move, consumed back to front.
    pub moving_to: Vec<(usize, usize)>,
    pub x: usize,
    pub y: usize,
    /// Fog-of-war memory, one entry per grid cell.
    pub tile_status: Vec<TileStatus>,
    pub inventory: Vec<Option<Item>>,
    /// In tenths of a hit point; at or below zero the player is dead.
    pub health: i32,
    pub was_damaged: bool,
    /// Active status effects with the turns they have left, keyed uniquely.
    pub status_effects: Vec<(StatusEffect, u32)>,
    pub enemies_slayed: u32,
}

impl Player {
    /// Structural soundness: sized memory and inventory, an on-grid
    /// position, the slot discipline for the two equipment slots, and
    /// uniquely keyed status effects.
    pub open spec fn wf(self) -> bool {
        &&& self.tile_status@.len() == GRID_AREA
        &&& self.inventory@.len() == INVENTORY_SLOTS
        &&& in_grid((self.x, self.y))
        &&& forall|i: int| 0 <= i < self.moving_to@.len() ==> in_grid(#[trigger] self.moving_to@[i])
        &&& match self.inventory@[0] {
            Some(it) => it is Weapon,
            None => true,
        }
        &&& match self.inventory@[1] {
            Some(it) => it is Armor,
            None => true,
        }
        &&& forall|i: int, j: int|
            0 <= i < j < self.status_effects@.len() ==> (#[trigger] self.status_effects@[i]).0 != (
            #[trigger] self.status_effects@[j]).0
    }

    pub open spec fn pos(self) -> (usize, usize) {
        (self.x, self.y)
    }

    /// The weapon the player swings: the one in slot 0, bare hands
    /// otherwise.
    pub open spec fn spec_weapon(self) -> WeaponKind {
        match self.inventory@[0] {
            Some(Item::Weapon(w)) => w,
            _ => WeaponKind::Melee,
        }
    }
}

/// Whether the armor in the given slot blocks a hit on the given roll, drawn
/// from `[0, 100)`; block chance is in percent.
pub open spec fn blocks(armor_slot: Option<Item>, roll: u32) -> bool {
    match armor_slot {
        Some(Item::Armor(a)) => roll < spec_armor_block_pct(a),
        _ => false,
    }
}

/// Whether a cell lies within the sight rays' bounding box around `p`:
/// the rays sample at most four tiles out along each axis.
pub open spec fn within_sight(p: (usize, usize), c: (usize, usize)) -> bool {
    c.0 <= p.0 + 4 && p.0 <= c.0 + 4 && c.1 <= p.1 + 4 && p.1 <= c.1 + 4
}

/// Turns a freshly inflicted status effect runs for.
pub const EFFECT_TURNS: u32 = 5;

/// Health after healing by `amt` tenths, saturating at the type ceiling.
pub open spec fn healed_health(h: i32, amt: u32) -> int {
    if h + amt <= i32::MAX {
        h + amt
    } else {
        i32::MAX as int
    }
}

/// One turn of ageing for a status-effect list: every effect loses one of
/// its remaining turns, and effects that thereby run out are dropped, in
/// order.
pub open spec fn aged_effects(s: Seq<(StatusEffect, u32)>) -> Seq<(StatusEffect, u32)>
    decreases s.len(),
{
    if s.len() == 0 {
        s
    } else {
        let rest = aged_effects(s.drop_last());
        let e = s.last();
        if e.1 > 1 {
            rest.push((e.0, (e.1 - 1) as u32))
        } else {
            rest
        }
    }
}

/// Health after taking `amt` tenths of damage, saturating at the type floor.
pub open spec fn damaged_health(h: i32, amt: u32) -> int {
    if h - amt >= i32::MIN {
        h - amt
    } else {
        i32::MIN as int
    }
}

impl Default for Player {
    /// The starting player: dagger and iron armor equipped, a stick and a
    /// stone in the pack, full health, the whole grid unexplored.
    fn default() -> (p: Player)
        ensures
            p.wf(),
            p.x == 0 && p.y == 0,
            p.health == MAX_PLAYER_HP,
            forall|i: int| 0 <= i < GRID_AREA ==> p.tile_status@[i] is Unknown,
            p.inventory@[0] == Some(Item::Weapon(WeaponKind::Dagger)),
            p.inventory@[1] == Some(Item::Armor(ArmorKind::IronArmor)),
            p.inventory@[2] == Some(Item::Misc(MiscKind::Stick)),
            p.inventory@[3] == Some(Item::Misc(MiscKind::Stone)),
            forall|i: int| 4 <= i < INVENTORY_SLOTS ==> p.inventory@[i] is None,
            p.moving_to@.len() == 0,
            p.status_effects@.len() == 0,
            p.enemies_slayed == 0,
            p.active_action is None,
    {
        let mut inventory: Vec<Option<Item>> = Vec::new();
        inventory.push(Some(Item::Weapon(WeaponKind::Dagger)));
        inventory.push(Some(Item::Armor(ArmorKind::IronArmor)));
        inventory.push(Some(Item::Misc(MiscKind::Stick)));
        inventory.push(Some(Item::Misc(MiscKind::Stone)));
        let mut i: usize = 4;
        while i < INVENTORY_SLOTS
            invariant
                4 <= i <= INVENTORY_SLOTS,
                inventory@.len() == i,
                inventory@[0] == Some(Item::Weapon(WeaponKind::Dagger)),
                inventory@[1] == Some(Item::Armor(ArmorKind::IronArmor)),
                inventory@[2] == Some(Item::Misc(MiscKind::Stick)),
                inventory@[3] == Some(Item::Misc(MiscKind::Stone)),
                forall|j: int| 4 <= j < i ==> inventory@[j] is None,
            decreases INVENTORY_SLOTS - i,
        {
            inventory.push(None);
            i = i + 1;
        }
        let mut tile_status: Vec<TileStatus> = Vec::new();
        let mut j: usize = 0;
        while j < GRID_AREA
            invariant
                j <= GRID_AREA,
                tile_status@.len() == j,
                forall|k: int| 0 <= k < j ==> tile_status@[k] is Unknown,
            decreases GRID_AREA - j,
        {
            tile_status.push(TileStatus::Unknown);
            j = j + 1;
        }
        Player {
            active_action: None,
            moving_to: Vec::new(),
            x: 0,
            y: 0,
            tile_status,
            inventory,
            health: MAX_PLAYER_HP,
            was_damaged: false,
            status_effects: Vec::new(),
            enemies_slayed: 0,
        }
    }
}

impl Player {
    /// Deterministic half of taking a hit: with the block roll given, the
    /// armor either blocks the hit outright or the full amount lands.
    pub fn damage_with_roll(&mut self, amt: u32, roll: u32)
        requires
            old(self).wf(),
        ensures
            final(self).wf(),
            blocks(old(self).inventory@[1], roll) ==> *final(self) == *old(self),
            !blocks(old(self).inventory@[1], roll) ==> *final(self) == (Player {
                health: damaged_health(old(self).health, amt) as i32,
                was_damaged: true,
                ..*old(self)
            }),
    {
        let blocked = match &self.inventory[1] {
            Some(Item::Armor(a)) => roll < crate::items::armor_block_pct(*a),
            _ => false,
        };
        if !blocked {
            self.was_damaged = true;
            let nh = self.health as i64 - amt as i64;
            self.health = if nh < i32::MIN as i64 {
                i32::MIN
            } else {
                nh as i32
            };
        }
    }

    /// Take a hit: a fresh block roll decides whether the equipped armor
    /// absorbs it; otherwise health drops by exactly the amount.
    pub fn damage(&mut self, amt: u32)
        requires
            old(self).wf(),
        ensures
            final(self).wf(),
            *final(self) == *old(self) || *final(self) == (Player {
                health: damaged_health(old(self).health, amt) as i32,
                was_damaged: true,
                ..*old(self)
            }),
            final(self).health <= old(self).health,
    {
        let roll = random_below(100) as u32;
        self.damage_with_roll(amt, roll);
    }

    /// First free general slot, scanning from slot 2 upward.
    pub fn get_free_slot(&self) -> (r: Option<usize>)
        requires
            self.wf(),
        ensures
            match r {
                Some(i) => 2 <= i < INVENTORY_SLOTS && self.inventory@[i as int] is None
                    && forall|j: int| 2 <= j < i ==> self.inventory@[j] is Some,
                None => forall|j: int| 2 <= j < INVENTORY_SLOTS ==> self.inventory@[j] is Some,
            },
    {
        let mut i: usize = 2;
        while i < INVENTORY_SLOTS
            invariant
                2 <= i <= INVENTORY_SLOTS,
                self.inventory@.len() == INVENTORY_SLOTS,
                forall|j: int| 2 <= j < i ==> self.inventory@[j] is Some,
            decreases INVENTORY_SLOTS - i,
        {
            if self.inventory[i].is_none() {
                return Some(i);
            }
            i = i + 1;
        }
        None
    }

    /// Indices of the enemies the player can currently see: those standing
    /// on a cell remembered as in sight.
    pub fn get_visible_enemies(&self, dungeon: &Dungeon) -> (r: Vec<usize>)
        requires
            self.wf(),
            dungeon.wf(),
        ensures
            forall|k: usize|
                r@.contains(k) <==> (k < dungeon.enemies@.len() && self.tile_status@[idx_spec(
                    #[trigger] dungeon.enemies@[k as int].pos(),
                )] is Known),
            (r@.len() > 0) <==> (exists|j: int|
                0 <= j < dungeon.enemies@.len() && self.tile_status@[idx_spec(
                    (#[trigger] dungeon.enemies@[j]).pos(),
                )] is Known),
            forall|a: int, b: int| 0 <= a < b < r@.len() ==> r@[a] < r@[b],
    {
        let mut r: Vec<usize> = Vec::new();
        let mut k: usize = 0;
        while k < dungeon.enemies.len()
            invariant
                self.wf(),
                dungeon.wf(),
                k <= dungeon.enemies@.len(),
                forall|j: usize|
                    r@.contains(j) <==> (j < k && self.tile_status@[idx_spec(
                        #[trigger] dungeon.enemies@[j as int].pos(),
                    )] is Known),
                (r@.len() > 0) <==> (exists|j: int|
                    0 <= j < k && self.tile_status@[idx_spec(
                        (#[trigger] dungeon.enemies@[j]).pos(),
                    )] is Known),
                forall|a: int, b: int| 0 <= a < b < r@.len() ==> r@[a] < r@[b],
                forall|a: int| 0 <= a < r@.len() ==> r@[a] < k,
            decreases dungeon.enemies@.len() - k,
        {
            let e = &dungeon.enemies[k];
            let ei = tile_index(e.x, e.y);
            if matches!(self.tile_status[ei], TileStatus::Known) {
                let ghost old_r = r@;
                r.push(k);
                proof {
                    assert(r@[old_r.len() as int] == k);
                    assert forall|j: usize| r@.contains(j) implies old_r.contains(j) || j == k by {
                        let w = choose|w: int| 0 <= w < r@.len() && r@[w] == j;
                        if w < old_r.len() {
                            assert(old_r[w] == j);
                        }
                    };
                    assert forall|j: usize| old_r.contains(j) implies r@.contains(j) by {
                        let w = choose|w: int| 0 <= w < old_r.len() && old_r[w] == j;
                        assert(r@[w] == j);
                    };
                }
            }
            k = k + 1;
        }
        r
    }

    /// Mark one cell as in sight when it is walkable; sight marking never
    /// loses knowledge.
    fn mark_if_walkable(&mut self, dungeon: &Dungeon, c: (usize, usize))
        requires
            old(self).wf(),
            dungeon.wf(),
            in_grid(c),
        ensures
            final(self).wf(),
            *final(self) == (Player { tile_status: final(self).tile_status, ..*old(self) }),
            walkable_at(dungeon.tiles@, c) ==> final(self).tile_status@[idx_spec(c)] is Known,
            forall|j: int|
                0 <= j < GRID_AREA && old(self).tile_status@[j] is Known ==> final(self).tile_status@[j] is Known,
            forall|j: int|
                0 <= j < GRID_AREA && #[trigger] final(self).tile_status@[j] is Unknown ==> old(
                    self,
                ).tile_status@[j] is Unknown,
            forall|j: int|
                0 <= j < GRID_AREA && #[trigger] final(self).tile_status@[j] is Remembered ==> old(
                    self,
                ).tile_status@[j] is Remembered,
            forall|j: int|
                0 <= j < GRID_AREA && #[trigger] final(self).tile_status@[j] is Known ==> old(
                    self,
                ).tile_status@[j] is Known || dungeon.tiles@[j].spec_walkable(),
            forall|j: int|
                0 <= j < GRID_AREA && #[trigger] final(self).tile_status@[j] is Known ==> old(
                    self,
                ).tile_status@[j] is Known || j == idx_spec(c),
    {
        let ci = tile_index(c.0, c.1);
        if dungeon.tiles[ci].is_walkable() {
            self.tile_status[ci] = TileStatus::Known;
        }
    }

    /// Recompute the fog of war by raycasting from the player's cell: every
    /// cell in sight was demoted from `Known` to `Remembered` first, then
    /// rays in twenty even directions mark walkable cells back to `Known`,
    /// each ray stopping at the first unwalkable cell.  A cell never returns
    /// to `Unknown`, only walkable cells are ever `Known`, the player's own
    /// cell and its walkable neighbours always end in sight, and nothing
    /// beyond the rays' four-tile bounding box is newly seen.
    #[verifier::rlimit(60)]
    pub fn get_visible_tiles(&mut self, dungeon: &Dungeon)
        requires
            old(self).wf(),
            dungeon.wf(),
        ensures
            final(self).wf(),
            *final(self) == (Player { tile_status: final(self).tile_status, ..*old(self) }),
            forall|i: int|
                0 <= i < GRID_AREA && final(self).tile_status@[i] is Unknown ==> old(
                    self,
                ).tile_status@[i] is Unknown,
            forall|i: int|
                0 <= i < GRID_AREA && #[trigger] final(self).tile_status@[i] is Known
                    ==> dungeon.tiles@[i].spec_walkable(),
            forall|i: int|
                0 <= i < GRID_AREA && #[trigger] final(self).tile_status@[i] is Remembered ==> !(
                old(self).tile_status@[i] is Unknown),
            walkable_at(dungeon.tiles@, old(self).pos()) ==> final(self).tile_status@[idx_spec(
                old(self).pos(),
            )] is Known,
            forall|d: (usize, usize)|
                adjacent(old(self).pos(), d) && walkable_at(dungeon.tiles@, d) ==> final(self).tile_status@[idx_spec(d)] is Known,
            forall|c: (usize, usize)|
                in_grid(c) && (#[trigger] final(self).tile_status@[idx_spec(c)] is Known) && !(
                old(self).tile_status@[idx_spec(c)] is Known) ==> within_sight(old(self).pos(), c),
    {
        let ghost orig = self.tile_status@;
        let mut i: usize = 0;
        while i < GRID_AREA
            invariant
                i <= GRID_AREA,
                self.tile_status@.len() == GRID_AREA,
                orig.len() == GRID_AREA,
                forall|j: int|
                    i <= j < GRID_AREA ==> #[trigger] self.tile_status@[j] == orig[j],
                forall|j: int|
                    0 <= j < i ==> #[trigger] self.tile_status@[j] == (if orig[j] is Known {
                        TileStatus::Remembered
                    } else {
                        orig[j]
                    }),
                *self == (Player { tile_status: self.tile_status, ..*old(self) }),
            decreases GRID_AREA - i,
        {
            if matches!(self.tile_status[i], TileStatus::Known) {
                self.tile_status[i] = TileStatus::Remembered;
            }
            i = i + 1;
        }
        let px = self.x;
        let py = self.y;
        let own = tile_index(px, py);
        // the player's own cell and its walkable neighbours are the rays'
        // radius-zero and radius-one samples; marking them up front keeps
        // their knowledge independent of ray order
        self.mark_if_walkable(dungeon, (px, py));
        if px + 1 < TILES_HORIZONTAL {
            self.mark_if_walkable(dungeon, (px + 1, py));
        }
        if py + 1 < TILES_VERTICAL {
            self.mark_if_walkable(dungeon, (px, py + 1));
        }
        if px > 0 {
            self.mark_if_walkable(dungeon, (px - 1, py));
        }
        if py > 0 {
            self.mark_if_walkable(dungeon, (px, py - 1));
        }
        proof {
            assert forall|d: (usize, usize)|
                adjacent((px, py), d) && walkable_at(dungeon.tiles@, d) implies self.tile_status@[idx_spec(d)] is Known by {
                lemma_idx_bounds(d);
            };
            assert forall|c: (usize, usize)|
                in_grid(c) && (#[trigger] self.tile_status@[idx_spec(c)] is Known) && !(
                orig[idx_spec(c)] is Known) implies within_sight((px, py), c) by {
                lemma_idx_bounds(c);
                if idx_spec(c) == idx_spec((px, py)) {
                    lemma_idx_injective(c, (px, py));
                } else if px + 1 < TILES_HORIZONTAL && idx_spec(c) == idx_spec(
                    ((px + 1) as usize, py),
                ) {
                    lemma_idx_injective(c, ((px + 1) as usize, py));
                } else if py + 1 < TILES_VERTICAL && idx_spec(c) == idx_spec(
                    (px, (py + 1) as usize),
                ) {
                    lemma_idx_injective(c, (px, (py + 1) as usize));
                } else if px > 0 && idx_spec(c) == idx_spec(((px - 1) as usize, py)) {
                    lemma_idx_injective(c, ((px - 1) as usize, py));
                } else if py > 0 && idx_spec(c) == idx_spec((px, (py - 1) as usize)) {
                    lemma_idx_injective(c, (px, (py - 1) as usize));
                }
            };
        }
        let ghost pre_rays = self.tile_status@;
        let mut dir: usize = 0;
        while dir < 20
            invariant
                self.wf(),
                dungeon.wf(),
                px == self.x && py == self.y,
                own == idx_spec((px, py)),
                dir <= 20,
                *self == (Player { tile_status: self.tile_status, ..*old(self) }),
                forall|j: int|
                    0 <= j < GRID_AREA && #[trigger] self.tile_status@[j] is Unknown ==> orig[j] is Unknown,
                forall|j: int|
                    0 <= j < GRID_AREA && #[trigger] self.tile_status@[j] is Known
                        ==> dungeon.tiles@[j].spec_walkable(),
                forall|j: int|
                    0 <= j < GRID_AREA && #[trigger] self.tile_status@[j] is Remembered ==> !(
                    orig[j] is Unknown),
                forall|j: int|
                    0 <= j < GRID_AREA && pre_rays[j] is Known ==> (
                    #[trigger] self.tile_status@[j]) is Known,
                forall|c: (usize, usize)|
                    in_grid(c) && (#[trigger] self.tile_status@[idx_spec(c)] is Known) && !(
                    orig[idx_spec(c)] is Known) ==> within_sight((px, py), c),
                walkable_at(dungeon.tiles@, (px, py)) ==> self.tile_status@[own as int] is Known,
            decreases 20 - dir,
        {
            let (dxm, dym) = ray_dir(dir);
            let mut blocked = false;
            let mut step: usize = 0;
            while step < 5
                invariant
                    self.wf(),
                    dungeon.wf(),
                    px == self.x && py == self.y,
                    own == idx_spec((px, py)),
                    step <= 5,
                    -1000 <= dxm <= 1000,
                    -1000 <= dym <= 1000,
                    *self == (Player { tile_status: self.tile_status, ..*old(self) }),
                    forall|j: int|
                        0 <= j < GRID_AREA && #[trigger] self.tile_status@[j] is Unknown ==> orig[j] is Unknown,
                    forall|j: int|
                        0 <= j < GRID_AREA && #[trigger] self.tile_status@[j] is Known
                            ==> dungeon.tiles@[j].spec_walkable(),
                    forall|j: int|
                        0 <= j < GRID_AREA && #[trigger] self.tile_status@[j] is Remembered ==> !(
                        orig[j] is Unknown),
                    forall|j: int|
                        0 <= j < GRID_AREA && pre_rays[j] is Known ==> (
                        #[trigger] self.tile_status@[j]) is Known,
                    forall|c: (usize, usize)|
                        in_grid(c) && (#[trigger] self.tile_status@[idx_spec(c)] is Known) && !(
                        orig[idx_spec(c)] is Known) ==> within_sight((px, py), c),
                    walkable_at(dungeon.tiles@, (px, py)) ==> self.tile_status@[own as int] is Known,
                decreases 5 - step,
            {
                let mut substep: usize = 1;
                while substep < 6
                    invariant
                        self.wf(),
                        dungeon.wf(),
                        px == self.x && py == self.y,
                        own == idx_spec((px, py)),
                        step <= 4,
                        substep <= 6,
                        -1000 <= dxm <= 1000,
                        -1000 <= dym <= 1000,
                        *self == (Player { tile_status: self.tile_status, ..*old(self) }),
                        forall|j: int|
                            0 <= j < GRID_AREA && #[trigger] self.tile_status@[j] is Unknown
                                ==> orig[j] is Unknown,
                        forall|j: int|
                            0 <= j < GRID_AREA && #[trigger] self.tile_status@[j] is Known
                                ==> dungeon.tiles@[j].spec_walkable(),
                        forall|j: int|
                            0 <= j < GRID_AREA && #[trigger] self.tile_status@[j] is Remembered
                                ==> !(orig[j] is Unknown),
                        forall|j: int|
                            0 <= j < GRID_AREA && pre_rays[j] is Known ==> (
                            #[trigger] self.tile_status@[j]) is Known,
                        forall|c: (usize, usize)|
                            in_grid(c) && (#[trigger] self.tile_status@[idx_spec(c)] is Known)
                                && !(orig[idx_spec(c)] is Known) ==> within_sight((px, py), c),
                        walkable_at(dungeon.tiles@, (px, py)) ==> self.tile_status@[own as int] is Known,
                    decreases 6 - substep,
                {
                    if !blocked {
                        proof {
                            assert(0 <= step * substep <= 20) by (nonlinear_arith)
                                requires
                                    0 <= step <= 4,
                                    0 <= substep <= 5,
                            ;
                        }
                        let reach = (step * substep) as i64;
                        proof {
                            assert(-20000 <= dxm as i64 * reach <= 20000) by (nonlinear_arith)
                                requires
                                    -1000 <= dxm <= 1000,
                                    0 <= reach <= 20,
                            ;
                            assert(-20000 <= dym as i64 * reach <= 20000) by (nonlinear_arith)
                                requires
                                    -1000 <= dym <= 1000,
                                    0 <= reach <= 20,
                            ;
                            assert(-4000 <= dxm as i64 * reach / 5 <= 4000) by (nonlinear_arith)
                                requires
                                    -20000 <= dxm as i64 * reach <= 20000,
                            ;
                            assert(-4000 <= dym as i64 * reach / 5 <= 4000) by (nonlinear_arith)
                                requires
                                    -20000 <= dym as i64 * reach <= 20000,
                            ;
                        }
                        let cx_milli = px as i64 * 1000 + 500 + dxm as i64 * reach / 5;
                        let cy_milli = py as i64 * 1000 + 500 + dym as i64 * reach / 5;
                        if cx_milli < 0 || cy_milli < 0 {
                            blocked = true;
                        } else {
                            let cx = (cx_milli / 1000) as usize;
                            let cy = (cy_milli / 1000) as usize;
                            if cx >= TILES_HORIZONTAL || cy >= TILES_VERTICAL {
                                blocked = true;
                            } else {
                                let ti = tile_index(cx, cy);
                                proof {
                                    let dx_q = cx_milli as int / 1000;
                                    let dy_q = cy_milli as int / 1000;
                                    assert(1000 * dx_q <= cx_milli < 1000 * (dx_q + 1)) by (
                                    nonlinear_arith)
                                        requires
                                            cx_milli >= 0,
                                            dx_q == cx_milli as int / 1000,
                                    ;
                                    assert(1000 * dy_q <= cy_milli < 1000 * (dy_q + 1)) by (
                                    nonlinear_arith)
                                        requires
                                            cy_milli >= 0,
                                            dy_q == cy_milli as int / 1000,
                                    ;
                                    assert(within_sight((px, py), (cx, cy)));
                                }
                                if dungeon.tiles[ti].is_walkable() {
                                    let ghost pre_mark = self.tile_status@;
                                    self.tile_status[ti] = TileStatus::Known;
                                    proof {
                                        assert forall|c: (usize, usize)|
                                            in_grid(c) && (#[trigger] self.tile_status@[idx_spec(
                                                c,
                                            )] is Known) && !(orig[idx_spec(c)] is Known) implies within_sight(
                                            (px, py),
                                            c,
                                        ) by {
                                            lemma_idx_bounds(c);
                                            if idx_spec(c) == ti {
                                                lemma_idx_injective(c, (cx, cy));
                                            } else {
                                                assert(pre_mark[idx_spec(c)] is Known);
                                            }
                                        };
                                    }
                                } else {
                                    blocked = true;
                                }
                            }
                        }
                    }
                    substep = substep + 1;
                }
                step = step + 1;
            }
            dir = dir + 1;
        }
    }

    /// Whether a poison effect is currently active.
    pub open spec fn spec_has_poison(self) -> bool {
        exists|j: int|
            0 <= j < self.status_effects@.len() && (#[trigger] self.status_effects@[j]).0 == StatusEffect::Poison
    }

    /// Apply one turn of status effects: an active poison deals its fixed
    /// tick, every effect loses one of its remaining turns, and effects
    /// whose turns ran out are purged.
    pub fn apply_status_effects(&mut self)
        requires
            old(self).wf(),
        ensures
            final(self).wf(),
            old(self).spec_has_poison() ==> final(self).health == damaged_health(
                old(self).health,
                POISON_TICK,
            ) && final(self).was_damaged,
            !old(self).spec_has_poison() ==> final(self).health == old(self).health
                && final(self).was_damaged == old(self).was_damaged,
            forall|j: int|
                0 <= j < final(self).status_effects@.len() ==> (#[trigger] final(self).status_effects@[j]).1 >= 1,
            final(self).status_effects@ == aged_effects(old(self).status_effects@),
            final(self).x == old(self).x && final(self).y == old(self).y,
            final(self).tile_status == old(self).tile_status,
            final(self).inventory == old(self).inventory,
            final(self).moving_to == old(self).moving_to,
            final(self).health <= old(self).health,
    {
        let ghost entry_se = self.status_effects@;
        let mut kept: Vec<(StatusEffect, u32)> = Vec::new();
        let mut poisoned = false;
        let mut i: usize = 0;
        let n = self.status_effects.len();
        while i < n
            invariant
                n == entry_se.len(),
                self.status_effects@ == entry_se,
                i <= n,
                forall|a: int, b: int|
                    0 <= a < b < entry_se.len() ==> (#[trigger] entry_se[a]).0 != (
                    #[trigger] entry_se[b]).0,
                poisoned == exists|j: int| 0 <= j < i && (#[trigger] entry_se[j]).0 == StatusEffect::Poison,
                forall|k: int| 0 <= k < kept@.len() ==> (#[trigger] kept@[k]).1 >= 1,
                forall|k: int|
                    0 <= k < kept@.len() ==> exists|j: int|
                        0 <= j < i && (#[trigger] kept@[k]).0 == (#[trigger] entry_se[j]).0 && j
                            >= k,
                forall|k: int, l: int|
                    0 <= k < l < kept@.len() ==> (#[trigger] kept@[k]).0 != (#[trigger] kept@[l]).0,
                kept@.len() <= i,
                kept@ == aged_effects(entry_se.take(i as int)),
            decreases n - i,
        {
            let entry = self.status_effects[i];
            if matches!(entry.0, StatusEffect::Poison) {
                poisoned = true;
                proof {
                    assert((entry_se[i as int]).0 == StatusEffect::Poison);
                }
            }
            proof {
                assert(entry_se.take(i + 1).drop_last() =~= entry_se.take(i as int));
                assert(entry_se.take(i + 1).last() == entry_se[i as int]);
            }
            if entry.1 > 1 {
                let ghost before = kept@;
                kept.push((entry.0, entry.1 - 1));
                proof {
                    assert(kept@[before.len() as int].0 == entry_se[i as int].0);
                    assert forall|k: int, l: int|
                        0 <= k < l < kept@.len() implies (#[trigger] kept@[k]).0 != (
                    #[trigger] kept@[l]).0 by {
                        if l == before.len() {
                            let j = choose|j: int|
                                0 <= j < i && (#[trigger] kept@[k]).0 == (#[trigger] entry_se[j]).0
                                    && j >= k;
                            assert(entry_se[j].0 != entry_se[i as int].0);
                        } else {
                            assert(before[k].0 != before[l].0);
                        }
                    };
                    assert forall|k: int|
                        0 <= k < kept@.len() implies exists|j: int|
                        0 <= j < i + 1 && (#[trigger] kept@[k]).0 == (#[trigger] entry_se[j]).0
                            && j >= k by {
                        if k < before.len() {
                            let j = choose|j: int|
                                0 <= j < i && (#[trigger] kept@[k]).0 == (#[trigger] entry_se[j]).0
                                    && j >= k;
                            assert(0 <= j < i + 1 && kept@[k].0 == entry_se[j].0 && j >= k);
                        } else {
                            assert(0 <= i < i + 1 && kept@[k].0 == entry_se[i as int].0 && i >= k);
                        }
                    };
                }
            }
            i = i + 1;
        }
        proof {
            assert(entry_se.take(n as int) =~= entry_se);
        }
        self.status_effects = kept;
        if poisoned {
            self.was_damaged = true;
            let nh = self.health as i64 - POISON_TICK as i64;
            self.health = if nh < i32::MIN as i64 {
                i32::MIN
            } else {
                nh as i32
            };
        }
    }

    /// Eat the item in a slot.  A consumable heals its amount, inflicts its
    /// status effect for a fixed number of turns when one is not already
    /// running, and leaves the slot empty; anything else is a no-op.
    pub fn consume(&mut self, slot: usize)
        requires
            old(self).wf(),
            slot < INVENTORY_SLOTS,
        ensures
            final(self).wf(),
            match old(self).inventory@[slot as int] {
                Some(Item::Misc(m)) => match crate::items::spec_consumable(m) {
                    Some(effect) => {
                        &&& final(self).inventory@ == old(self).inventory@.update(
                            slot as int,
                            None,
                        )
                        &&& final(self).health == healed_health(old(self).health, effect.0)
                        &&& (match effect.1 {
                            Some(st) => exists|j: int|
                                0 <= j < final(self).status_effects@.len() && (#[trigger] final(self).status_effects@[j]).0 == st,
                            None => final(self).status_effects == old(self).status_effects,
                        })
                    },
                    None => *final(self) == *old(self),
                },
                _ => *final(self) == *old(self),
            },
            final(self).x == old(self).x && final(self).y == old(self).y,
            final(self).tile_status == old(self).tile_status,
    {
        let entry = self.inventory[slot];
        match entry {
            Some(Item::Misc(m)) => {
                match crate::items::consumable(m) {
                    Some((heal, effect)) => {
                        self.inventory[slot] = None;
                        let nh = self.health as i64 + heal as i64;
                        self.health = if nh > i32::MAX as i64 {
                            i32::MAX
                        } else {
                            nh as i32
                        };
                        match effect {
                            Some(st) => {
                                let mut present = false;
                                let mut i: usize = 0;
                                let n = self.status_effects.len();
                                while i < n
                                    invariant
                                        i <= n,
                                        n == self.status_effects@.len(),
                                        present == exists|j: int|
                                            0 <= j < i && (
                                            #[trigger] self.status_effects@[j]).0 == st,
                                    decreases n - i,
                                {
                                    if self.status_effects[i].0 == st {
                                        present = true;
                                        proof {
                                            assert(self.status_effects@[i as int].0 == st);
                                        }
                                    }
                                    i = i + 1;
                                }
                                if !present {
                                    let ghost before = self.status_effects@;
                                    self.status_effects.push((st, EFFECT_TURNS));
                                    proof {
                                        assert(self.status_effects@[before.len() as int].0 == st);
                                        assert forall|a: int, b: int|
                                            0 <= a < b < self.status_effects@.len() implies (
                                        #[trigger] self.status_effects@[a]).0 != (
                                        #[trigger] self.status_effects@[b]).0 by {
                                            if b < before.len() {
                                                assert(before[a].0 != before[b].0);
                                            } else {
                                                assert(before[a].0 != st);
                                            }
                                        };
                                    }
                                } else {
                                    proof {
                                        let j = choose|j: int|
                                            0 <= j < n && (#[trigger] self.status_effects@[j]).0
                                                == st;
                                        assert(self.status_effects@[j].0 == st);
                                    }
                                }
                            },
                            None => {},
                        }
                    },
                    None => {},
                }
            },
            _ => {},
        }
    }

    /// Whether any inventory slot holds the pickaxe, the capability that
    /// mining an ore tile requires.
    pub open spec fn spec_has_pickaxe(self) -> bool {
        exists|i: int|
            0 <= i < self.inventory@.len() && self.inventory@[i] == Some(
                Item::Misc(MiscKind::Pickaxe),
            )
    }

    pub fn has_pickaxe(&self) -> (r: bool)
        requires
            self.wf(),
        ensures
            r == self.spec_has_pickaxe(),
    {
        let mut i: usize = 0;
        while i < INVENTORY_SLOTS
            invariant
                i <= INVENTORY_SLOTS,
                self.inventory@.len() == INVENTORY_SLOTS,
                forall|j: int|
                    0 <= j < i ==> self.inventory@[j] != Some(Item::Misc(MiscKind::Pickaxe)),
            decreases INVENTORY_SLOTS - i,
        {
            match self.inventory[i] {
                Some(Item::Misc(MiscKind::Pickaxe)) => {
                    return true;
                },
                _ => {},
            }
            i = i + 1;
        }
        false
    }

    /// Teleport to a cell and refresh the fog of war from there.
    pub fn move_to(&mut self, pos: (usize, usize), dungeon: &Dungeon)
        requires
            old(self).wf(),
            dungeon.wf(),
            in_grid(pos),
        ensures
            final(self).wf(),
            final(self).x == pos.0 && final(self).y == pos.1,
            final(self).health == old(self).health,
            final(self).inventory == old(self).inventory,
            forall|i: int|
                0 <= i < GRID_AREA && final(self).tile_status@[i] is Unknown ==> old(
                    self,
                ).tile_status@[i] is Unknown,
            forall|i: int|
                0 <= i < GRID_AREA && #[trigger] final(self).tile_status@[i] is Remembered ==> !(
                old(self).tile_status@[i] is Unknown),
            walkable_at(dungeon.tiles@, pos) ==> final(self).tile_status@[idx_spec(pos)] is Known,
    {
        self.x = pos.0;
        self.y = pos.1;
        self.get_visible_tiles(dungeon);
    }
}

/// The move vector an idle turn resolves: the next queued path step's
/// offset when a path is queued, the raw input axis otherwise.
pub open spec fn queued_or_axis(p: Player, axis: (i32, i32)) -> (int, int) {
    if p.moving_to@.len() > 0 {
        let step = p.moving_to@[p.moving_to@.len() - 1];
        (step.0 - p.x, step.1 - p.y)
    } else {
        (axis.0 as int, axis.1 as int)
    }
}

/// A unit move vector: exactly one step along exactly one axis.
pub open spec fn unit_vec(v: (int, int)) -> bool {
    (v.0 == 0 && (v.1 == 1 || v.1 == -1)) || (v.1 == 0 && (v.0 == 1 || v.0 == -1))
}

/// The cell a unit move from `p` lands on, saturating at the low edges as
/// unsigned coordinates demand.
pub open spec fn move_target(p: Player, v: (int, int)) -> (int, int) {
    (
        if p.x + v.0 < 0 {
            0
        } else {
            p.x + v.0
        },
        if p.y + v.1 < 0 {
            0
        } else {
            p.y + v.1
        },
    )
}

/// The move vector a whole frame resolves: a pressed key clears the queued
/// path first, so the raw axis then governs.
pub open spec fn turn_vector(p: Player, axis: (i32, i32), any_key_pressed: bool) -> (int, int) {
    if any_key_pressed && p.moving_to@.len() > 0 {
        (axis.0 as int, axis.1 as int)
    } else {
        queued_or_axis(p, axis)
    }
}

/// Whether a move vector resolves as a step onto a free walkable cell.
pub open spec fn resolves_as_move(p: Player, d: Dungeon, v: (int, int)) -> bool {
    let t = move_target(p, v);
    &&& unit_vec(v)
    &&& 0 <= t.0 < TILES_HORIZONTAL
    &&& 0 <= t.1 < TILES_VERTICAL
    &&& walkable_at(d.tiles@, (t.0 as usize, t.1 as usize))
    &&& !d.enemy_at((t.0 as usize, t.1 as usize))
}

/// Whether a move vector resolves as an attack on an enemy standing on the
/// targeted cell within the player's weapon range.
pub open spec fn resolves_as_attack(p: Player, d: Dungeon, v: (int, int)) -> bool {
    let t = move_target(p, v);
    &&& unit_vec(v)
    &&& 0 <= t.0 < TILES_HORIZONTAL
    &&& 0 <= t.1 < TILES_VERTICAL
    &&& d.enemy_at((t.0 as usize, t.1 as usize))
    &&& weapon_range_contains(
        p.spec_weapon(),
        spec_dist(p.pos(), (t.0 as usize, t.1 as usize)) as int,
    )
}

/// Index of the first ground item lying on the cell, if any.
fn find_item_at(items: &Vec<(usize, usize, Item)>, c: (usize, usize)) -> (r: Option<usize>)
    ensures
        match r {
            Some(i) => i < items@.len() && items@[i as int].0 == c.0 && items@[i as int].1 == c.1,
            None => forall|j: int|
                0 <= j < items@.len() ==> !((#[trigger] items@[j]).0 == c.0 && items@[j].1 == c.1),
        },
{
    let mut i: usize = 0;
    while i < items.len()
        invariant
            i <= items@.len(),
            forall|j: int|
                0 <= j < i ==> !((#[trigger] items@[j]).0 == c.0 && items@[j].1 == c.1),
        decreases items@.len() - i,
    {
        let it = &items[i];
        if it.0 == c.0 && it.1 == c.1 {
            return Some(i);
        }
        i = i + 1;
    }
    None
}

impl Player {
    /// A turn resolved while the game is idle.  A queued path step — or,
    /// failing that, the raw input axis — supplies a unit move vector; a
    /// unit vector moves the player onto the adjacent walkable, unoccupied
    /// cell it points at (recomputing sight), saturating leftward at the
    /// grid edge.  Otherwise a wait keypress waits; an
    /// interact keypress opens a chest under the player (mines an ore if
    /// the player carries the pickaxe), signals the floor transition on a
    /// door, or picks up a ground item into the first free slot.
    #[verifier::rlimit(100)]
    pub fn update_idle(
        &mut self,
        dungeon: &mut Dungeon,
        input_axis: (i32, i32),
        wait_pressed: bool,
        interact_pressed: bool,
    ) -> (r: Option<PlayerAction>)
        requires
            old(self).wf(),
            old(dungeon).wf(),
            walkable_at(old(dungeon).tiles@, old(self).pos()),
            !old(dungeon).enemy_at(old(self).pos()),
        ensures
            final(self).wf(),
            final(dungeon).wf(),
            walkable_at(final(dungeon).tiles@, final(self).pos()),
            !final(dungeon).enemy_at(final(self).pos()),
            final(self).health == old(self).health,
            final(dungeon).tiles@.len() == GRID_AREA,
            forall|i: int|
                0 <= i < GRID_AREA ==> (#[trigger] final(dungeon).tiles@[i]).spec_walkable() == old(
                    dungeon,
                ).tiles@[i].spec_walkable(),
            final(dungeon).enemies@.len() == old(dungeon).enemies@.len(),
            forall|k: int|
                0 <= k < old(dungeon).enemies@.len() ==> (#[trigger] final(dungeon).enemies@[k]).pos()
                    == old(dungeon).enemies@[k].pos() && final(dungeon).enemies@[k].kind == old(
                    dungeon,
                ).enemies@[k].kind && final(dungeon).enemies@[k].health <= old(
                    dungeon,
                ).enemies@[k].health && final(dungeon).enemies@[k].awake == old(
                    dungeon,
                ).enemies@[k].awake,
            final(dungeon).player_spawn == old(dungeon).player_spawn,
            final(dungeon).floor_kind == old(dungeon).floor_kind,
            forall|i: int|
                0 <= i < GRID_AREA && #[trigger] final(self).tile_status@[i] is Unknown ==> old(
                    self,
                ).tile_status@[i] is Unknown,
            final(self).pos() == old(self).pos() || adjacent(old(self).pos(), final(self).pos()),
            r matches Some(a) && a is Attack ==> exists|k: int|
                0 <= k < old(dungeon).enemies@.len() && weapon_range_contains(
                    old(self).spec_weapon(),
                    spec_dist(old(self).pos(), (#[trigger] old(dungeon).enemies@[k]).pos()) as int,
                ),
            resolves_as_move(*old(self), *old(dungeon), queued_or_axis(*old(self), input_axis)) ==> {
                let t = move_target(*old(self), queued_or_axis(*old(self), input_axis));
                final(self).pos() == ((t.0 as usize, t.1 as usize)) && (r matches Some(a) && a
                    is MoveDirection)
            },
            resolves_as_attack(
                *old(self),
                *old(dungeon),
                queued_or_axis(*old(self), input_axis),
            ) ==> (r matches Some(a) && a is Attack),
            !resolves_as_move(*old(self), *old(dungeon), queued_or_axis(*old(self), input_axis))
                && !resolves_as_attack(
                *old(self),
                *old(dungeon),
                queued_or_axis(*old(self), input_axis),
            ) && wait_pressed ==> (r matches Some(a) && a is Wait),
            !resolves_as_move(*old(self), *old(dungeon), queued_or_axis(*old(self), input_axis))
                && !resolves_as_attack(
                *old(self),
                *old(dungeon),
                queued_or_axis(*old(self), input_axis),
            ) && !wait_pressed && interact_pressed && (old(dungeon).tiles@[idx_spec(
                old(self).pos(),
            )] is Door) ==> (r matches Some(a) && a is GotoNextDungeon),
            !resolves_as_move(*old(self), *old(dungeon), queued_or_axis(*old(self), input_axis))
                && !resolves_as_attack(
                *old(self),
                *old(dungeon),
                queued_or_axis(*old(self), input_axis),
            ) && !wait_pressed && interact_pressed && (old(dungeon).tiles@[idx_spec(
                old(self).pos(),
            )] is Chest) ==> (final(dungeon).tiles@[idx_spec(old(self).pos())] is Detail),
            !resolves_as_move(*old(self), *old(dungeon), queued_or_axis(*old(self), input_axis)) ==> final(self).pos() == old(
                self,
            ).pos(),
            old(self).moving_to@.len() == 0 ==> final(self).moving_to@.len() == 0,
            r matches Some(a) && a is GotoNextDungeon ==> old(dungeon).tiles@[idx_spec(
                old(self).pos(),
            )] is Door && interact_pressed,
    {
        if self.was_damaged {
            self.was_damaged = false;
        }
        let step_opt = self.moving_to.pop();
        let (ix, iy): (i64, i64) = match step_opt {
            Some(step) => (step.0 as i64 - self.x as i64, step.1 as i64 - self.y as i64),
            None => (input_axis.0 as i64, input_axis.1 as i64),
        };
        let unit = (ix == 0 && (iy == 1 || iy == -1)) || (iy == 0 && (ix == 1 || ix == -1));
        if unit {
            // cell coordinates are unsigned: saturate at the low edges,
            // and treat anything past the high edges as blocked
            let nx_i = self.x as i64 + ix;
            let ny_i = self.y as i64 + iy;
            let nx = if nx_i < 0 {
                0
            } else {
                nx_i as usize
            };
            let ny = if ny_i < 0 {
                0
            } else {
                ny_i as usize
            };
            if nx < TILES_HORIZONTAL && ny < TILES_VERTICAL {
                let new = (nx, ny);
                let ni = tile_index(nx, ny);
                match dungeon.find_enemy_at(new) {
                    Some(k) => {
                        // stepping into an enemy resolves as an attack when
                        // the equipped weapon's interval covers the distance
                        let wk = match self.inventory[0] {
                            Some(Item::Weapon(w)) => w,
                            _ => WeaponKind::Melee,
                        };
                        let dist = cell_distance((self.x, self.y), new);
                        let minr = weapon_min_range(wk);
                        let maxr = weapon_max_range(wk);
                        if minr <= dist && dist < maxr {
                            let mut e = dungeon.enemies[k];
                            e.damage(weapon_damage(wk));
                            proof {
                                assert(e.pos() == old(dungeon).enemies@[k as int].pos());
                            }
                            dungeon.enemies[k] = e;
                            proof {
                                assert forall|k2: int, l2: int|
                                    0 <= k2 < l2 < dungeon.enemies@.len() implies (
                                #[trigger] dungeon.enemies@[k2]).pos() != (
                                #[trigger] dungeon.enemies@[l2]).pos() by {
                                    assert(old(dungeon).enemies@[k2].pos() != old(
                                        dungeon,
                                    ).enemies@[l2].pos());
                                };
                            }
                            return Some(PlayerAction::Attack((ix as i32, iy as i32)));
                        }
                    },
                    None => {
                        if dungeon.tiles[ni].is_walkable() {
                            self.x = nx;
                            self.y = ny;
                            self.get_visible_tiles(dungeon);
                            return Some(PlayerAction::MoveDirection((ix as i32, iy as i32)));
                        }
                    },
                }
            }
        }
        if wait_pressed {
            return Some(PlayerAction::Wait);
        }
        if interact_pressed {
            let ti = tile_index(self.x, self.y);
            let here = dungeon.tiles[ti];
            match here {
                Tile::Chest(kind) => {
                    self.open_container(dungeon, ti, kind);
                    None
                },
                Tile::Ore(kind) => {
                    if self.has_pickaxe() {
                        self.open_container(dungeon, ti, kind);
                    }
                    None
                },
                Tile::Door => Some(PlayerAction::GotoNextDungeon),
                _ => {
                    match find_item_at(&dungeon.items, (self.x, self.y)) {
                        Some(ii) => {
                            match self.get_free_slot() {
                                Some(slot) => {
                                    let entry = dungeon.items.remove(ii);
                                    self.inventory[slot] = Some(entry.2);
                                },
                                None => {},
                            }
                        },
                        None => {},
                    }
                    None
                },
            }
        } else {
            None
        }
    }

    /// One frame of player resolution.  A pressed key clears any queued
    /// path, so manual input overrides click-to-move.  While idle, a click
    /// on a walkable, previously seen cell either attacks the enemy
    /// standing there — when the equipped weapon reaches that far — or
    /// queues a fresh path to it; then the idle turn itself resolves.
    /// During action windows nothing is accepted.
    pub fn update(
        &mut self,
        dungeon: &mut Dungeon,
        state: &crate::state::GameState,
        click: Option<(usize, usize)>,
        input_axis: (i32, i32),
        any_key_pressed: bool,
        wait_pressed: bool,
        interact_pressed: bool,
    ) -> (r: Option<PlayerAction>)
        requires
            old(self).wf(),
            old(dungeon).wf(),
            walkable_at(old(dungeon).tiles@, old(self).pos()),
            !old(dungeon).enemy_at(old(self).pos()),
        ensures
            final(self).wf(),
            final(dungeon).wf(),
            walkable_at(final(dungeon).tiles@, final(self).pos()),
            !final(dungeon).enemy_at(final(self).pos()),
            final(self).health == old(self).health,
            forall|i: int|
                0 <= i < GRID_AREA ==> (#[trigger] final(dungeon).tiles@[i]).spec_walkable() == old(
                    dungeon,
                ).tiles@[i].spec_walkable(),
            final(dungeon).enemies@.len() == old(dungeon).enemies@.len(),
            forall|k: int|
                0 <= k < old(dungeon).enemies@.len() ==> (#[trigger] final(dungeon).enemies@[k]).pos()
                    == old(dungeon).enemies@[k].pos() && final(dungeon).enemies@[k].kind == old(
                    dungeon,
                ).enemies@[k].kind && final(dungeon).enemies@[k].health <= old(
                    dungeon,
                ).enemies@[k].health && final(dungeon).enemies@[k].awake == old(
                    dungeon,
                ).enemies@[k].awake,
            final(dungeon).player_spawn == old(dungeon).player_spawn,
            final(dungeon).floor_kind == old(dungeon).floor_kind,
            forall|i: int|
                0 <= i < GRID_AREA && #[trigger] final(self).tile_status@[i] is Unknown ==> old(
                    self,
                ).tile_status@[i] is Unknown,
            final(self).pos() == old(self).pos() || adjacent(old(self).pos(), final(self).pos()),
            r matches Some(a) && a is Attack ==> exists|k: int|
                0 <= k < old(dungeon).enemies@.len() && weapon_range_contains(
                    old(self).spec_weapon(),
                    spec_dist(old(self).pos(), (#[trigger] old(dungeon).enemies@[k]).pos()) as int,
                ),
            r matches Some(a) && a is GotoNextDungeon ==> old(dungeon).tiles@[idx_spec(
                old(self).pos(),
            )] is Door && interact_pressed,
            !(*state is Idle) ==> final(self).pos() == old(self).pos() && r is None,
            *state is Idle && click is None && resolves_as_move(
                *old(self),
                *old(dungeon),
                turn_vector(*old(self), input_axis, any_key_pressed),
            ) ==> {
                let t = move_target(
                    *old(self),
                    turn_vector(*old(self), input_axis, any_key_pressed),
                );
                final(self).pos() == ((t.0 as usize, t.1 as usize)) && (r matches Some(a) && a
                    is MoveDirection)
            },
            *state is Idle && click is None && resolves_as_attack(
                *old(self),
                *old(dungeon),
                turn_vector(*old(self), input_axis, any_key_pressed),
            ) ==> (r matches Some(a) && a is Attack),
            *state is Idle && click is None && !resolves_as_move(
                *old(self),
                *old(dungeon),
                turn_vector(*old(self), input_axis, any_key_pressed),
            ) && !resolves_as_attack(
                *old(self),
                *old(dungeon),
                turn_vector(*old(self), input_axis, any_key_pressed),
            ) && wait_pressed ==> (r matches Some(a) && a is Wait),
            *state is Idle && click is None && !resolves_as_move(
                *old(self),
                *old(dungeon),
                turn_vector(*old(self), input_axis, any_key_pressed),
            ) && !resolves_as_attack(
                *old(self),
                *old(dungeon),
                turn_vector(*old(self), input_axis, any_key_pressed),
            ) && !wait_pressed && interact_pressed && (old(dungeon).tiles@[idx_spec(
                old(self).pos(),
            )] is Door) ==> (r matches Some(a) && a is GotoNextDungeon),
            *state is Idle && click is Some && in_grid(click->0) && walkable_at(
                old(dungeon).tiles@,
                click->0,
            ) && !(old(self).tile_status@[idx_spec(click->0)] is Unknown) && old(dungeon).enemy_at(
                click->0,
            ) && weapon_range_contains(
                old(self).spec_weapon(),
                spec_dist(old(self).pos(), click->0) as int,
            ) ==> (r matches Some(a) && a is Attack) && final(self).pos() == old(self).pos() && (
            forall|k: int|
                0 <= k < old(dungeon).enemies@.len() && (#[trigger] old(dungeon).enemies@[k]).pos()
                    != click->0 ==> final(dungeon).enemies@[k] == old(dungeon).enemies@[k]) && (
            forall|k: int|
                0 <= k < old(dungeon).enemies@.len() && (#[trigger] old(dungeon).enemies@[k]).pos()
                    == click->0 ==> final(dungeon).enemies@[k] == old(dungeon).enemies@[k] || final(dungeon).enemies@[k]
                    == (Enemy {
                    health: damaged_health(
                        old(dungeon).enemies@[k].health,
                        crate::items::spec_weapon_damage(old(self).spec_weapon()),
                    ) as i32,
                    was_damaged: true,
                    ..old(dungeon).enemies@[k]
                })),
    {
        if self.moving_to.len() > 0 && any_key_pressed {
            self.moving_to = Vec::new();
        }
        if matches!(state, crate::state::GameState::Idle) {
            match click {
                Some(c) => {
                    if c.0 < TILES_HORIZONTAL && c.1 < TILES_VERTICAL {
                        let ci = tile_index(c.0, c.1);
                        let st = self.tile_status[ci];
                        if dungeon.tiles[ci].is_walkable() && !st.is_unknown() {
                            let wk = match self.inventory[0] {
                                Some(Item::Weapon(w)) => w,
                                _ => WeaponKind::Melee,
                            };
                            let minr = weapon_min_range(wk);
                            let maxr = weapon_max_range(wk);
                            let d = cell_distance((self.x, self.y), c);
                            let in_range = minr <= d && d < maxr;
                            let mut chase_click = false;
                            match dungeon.find_enemy_at(c) {
                                Some(k) => {
                                    let known = matches!(st, TileStatus::Known);
                                    if in_range {
                                        let mut e = dungeon.enemies[k];
                                        e.damage(weapon_damage(wk));
                                        proof {
                                            assert(e.pos() == old(dungeon).enemies@[k as int].pos());
                                        }
                                        dungeon.enemies[k] = e;
                                        proof {
                                            assert forall|k2: int, l2: int|
                                                0 <= k2 < l2 < dungeon.enemies@.len() implies (
                                            #[trigger] dungeon.enemies@[k2]).pos() != (
                                            #[trigger] dungeon.enemies@[l2]).pos() by {
                                                assert(old(dungeon).enemies@[k2].pos() != old(
                                                    dungeon,
                                                ).enemies@[l2].pos());
                                            };
                                        }
                                        let dx = c.0 as i32 - self.x as i32;
                                        let dy = c.1 as i32 - self.y as i32;
                                        return Some(PlayerAction::Attack((dx, dy)));
                                    } else if !known {
                                        chase_click = true;
                                    }
                                },
                                None => {
                                    chase_click = true;
                                },
                            }
                            if chase_click {
                                match dungeon.pathfind((self.x, self.y), c) {
                                    Some((p, _)) => {
                                        let mut rev: Vec<(usize, usize)> = Vec::new();
                                        let mut i: usize = p.len();
                                        while i > 0
                                            invariant
                                                i <= p@.len(),
                                                rev@.len() == p@.len() - i,
                                                forall|j: int|
                                                    0 <= j < rev@.len() ==> #[trigger] rev@[j]
                                                        == p@[p@.len() - 1 - j],
                                                forall|j: int|
                                                    0 <= j < p@.len() ==> walkable_at(
                                                        old(dungeon).tiles@,
                                                        #[trigger] p@[j],
                                                    ),
                                            decreases i,
                                        {
                                            i = i - 1;
                                            rev.push(p[i]);
                                        }
                                        proof {
                                            assert forall|j: int|
                                                0 <= j < rev@.len() implies in_grid(
                                                #[trigger] rev@[j],
                                            ) by {
                                                assert(walkable_at(
                                                    old(dungeon).tiles@,
                                                    p@[p@.len() - 1 - j],
                                                ));
                                            };
                                        }
                                        self.moving_to = rev;
                                    },
                                    None => {},
                                }
                            }
                        }
                    }
                },
                None => {},
            }
        }
        match state {
            crate::state::GameState::Idle => self.update_idle(
                dungeon,
                input_axis,
                wait_pressed,
                interact_pressed,
            ),
            _ => None,
        }
    }

    /// Open the chest or ore vein under the player: the tile decays to its
    /// decorative remainder and one loot draw lands in the first free slot,
    /// or on the ground when the inventory is full.
    fn open_container(&mut self, dungeon: &mut Dungeon, ti: usize, kind: LootKind)
        requires
            old(self).wf(),
            old(dungeon).wf(),
            ti < GRID_AREA,
            old(dungeon).tiles@[ti as int] is Chest || old(dungeon).tiles@[ti as int] is Ore,
        ensures
            final(self).wf(),
            final(dungeon).wf(),
            final(self).x == old(self).x && final(self).y == old(self).y,
            final(self).health == old(self).health,
            final(self).tile_status == old(self).tile_status,
            final(self).moving_to == old(self).moving_to,
            final(dungeon).tiles@ == old(dungeon).tiles@.update(ti as int, Tile::Detail),
            forall|i: int|
                0 <= i < GRID_AREA ==> (#[trigger] final(dungeon).tiles@[i]).spec_walkable() == old(
                    dungeon,
                ).tiles@[i].spec_walkable(),
            final(dungeon).enemies == old(dungeon).enemies,
            final(dungeon).player_spawn == old(dungeon).player_spawn,
            final(dungeon).floor_kind == old(dungeon).floor_kind,
    {
        dungeon.tiles[ti] = Tile::Detail;
        proof {
            assert forall|i: int|
                0 <= i < GRID_AREA implies (#[trigger] dungeon.tiles@[i]).spec_walkable() == old(
                dungeon,
            ).tiles@[i].spec_walkable() by {
                if i != ti {
                    assert(dungeon.tiles@[i] == old(dungeon).tiles@[i]);
                }
            };
            assert(walkable_at(dungeon.tiles@, dungeon.player_spawn));
            assert forall|k: int|
                0 <= k < dungeon.enemies@.len() implies (#[trigger] dungeon.enemies@[k]).wf()
                && walkable_at(dungeon.tiles@, dungeon.enemies@[k].pos()) by {
                assert(walkable_at(old(dungeon).tiles@, dungeon.enemies@[k].pos()));
            };
        }
        let table = crate::loot::loot_table(kind);
        match table.get_item() {
            Some(item) => {
                match self.get_free_slot() {
                    Some(slot) => {
                        self.inventory[slot] = Some(item);
                    },
                    None => {
                        dungeon.items.push((self.x, self.y, item));
                    },
                }
            },
            None => {},
        }
    }
}

/// Whether an enemy pursues the player on sight only, or relentlessly.
#[derive(Clone, Copy, PartialEq, Eq, Structural, Debug)]
pub enum MovementType {
    ChaseWhenVisible,
    AlwaysChase,
}

/// The fixed kinds of hostile entities.
#[derive(Clone, Copy, PartialEq, Eq, Structural, Debug)]
pub enum EnemyKind {
    Zombie,
    Skeleton,
    Spider,
    Bat,
    Slime,
    Wizard,
    LavaDog,
    SuperWizard,
}

/// Chance the kind shrugs a hit off, in percent.
pub open spec fn spec_enemy_block_pct(k: EnemyKind) -> u32 {
    match k {
        EnemyKind::Zombie => 10,
        EnemyKind::Skeleton => 10,
        EnemyKind::Spider => 50,
        EnemyKind::Bat => 80,
        EnemyKind::Slime => 0,
        EnemyKind::Wizard => 20,
        EnemyKind::LavaDog => 60,
        EnemyKind::SuperWizard => 20,
    }
}

pub fn enemy_block_pct(k: EnemyKind) -> (r: u32)
    ensures
        r == spec_enemy_block_pct(k),
{
    match k {
        EnemyKind::Zombie => 10,
        EnemyKind::Skeleton => 10,
        EnemyKind::Spider => 50,
        EnemyKind::Bat => 80,
        EnemyKind::Slime => 0,
        EnemyKind::Wizard => 20,
        EnemyKind::LavaDog => 60,
        EnemyKind::SuperWizard => 20,
    }
}

/// Starting health of the kind, in tenths of a hit point.
pub open spec fn spec_enemy_max_health(k: EnemyKind) -> i32 {
    match k {
        EnemyKind::Zombie => 100,
        EnemyKind::Skeleton => 100,
        EnemyKind::Spider => 60,
        EnemyKind::Bat => 60,
        EnemyKind::Slime => 160,
        EnemyKind::Wizard => 100,
        EnemyKind::LavaDog => 50,
        EnemyKind::SuperWizard => 200,
    }
}

pub fn enemy_max_health(k: EnemyKind) -> (r: i32)
    ensures
        r == spec_enemy_max_health(k),
{
    match k {
        EnemyKind::Zombie => 100,
        EnemyKind::Skeleton => 100,
        EnemyKind::Spider => 60,
        EnemyKind::Bat => 60,
        EnemyKind::Slime => 160,
        EnemyKind::Wizard => 100,
        EnemyKind::LavaDog => 50,
        EnemyKind::SuperWizard => 200,
    }
}

pub open spec fn spec_enemy_movement(k: EnemyKind) -> MovementType {
    match k {
        EnemyKind::Zombie => MovementType::ChaseWhenVisible,
        EnemyKind::Skeleton => MovementType::AlwaysChase,
        EnemyKind::Spider => MovementType::AlwaysChase,
        EnemyKind::Bat => MovementType::ChaseWhenVisible,
        EnemyKind::Slime => MovementType::ChaseWhenVisible,
        EnemyKind::Wizard => MovementType::AlwaysChase,
        EnemyKind::LavaDog => MovementType::AlwaysChase,
        EnemyKind::SuperWizard => MovementType::AlwaysChase,
    }
}

pub fn enemy_movement(k: EnemyKind) -> (r: MovementType)
    ensures
        r == spec_enemy_movement(k),
{
    match k {
        EnemyKind::Zombie => MovementType::ChaseWhenVisible,
        EnemyKind::Skeleton => MovementType::AlwaysChase,
        EnemyKind::Spider => MovementType::AlwaysChase,
        EnemyKind::Bat => MovementType::ChaseWhenVisible,
        EnemyKind::Slime => MovementType::ChaseWhenVisible,
        EnemyKind::Wizard => MovementType::AlwaysChase,
        EnemyKind::LavaDog => MovementType::AlwaysChase,
        EnemyKind::SuperWizard => MovementType::AlwaysChase,
    }
}

pub open spec fn spec_enemy_weapon(k: EnemyKind) -> WeaponKind {
    match k {
        EnemyKind::Zombie => WeaponKind::Melee,
        EnemyKind::Skeleton => WeaponKind::Shortbow,
        EnemyKind::Spider => WeaponKind::Melee,
        EnemyKind::Bat => WeaponKind::Melee,
        EnemyKind::Slime => WeaponKind::Melee,
        EnemyKind::Wizard => WeaponKind::Spellbook,
        EnemyKind::LavaDog => WeaponKind::Melee,
        EnemyKind::SuperWizard => WeaponKind::Spellbook,
    }
}

pub fn enemy_weapon(k: EnemyKind) -> (r: WeaponKind)
    ensures
        r == spec_enemy_weapon(k),
{
    match k {
        EnemyKind::Zombie => WeaponKind::Melee,
        EnemyKind::Skeleton => WeaponKind::Shortbow,
        EnemyKind::Spider => WeaponKind::Melee,
        EnemyKind::Bat => WeaponKind::Melee,
        EnemyKind::Slime => WeaponKind::Melee,
        EnemyKind::Wizard => WeaponKind::Spellbook,
        EnemyKind::LavaDog => WeaponKind::Melee,
        EnemyKind::SuperWizard => WeaponKind::Spellbook,
    }
}

/// What the kind drops on death, if anything.
pub fn enemy_death_drops(k: EnemyKind) -> (r: Option<LootKind>)
    ensures
        r is Some ==> k is Skeleton,
{
    match k {
        EnemyKind::Skeleton => Some(LootKind::SkeletonDrops),
        _ => None,
    }
}

/// A fresh flanking angle: the direction from the player to the enemy
/// (half a turn past the enemy-to-player direction), jittered by up to a
/// quarter turn either way.
fn rederive_angle(me: (usize, usize), ppos: (usize, usize)) -> (a: u8)
    requires
        in_grid(me),
        in_grid(ppos),
    ensures
        a < 64,
{
    let dx = (ppos.0 as i32 - me.0 as i32) * 32;
    let dy = (ppos.1 as i32 - me.1 as i32) * 32;
    let base = nearest_dir64(dx, dy);
    let j = random_below(33) as u32;
    ((base as u32 + 32 + 64 + j - 16) % 64) as u8
}

/// What an enemy resolved to do this round.
#[derive(Clone, Copy, Debug)]
pub enum EnemyAction {
    MoveTo((usize, usize)),
    Attack((i32, i32)),
    Wait,
}

#[derive(Clone, Copy, Debug)]
pub struct Enemy {
    pub x: usize,
    pub y: usize,
    /// Everyone has a favorite angle, in sixty-fourths of a turn: the side
    /// of the player this enemy prefers to flank from.
    pub favorite_angle: u8,
    pub kind: EnemyKind,
    pub awake: bool,
    pub just_awoke: bool,
    pub was_damaged: bool,
    /// In tenths of a hit point; at or below zero the enemy is removed.
    pub health: i32,
    pub current_action: Option<EnemyAction>,
}

impl Enemy {
    pub open spec fn wf(self) -> bool {
        in_grid((self.x, self.y)) && self.favorite_angle < 64
    }

    pub open spec fn pos(self) -> (usize, usize) {
        (self.x, self.y)
    }

    /// A fresh, sleeping enemy of the kind at the cell, with a random
    /// favorite angle.
    pub fn new(x: usize, y: usize, kind: EnemyKind) -> (e: Enemy)
        requires
            in_grid((x, y)),
        ensures
            e.wf(),
            e.x == x && e.y == y,
            e.kind == kind,
            e.health == spec_enemy_max_health(kind),
            !e.awake && !e.just_awoke && !e.was_damaged,
            e.current_action is None,
    {
        Enemy {
            x,
            y,
            favorite_angle: random_below(64) as u8,
            kind,
            awake: false,
            just_awoke: false,
            was_damaged: false,
            health: enemy_max_health(kind),
            current_action: None,
        }
    }

    pub fn awaken(&mut self)
        requires
            old(self).wf(),
        ensures
            *final(self) == (Enemy { awake: true, just_awoke: true, ..*old(self) }),
    {
        self.awake = true;
        self.just_awoke = true;
    }

    /// Deterministic half of taking a hit, with the block roll given.
    pub fn damage_with_roll(&mut self, amt: u32, roll: u32)
        requires
            old(self).wf(),
        ensures
            final(self).wf(),
            roll < spec_enemy_block_pct(old(self).kind) ==> *final(self) == *old(self),
            roll >= spec_enemy_block_pct(old(self).kind) ==> *final(self) == (Enemy {
                health: damaged_health(old(self).health, amt) as i32,
                was_damaged: true,
                ..*old(self)
            }),
    {
        let blocked = roll < enemy_block_pct(self.kind);
        if !blocked {
            self.was_damaged = true;
            let nh = self.health as i64 - amt as i64;
            self.health = if nh < i32::MIN as i64 {
                i32::MIN
            } else {
                nh as i32
            };
        }
    }

    /// One enemy turn.  If the player stands within the weapon's attack
    /// interval, the enemy attacks — and only then; the damage is the
    /// weapon's base damage unless the player's armor blocks the hit.
    /// Otherwise, if its chase policy permits (the player's sight covers its
    /// cell, or it always chases), it tries up to five times to find a
    /// pathable flanking cell at its preferred angle around the player at a
    /// radius clamped to the weapon's range, nudging radius and re-rolling
    /// the angle on failures; a found path yields a move to the path's first
    /// step, an adjacent walkable cell.  Exhaustion yields a wait.
    pub fn act(&mut self, tiles: &Vec<Tile>, player: &mut Player) -> (r: EnemyAction)
        requires
            old(self).wf(),
            tiles@.len() == GRID_AREA,
            walkable_at(tiles@, old(self).pos()),
            old(player).wf(),
        ensures
            final(self).wf(),
            final(self).pos() == old(self).pos(),
            final(self).health == old(self).health,
            final(self).kind == old(self).kind,
            final(self).awake == old(self).awake,
            final(player).wf(),
            (r is Attack) <==> weapon_range_contains(
                spec_enemy_weapon(old(self).kind),
                spec_dist(old(self).pos(), old(player).pos()) as int,
            ),
            r is Attack ==> *final(player) == *old(player) || *final(player) == (Player {
                health: damaged_health(
                    old(player).health,
                    crate::items::spec_weapon_damage(spec_enemy_weapon(old(self).kind)),
                ) as i32,
                was_damaged: true,
                ..*old(player)
            }),
            !(r is Attack) ==> *final(player) == *old(player),
            r matches EnemyAction::MoveTo(p) ==> adjacent(old(self).pos(), p) && walkable_at(
                tiles@,
                p,
            ),
            spec_enemy_movement(old(self).kind) == MovementType::ChaseWhenVisible && !(old(
                player,
            ).tile_status@[idx_spec(old(self).pos())] is Known) && !weapon_range_contains(
                spec_enemy_weapon(old(self).kind),
                spec_dist(old(self).pos(), old(player).pos()) as int,
            ) ==> r is Wait,
    {
        if self.just_awoke {
            self.just_awoke = false;
        }
        if self.was_damaged {
            self.was_damaged = false;
        }
        let me = (self.x, self.y);
        let ppos = (player.x, player.y);
        let d = cell_distance(me, ppos);
        let wk = enemy_weapon(self.kind);
        let minr = weapon_min_range(wk);
        let maxr = weapon_max_range(wk);
        proof {
            assert(1 <= crate::items::spec_weapon_min_range(wk) <= 2);
            assert(2 <= crate::items::spec_weapon_max_range(wk) <= 5);
        }
        if minr <= d && d < maxr {
            player.damage(weapon_damage(wk));
            let dx = ppos.0 as i32 - me.0 as i32;
            let dy = ppos.1 as i32 - me.1 as i32;
            return EnemyAction::Attack((dx, dy));
        }
        let should_pathfind = match enemy_movement(self.kind) {
            MovementType::AlwaysChase => true,
            MovementType::ChaseWhenVisible => {
                let mi = tile_index(me.0, me.1);
                matches!(player.tile_status[mi], TileStatus::Known)
            },
        };
        if should_pathfind {
            let max_incl = maxr - 1;
            let mut target_radius: usize = if d < minr {
                minr
            } else if d > max_incl {
                max_incl
            } else {
                d
            };
            let mut adjusted = false;
            let mut attempts: usize = 0;
            while attempts < 5
                invariant
                    self.wf(),
                    player.wf(),
                    tiles@.len() == GRID_AREA,
                    walkable_at(tiles@, (self.x, self.y)),
                    me == (self.x, self.y),
                    in_grid(ppos),
                    target_radius <= 11,
                    !adjusted ==> target_radius <= 10,
                    attempts <= 5,
                    self.x == old(self).x && self.y == old(self).y,
                    self.kind == old(self).kind,
                    self.health == old(self).health,
                    self.awake == old(self).awake,
                    *player == *old(player),
                    !weapon_range_contains(
                        spec_enemy_weapon(old(self).kind),
                        spec_dist(old(self).pos(), old(player).pos()) as int,
                    ),
                    spec_enemy_movement(old(self).kind) == MovementType::AlwaysChase || (old(
                        player,
                    ).tile_status@[idx_spec(old(self).pos())] is Known),
                decreases 5 - attempts,
            {
                let (cm, sm) = dir64(self.favorite_angle);
                proof {
                    assert(-11000 <= cm as i64 * target_radius as i64 <= 11000) by (
                    nonlinear_arith)
                        requires
                            -1000 <= cm <= 1000,
                            0 <= target_radius <= 11,
                    ;
                    assert(-11000 <= sm as i64 * target_radius as i64 <= 11000) by (
                    nonlinear_arith)
                        requires
                            -1000 <= sm <= 1000,
                            0 <= target_radius <= 11,
                    ;
                }
                let tx_milli = ppos.0 as i64 * 1000 + 500 + cm as i64 * target_radius as i64;
                let ty_milli = ppos.1 as i64 * 1000 + 500 + sm as i64 * target_radius as i64;
                let mut cand: Option<(usize, usize)> = None;
                if tx_milli >= 0 && ty_milli >= 0 {
                    let cx = (tx_milli / 1000) as usize;
                    let cy = (ty_milli / 1000) as usize;
                    if cx < TILES_HORIZONTAL && cy < TILES_VERTICAL {
                        cand = Some((cx, cy));
                    }
                }
                match cand {
                    Some(c) => {
                        let cd = cell_distance(c, ppos);
                        if !adjusted && cd < minr {
                            adjusted = true;
                            target_radius = target_radius + 1;
                        } else if !adjusted && cd > max_incl {
                            adjusted = true;
                            if target_radius > 0 {
                                target_radius = target_radius - 1;
                            }
                        } else if c.0 == me.0 && c.1 == me.1 {
                            return EnemyAction::Wait;
                        } else {
                            let path = find_path(tiles, me, c);
                            let mut moved: Option<(usize, usize)> = None;
                            match &path {
                                Some((p, _)) => {
                                    if p.len() > 1 {
                                        proof {
                                            assert(adjacent(p@[0], p@[1]));
                                            assert(walkable_at(tiles@, p@[1]));
                                        }
                                        moved = Some(p[1]);
                                    }
                                },
                                None => {},
                            }
                            match moved {
                                Some(next) => {
                                    return EnemyAction::MoveTo(next);
                                },
                                None => {
                                    self.favorite_angle = rederive_angle(me, ppos);
                                },
                            }
                        }
                    },
                    None => {
                        self.favorite_angle = rederive_angle(me, ppos);
                    },
                }
                attempts = attempts + 1;
            }
        }
        EnemyAction::Wait
    }

    /// Take a hit: a fresh roll against the kind's block chance decides
    /// whether the full amount lands.
    pub fn damage(&mut self, amt: u32)
        requires
            old(self).wf(),
        ensures
            final(self).wf(),
            *final(self) == *old(self) || *final(self) == (Enemy {
                health: damaged_health(old(self).health, amt) as i32,
                was_damaged: true,
                ..*old(self)
            }),
            final(self).health <= old(self).health,
            final(self).pos() == old(self).pos(),
    {
        let roll = random_below(100) as u32;
        self.damage_with_roll(amt, roll);
    }
}

} // verus!
