use vstd::prelude::*;

use crate::dungeon::{floor_for_index, generate_dungeon, Dungeon};
use crate::entities::{
    move_target, resolves_as_move, turn_vector, Enemy, EnemyAction, Player, PlayerAction,
    TileStatus,
};
use crate::grid::{adjacent, idx_spec, spec_connected, tile_index, walkable_at};
use crate::loot::loot_table;
use crate::rng::random_below;
use crate::GRID_AREA;

verus! {

/// Duration of one action animation window, in milliseconds.
pub const ACTION_TIME_MS: u32 = 150;

/// Phase of the turn machine.  Time is in whole milliseconds so the frame
/// arithmetic stays exact.
#[derive(Clone, Copy, PartialEq, Eq, Structural, Debug)]
pub enum GameState {
    /// Accepting player input.
    Idle,
    /// The player's action is playing out; the time remaining is carried.
    PlayerAction(u32),
    /// The player chose to wait; feeds straight into the enemy round.
    Waiting(u32),
    /// The enemies' actions are playing out.
    EnemyAction(u32),
}

/// The enemies that outlive a sweep: those with health left, in their
/// original order.
pub open spec fn surviving(s: Seq<Enemy>) -> Seq<Enemy>
    decreases s.len(),
{
    if s.len() == 0 {
        s
    } else {
        let rest = surviving(s.drop_last());
        if s.last().health > 0 {
            rest.push(s.last())
        } else {
            rest
        }
    }
}

/// A kill counter after `removed` more kills, saturating at the type
/// ceiling.
pub open spec fn slain_total(count: u32, removed: int) -> int {
    if count + removed <= u32::MAX {
        count + removed
    } else {
        u32::MAX as int
    }
}

/// One in-memory play session: the single live actor, the current floor,
/// and the phase gate that keeps player and enemy turns strictly
/// sequential.
pub struct Session {
    pub player: Player,
    pub floor: usize,
    pub dungeon: Dungeon,
    pub state: GameState,
    pub dead: bool,
}

impl Session {
    /// The session's running invariant: sound player and dungeon, the
    /// player on a walkable cell that no enemy occupies.
    pub open spec fn wf(self) -> bool {
        &&& self.player.wf()
        &&& self.dungeon.wf()
        &&& walkable_at(self.dungeon.tiles@, self.player.pos())
        &&& !self.dungeon.enemy_at(self.player.pos())
    }

    /// Start a session on the given floor: a fresh default player standing
    /// on the spawn, idle, alive.
    pub fn new(dungeon: Dungeon) -> (s: Session)
        requires
            dungeon.wf(),
            !dungeon.enemy_at(dungeon.player_spawn),
        ensures
            s.wf(),
            s.player.pos() == dungeon.player_spawn,
            s.floor == 0,
            s.state == GameState::Idle,
            !s.dead,
    {
        let mut player = Player::default();
        let spawn = dungeon.player_spawn;
        proof {
            crate::grid::lemma_idx_bounds(spawn);
        }
        player.move_to(spawn, &dungeon);
        Session { player, floor: 0, dungeon, state: GameState::Idle, dead: false }
    }

    /// End the run: the machine returns to idle and stays there.
    pub fn die(&mut self)
        requires
            old(self).wf(),
        ensures
            final(self).wf(),
            final(self).dead,
            final(self).state == GameState::Idle,
            final(self).player == old(self).player,
            final(self).dungeon == old(self).dungeon,
            final(self).floor == old(self).floor,
    {
        self.dead = true;
        self.state = GameState::Idle;
    }

    /// One enemy-action round, in list order.  Each awake enemy acts
    /// against the live position table: a move onto the player's cell or a
    /// cell another enemy holds is downgraded to a wait, and an accepted
    /// move claims its cell at once, so that no two enemies ever resolve
    /// onto the same cell and none onto the player.  Sleeping enemies in
    /// the player's sight may wake instead, more likely the closer they
    /// stand.
    pub fn perform_enemy_actions(&mut self)
        requires
            old(self).wf(),
        ensures
            final(self).wf(),
            forall|k: int, l: int|
                0 <= k < l < final(self).dungeon.enemies@.len() ==> (#[trigger] final(self).dungeon.enemies@[k]).pos()
                    != (#[trigger] final(self).dungeon.enemies@[l]).pos(),
            forall|k: int|
                0 <= k < final(self).dungeon.enemies@.len() ==> (#[trigger] final(self).dungeon.enemies@[k]).pos()
                    != final(self).player.pos(),
            forall|k: int|
                0 <= k < old(self).dungeon.enemies@.len() ==> (#[trigger] final(self).dungeon.enemies@[k]).kind
                    == old(self).dungeon.enemies@[k].kind && final(self).dungeon.enemies@[k].health
                    == old(self).dungeon.enemies@[k].health && (final(self).dungeon.enemies@[k].pos()
                    == old(self).dungeon.enemies@[k].pos() || (adjacent(
                    old(self).dungeon.enemies@[k].pos(),
                    final(self).dungeon.enemies@[k].pos(),
                ) && walkable_at(
                    old(self).dungeon.tiles@,
                    final(self).dungeon.enemies@[k].pos(),
                ))),
            forall|k: int|
                0 <= k < old(self).dungeon.enemies@.len() && old(self).dungeon.enemies@[k].awake
                    ==> (#[trigger] final(self).dungeon.enemies@[k]).awake,
            forall|k: int|
                0 <= k < old(self).dungeon.enemies@.len() && !old(self).dungeon.enemies@[k].awake
                    ==> (#[trigger] final(self).dungeon.enemies@[k]).pos() == old(
                    self,
                ).dungeon.enemies@[k].pos() && (final(self).dungeon.enemies@[k].awake ==> old(
                    self,
                ).player.tile_status@[idx_spec(old(self).dungeon.enemies@[k].pos())] is Known),
            final(self).player.pos() == old(self).player.pos(),
            final(self).player.health <= old(self).player.health,
            final(self).player.tile_status == old(self).player.tile_status,
            final(self).player.inventory == old(self).player.inventory,
            final(self).dungeon.tiles == old(self).dungeon.tiles,
            final(self).dungeon.enemies@.len() == old(self).dungeon.enemies@.len(),
            final(self).dungeon.player_spawn == old(self).dungeon.player_spawn,
            final(self).dungeon.floor_kind == old(self).dungeon.floor_kind,
            final(self).state == old(self).state,
            final(self).floor == old(self).floor,
            final(self).dead == old(self).dead,
    {
        let ghost entry_enemies = self.dungeon.enemies@;
        let n = self.dungeon.enemies.len();
        let mut i: usize = 0;
        while i < n
            invariant
                entry_enemies == old(self).dungeon.enemies@,
                n == entry_enemies.len(),
                forall|k: int| i <= k < n ==> self.dungeon.enemies@[k] == entry_enemies[k],
                forall|k: int|
                    0 <= k < i ==> (#[trigger] self.dungeon.enemies@[k]).kind == entry_enemies[k].kind
                        && self.dungeon.enemies@[k].health == entry_enemies[k].health && (
                    self.dungeon.enemies@[k].pos() == entry_enemies[k].pos() || (adjacent(
                        entry_enemies[k].pos(),
                        self.dungeon.enemies@[k].pos(),
                    ) && walkable_at(self.dungeon.tiles@, self.dungeon.enemies@[k].pos()))),
                forall|k: int|
                    0 <= k < i && entry_enemies[k].awake ==> (
                    #[trigger] self.dungeon.enemies@[k]).awake,
                forall|k: int|
                    0 <= k < i && !entry_enemies[k].awake ==> (
                    #[trigger] self.dungeon.enemies@[k]).pos() == entry_enemies[k].pos() && (
                    self.dungeon.enemies@[k].awake ==> old(self).player.tile_status@[idx_spec(
                        entry_enemies[k].pos(),
                    )] is Known),
                self.player.wf(),
                self.dungeon.wf(),
                walkable_at(self.dungeon.tiles@, self.player.pos()),
                !self.dungeon.enemy_at(self.player.pos()),
                n == self.dungeon.enemies@.len(),
                i <= n,
                self.player.x == old(self).player.x && self.player.y == old(self).player.y,
                self.player.health <= old(self).player.health,
                self.player.tile_status == old(self).player.tile_status,
                self.player.inventory == old(self).player.inventory,
                self.dungeon.tiles == old(self).dungeon.tiles,
                self.dungeon.player_spawn == old(self).dungeon.player_spawn,
                self.dungeon.floor_kind == old(self).dungeon.floor_kind,
                self.state == old(self).state,
                self.floor == old(self).floor,
                self.dead == old(self).dead,
            decreases n - i,
        {
            let awake = self.dungeon.enemies[i].awake;
            if awake {
                let mut e = self.dungeon.enemies[i];
                let action = e.act(&self.dungeon.tiles, &mut self.player);
                match action {
                    EnemyAction::MoveTo(pos) => {
                        let on_player = pos.0 == self.player.x && pos.1 == self.player.y;
                        let claimed = self.dungeon.find_enemy_at(pos).is_some();
                        if on_player || claimed {
                            e.current_action = Some(EnemyAction::Wait);
                        } else {
                            e.current_action = Some(action);
                            e.x = pos.0;
                            e.y = pos.1;
                        }
                    },
                    _ => {
                        e.current_action = Some(action);
                    },
                }
                let ghost before = self.dungeon.enemies@;
                self.dungeon.enemies[i] = e;
                proof {
                    assert forall|k: int, l: int|
                        0 <= k < l < self.dungeon.enemies@.len() implies (
                    #[trigger] self.dungeon.enemies@[k]).pos() != (
                    #[trigger] self.dungeon.enemies@[l]).pos() by {
                        if k != i && l != i {
                            assert(before[k].pos() != before[l].pos());
                        } else {
                            let m = if k == i {
                                l
                            } else {
                                k
                            };
                            assert(self.dungeon.enemies@[m] == before[m]);
                            if e.pos() == before[i as int].pos() {
                                assert(before[k].pos() != before[l].pos());
                            } else {
                                // the enemy moved, and the claim check
                                // refused every occupied destination
                                assert(before[m].pos() != e.pos());
                            }
                        }
                    };
                    assert forall|k: int|
                        0 <= k < self.dungeon.enemies@.len() implies (
                    #[trigger] self.dungeon.enemies@[k]).pos() != self.player.pos() by {
                        if k != i {
                            assert(before[k].pos() != self.player.pos());
                        }
                    };
                }
            } else {
                let e = self.dungeon.enemies[i];
                let ei = tile_index(e.x, e.y);
                if matches!(self.player.tile_status[ei], TileStatus::Known) {
                    let mdx = if e.x >= self.player.x {
                        e.x - self.player.x
                    } else {
                        self.player.x - e.x
                    };
                    let mdy = if e.y >= self.player.y {
                        e.y - self.player.y
                    } else {
                        self.player.y - e.y
                    };
                    let md = mdx + mdy;
                    let bound = if md > 14 {
                        14
                    } else {
                        md
                    };
                    proof {
                        assert(e.pos() != self.player.pos());
                        assert(md >= 1);
                    }
                    if random_below(bound) <= 2 {
                        let mut e2 = self.dungeon.enemies[i];
                        e2.awaken();
                        let ghost before = self.dungeon.enemies@;
                        self.dungeon.enemies[i] = e2;
                        proof {
                            assert(e2.pos() == before[i as int].pos());
                            assert forall|k: int, l: int|
                                0 <= k < l < self.dungeon.enemies@.len() implies (
                            #[trigger] self.dungeon.enemies@[k]).pos() != (
                            #[trigger] self.dungeon.enemies@[l]).pos() by {
                                assert(before[k].pos() != before[l].pos());
                            };
                            assert forall|k: int|
                                0 <= k < self.dungeon.enemies@.len() implies (
                            #[trigger] self.dungeon.enemies@[k]).pos() != self.player.pos() by {
                                assert(before[k].pos() != self.player.pos());
                            };
                        }
                    }
                }
            }
            i = i + 1;
        }
    }

    /// One frame of the turn machine.  The active timer counts down by the
    /// frame delta; a player-action window that expires captures whether
    /// any enemy is in sight, applies and ages status effects, runs one
    /// enemy round, and enters the enemy window exactly when an enemy was
    /// visible; the wait and enemy windows expire into the enemy window and
    /// idling respectively.  Idle frames change nothing.
    pub fn update_gamestate(&mut self, delta_ms: u32)
        requires
            old(self).wf(),
        ensures
            final(self).wf(),
            final(self).floor == old(self).floor,
            final(self).dead == old(self).dead,
            final(self).player.pos() == old(self).player.pos(),
            final(self).player.health <= old(self).player.health,
            match old(self).state {
                GameState::Idle => *final(self) == *old(self),
                GameState::PlayerAction(t) => {
                    if delta_ms < t {
                        final(self).state == GameState::PlayerAction((t - delta_ms) as u32)
                            && final(self).player == old(self).player && final(self).dungeon == old(
                            self,
                        ).dungeon
                    } else {
                        (final(self).state == GameState::EnemyAction(ACTION_TIME_MS) || final(self).state == GameState::Idle) && ((final(self).state == GameState::EnemyAction(
                            ACTION_TIME_MS,
                        )) <==> exists|k: int|
                            0 <= k < old(self).dungeon.enemies@.len() && old(
                                self,
                            ).player.tile_status@[idx_spec(
                                (#[trigger] old(self).dungeon.enemies@[k]).pos(),
                            )] is Known)
                    }
                },
                GameState::Waiting(t) => {
                    final(self).player == old(self).player && final(self).dungeon == old(
                        self,
                    ).dungeon && final(self).state == (if delta_ms < t {
                        GameState::Waiting((t - delta_ms) as u32)
                    } else {
                        GameState::EnemyAction(ACTION_TIME_MS)
                    })
                },
                GameState::EnemyAction(t) => {
                    final(self).player == old(self).player && final(self).dungeon == old(
                        self,
                    ).dungeon && final(self).state == (if delta_ms < t {
                        GameState::EnemyAction((t - delta_ms) as u32)
                    } else {
                        GameState::Idle
                    })
                },
            },
    {
        let cur = self.state;
        match cur {
            GameState::Idle => {},
            GameState::PlayerAction(t) => {
                if delta_ms < t {
                    self.state = GameState::PlayerAction(t - delta_ms);
                } else {
                    let visible = self.player.get_visible_enemies(&self.dungeon);
                    let enemies_visible = visible.len() > 0;
                    self.player.apply_status_effects();
                    self.perform_enemy_actions();
                    if enemies_visible {
                        self.state = GameState::EnemyAction(ACTION_TIME_MS);
                    } else {
                        self.state = GameState::Idle;
                    }
                }
            },
            GameState::Waiting(t) => {
                if delta_ms < t {
                    self.state = GameState::Waiting(t - delta_ms);
                } else {
                    self.state = GameState::EnemyAction(ACTION_TIME_MS);
                }
            },
            GameState::EnemyAction(t) => {
                if delta_ms < t {
                    self.state = GameState::EnemyAction(t - delta_ms);
                } else {
                    self.state = GameState::Idle;
                }
            },
        }
    }

    /// Extract every enemy whose health ran out, roll its death drops onto
    /// the ground where it fell, and count the kill.  Runs every frame so
    /// no stale corpse survives into the next round.
    pub fn resolve_dead_enemies(&mut self)
        requires
            old(self).wf(),
        ensures
            final(self).wf(),
            forall|k: int|
                0 <= k < final(self).dungeon.enemies@.len() ==> (#[trigger] final(self).dungeon.enemies@[k]).health
                    > 0,
            final(self).dungeon.enemies@ == surviving(old(self).dungeon.enemies@),
            final(self).player.enemies_slayed == slain_total(
                old(self).player.enemies_slayed,
                old(self).dungeon.enemies@.len() - surviving(old(self).dungeon.enemies@).len(),
            ),
            final(self).player.pos() == old(self).player.pos(),
            final(self).player.health == old(self).player.health,
            final(self).player.tile_status == old(self).player.tile_status,
            final(self).dungeon.tiles == old(self).dungeon.tiles,
            final(self).dungeon.player_spawn == old(self).dungeon.player_spawn,
            final(self).dungeon.floor_kind == old(self).dungeon.floor_kind,
            final(self).state == old(self).state,
            final(self).floor == old(self).floor,
            final(self).dead == old(self).dead,
    {
        let ghost entry_enemies = self.dungeon.enemies@;
        let ghost entry_slayed = self.player.enemies_slayed;
        let mut alive: Vec<Enemy> = Vec::new();
        let n = self.dungeon.enemies.len();
        let mut i: usize = 0;
        while i < n
            invariant
                old(self).wf(),
                entry_enemies == old(self).dungeon.enemies@,
                entry_slayed == old(self).player.enemies_slayed,
                self.dungeon.enemies@ == entry_enemies,
                n == entry_enemies.len(),
                i <= n,
                alive@ == surviving(entry_enemies.take(i as int)),
                alive@.len() <= i,
                self.player.enemies_slayed == slain_total(entry_slayed, i - alive@.len()),
                self.dungeon.tiles == old(self).dungeon.tiles,
                self.dungeon.player_spawn == old(self).dungeon.player_spawn,
                self.dungeon.floor_kind == old(self).dungeon.floor_kind,
                self.player == (Player {
                    enemies_slayed: self.player.enemies_slayed,
                    ..old(self).player
                }),
                self.state == old(self).state,
                self.floor == old(self).floor,
                self.dead == old(self).dead,
                forall|k: int| 0 <= k < alive@.len() ==> (#[trigger] alive@[k]).health > 0,
                forall|k: int|
                    0 <= k < alive@.len() ==> exists|j: int|
                        0 <= j < i && #[trigger] alive@[k] == entry_enemies[j],
                forall|k: int, l: int|
                    0 <= k < l < alive@.len() ==> (#[trigger] alive@[k]).pos() != (
                    #[trigger] alive@[l]).pos(),
                forall|k: int|
                    0 <= k < alive@.len() ==> (#[trigger] alive@[k]).wf() && walkable_at(
                        self.dungeon.tiles@,
                        alive@[k].pos(),
                    ) && alive@[k].pos() != self.player.pos(),
            decreases n - i,
        {
            let e = self.dungeon.enemies[i];
            proof {
                assert(entry_enemies.take(i + 1).drop_last() =~= entry_enemies.take(i as int));
                assert(entry_enemies.take(i + 1).last() == entry_enemies[i as int]);
            }
            if e.health > 0 {
                let ghost before = alive@;
                alive.push(e);
                proof {
                    assert(alive@[before.len() as int] == entry_enemies[i as int]);
                    assert forall|k: int|
                        0 <= k < alive@.len() implies exists|j: int|
                        0 <= j < i + 1 && #[trigger] alive@[k] == entry_enemies[j] by {
                        if k < before.len() {
                            let j = choose|j: int|
                                0 <= j < i && #[trigger] before[k] == entry_enemies[j];
                            assert(alive@[k] == entry_enemies[j]);
                        }
                    };
                    assert forall|k: int, l: int|
                        0 <= k < l < alive@.len() implies (#[trigger] alive@[k]).pos() != (
                    #[trigger] alive@[l]).pos() by {
                        if l == before.len() {
                            let j = choose|j: int|
                                0 <= j < i && #[trigger] alive@[k] == entry_enemies[j];
                            assert(entry_enemies[j].pos() != entry_enemies[i as int].pos());
                        } else {
                            assert(before[k].pos() != before[l].pos());
                        }
                    };
                    assert(!self.dungeon.enemy_at(self.player.pos()));
                    assert(entry_enemies[i as int].pos() != self.player.pos());
                }
            } else {
                if self.player.enemies_slayed < u32::MAX {
                    self.player.enemies_slayed = self.player.enemies_slayed + 1;
                }
                match crate::entities::enemy_death_drops(e.kind) {
                    Some(lk) => {
                        let table = loot_table(lk);
                        match table.get_item() {
                            Some(it) => {
                                self.dungeon.items.push((e.x, e.y, it));
                            },
                            None => {},
                        }
                    },
                    None => {},
                }
            }
            i = i + 1;
        }
        proof {
            assert(entry_enemies.take(n as int) =~= entry_enemies);
        }
        self.dungeon.enemies = alive;
    }

    /// Fire the floor transition a door triggers: the whole dungeon is
    /// replaced by a fresh one for the next floor, the player's fog-of-war
    /// memory is reset to fully unknown before sight is recomputed from the
    /// new spawn — so nothing is remembered of the old floor — and the
    /// player stands on the new spawn.
    pub fn goto_next_dungeon(&mut self)
        requires
            old(self).wf(),
        ensures
            final(self).wf(),
            final(self).player.pos() == final(self).dungeon.player_spawn,
            spec_connected(final(self).dungeon.tiles@),
            forall|i: int|
                0 <= i < GRID_AREA ==> !(#[trigger] final(self).player.tile_status@[i] is Remembered),
            final(self).state == old(self).state,
            final(self).dead == old(self).dead,
            old(self).floor < usize::MAX ==> final(self).floor == old(self).floor + 1,
            old(self).floor == usize::MAX ==> final(self).floor == old(self).floor,
            crate::dungeon::enemies_ok(
                final(self).dungeon.enemies@,
                final(self).dungeon.tiles@,
                final(self).dungeon.player_spawn,
            ),
    {
        if self.floor < usize::MAX {
            self.floor = self.floor + 1;
        }
        let next = generate_dungeon(floor_for_index(self.floor));
        self.dungeon = next;
        let mut ts: Vec<TileStatus> = Vec::new();
        let mut i: usize = 0;
        while i < GRID_AREA
            invariant
                i <= GRID_AREA,
                ts@.len() == i,
                forall|k: int| 0 <= k < i ==> ts@[k] is Unknown,
            decreases GRID_AREA - i,
        {
            ts.push(TileStatus::Unknown);
            i = i + 1;
        }
        self.player.tile_status = ts;
        let spawn = self.dungeon.player_spawn;
        proof {
            crate::grid::lemma_idx_bounds(spawn);
        }
        self.player.move_to(spawn, &self.dungeon);
    }

    /// One frame of the whole simulation: detect death, advance the turn
    /// machine, resolve the player's input into an action — a completed
    /// one arms the action window, a door transition replaces the floor —
    /// and sweep dead enemies.  The session invariant holds at every frame
    /// boundary.
    pub fn step(
        &mut self,
        delta_ms: u32,
        click: Option<(usize, usize)>,
        input_axis: (i32, i32),
        any_key_pressed: bool,
        wait_pressed: bool,
        interact_pressed: bool,
    )
        requires
            old(self).wf(),
        ensures
            final(self).wf(),
            forall|k: int|
                0 <= k < final(self).dungeon.enemies@.len() ==> (#[trigger] final(self).dungeon.enemies@[k]).health
                    > 0,
            old(self).state matches GameState::PlayerAction(t) ==> ((!old(self).dead && old(
                self,
            ).player.health > 0 && delta_ms < t) ==> final(self).state == GameState::PlayerAction(
                (t - delta_ms) as u32,
            )),
            !old(self).dead && old(self).player.health > 0 && old(self).state is Idle && click
                is None && resolves_as_move(
                old(self).player,
                old(self).dungeon,
                turn_vector(old(self).player, input_axis, any_key_pressed),
            ) ==> {
                let t = move_target(
                    old(self).player,
                    turn_vector(old(self).player, input_axis, any_key_pressed),
                );
                final(self).player.pos() == ((t.0 as usize, t.1 as usize)) && final(self).state
                    == GameState::PlayerAction(ACTION_TIME_MS)
            },
    {
        if self.player.health <= 0 && !self.dead {
            self.die();
        }
        if !self.dead {
            self.update_gamestate(delta_ms);
            let action = self.player.update(
                &mut self.dungeon,
                &self.state,
                click,
                input_axis,
                any_key_pressed,
                wait_pressed,
                interact_pressed,
            );
            match action {
                Some(PlayerAction::GotoNextDungeon) => {
                    self.goto_next_dungeon();
                },
                Some(a) => {
                    self.player.active_action = Some(a);
                    self.state = GameState::PlayerAction(ACTION_TIME_MS);
                },
                None => {},
            }
        }
        self.resolve_dead_enemies();
    }
}

} // verus!
