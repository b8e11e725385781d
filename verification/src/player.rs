//! Per-player state: match membership, combat bookkeeping, inventory and
//! where the player was last sent.

use vstd::prelude::*;

verus! {

/// Health of a freshly spawned or respawned player, in half-hearts.
pub const MAX_HEALTH: u8 = 20;

/// Ticks a player stays invulnerable after taking a hit.
pub const INVULN_WINDOW_TICKS: i64 = 10;

/// One stack of items in an inventory slot.
#[derive(Clone, Copy, PartialEq, Eq, Structural, Debug)]
pub struct ItemStack {
    pub kind: u32,
    pub count: u8,
}

/// A player's relation to the match system: the game they are in (if any),
/// their team within it, and how many matches they have won.
#[derive(Clone, Copy, PartialEq, Eq, Structural, Debug)]
pub struct PlayerGameState {
    pub game_id: Option<u64>,
    pub team: u8,
    pub wins: u32,
}

impl Default for PlayerGameState {
    /// Out of any game, on the default team, with no wins.
    fn default() -> (d: Self)
        ensures
            d.game_id is None,
            d.team == 0,
            d.wins == 0,
    {
        PlayerGameState { game_id: None, team: 0, wins: 0 }
    }
}

/// Transient combat bookkeeping: when the player last took a hit (for the
/// invulnerability window), whether their next hit carries the sprint
/// knockback bonus, and who hit them last (for kill credit until they
/// respawn).
#[derive(Clone, Copy, PartialEq, Eq, Structural, Debug)]
pub struct CombatState {
    pub last_attacked_tick: i64,
    pub has_bonus_knockback: bool,
    pub last_attacker: Option<u64>,
}

impl Default for CombatState {
    fn default() -> (d: Self)
        ensures
            d.last_attacked_tick == 0,
            !d.has_bonus_knockback,
            d.last_attacker is None,
    {
        CombatState { last_attacked_tick: 0, has_bonus_knockback: false, last_attacker: None }
    }
}

impl CombatState {
    /// A hit lands only when the invulnerability window from the previous
    /// hit has passed.
    pub open spec fn spec_vulnerable(self, tick: i64) -> bool {
        tick - self.last_attacked_tick >= INVULN_WINDOW_TICKS
    }

    /// Record the start or end of a sprint; the next hit this player lands
    /// carries bonus knockback exactly while they sprint.
    pub fn set_sprinting(&mut self, sprinting: bool)
        ensures
            final(self).has_bonus_knockback == sprinting,
            final(self).last_attacked_tick == old(self).last_attacked_tick,
            final(self).last_attacker == old(self).last_attacker,
    {
        self.has_bonus_knockback = sprinting;
    }
}

/// Ticks a food item must be held in use before it is consumed.
pub const EAT_TICKS: i64 = 32;

/// Tick at which the player started using (e.g. eating) the held item;
/// `i64::MAX` while no use is in progress.
#[derive(Clone, Copy, PartialEq, Eq, Structural, Debug)]
pub struct ItemUseState {
    pub start_tick: i64,
}

impl Default for ItemUseState {
    fn default() -> (d: Self)
        ensures
            d.start_tick == i64::MAX,
    {
        ItemUseState { start_tick: i64::MAX }
    }
}

impl ItemUseState {
    /// The player started using the held item this tick.
    pub fn begin(&mut self, tick: i64)
        ensures
            final(self).start_tick == tick,
    {
        self.start_tick = tick;
    }

    /// The use was cancelled (item released or swapped away): nothing is in
    /// progress any more.
    pub fn cancel(&mut self)
        ensures
            final(self).start_tick == i64::MAX,
    {
        self.start_tick = i64::MAX;
    }

    /// Whether the item has been in use long enough to take effect; never
    /// true while nothing is in progress.
    pub fn finished(&self, tick: i64) -> (r: bool)
        ensures
            r <==> tick - self.start_tick > EAT_TICKS,
    {
        (tick as i128) - (self.start_tick as i128) > (EAT_TICKS as i128)
    }
}

/// The last place the lifecycle sent a player: the lobby spawn, or their
/// team's spawn point on a given map.
#[derive(Clone, Copy, PartialEq, Eq, Structural, Debug)]
pub enum Location {
    LobbySpawn,
    TeamSpawn { map: usize, team: u8 },
}

/// A connected player's record: identity plus all per-player state the
/// lifecycle reads or writes.
#[derive(Debug)]
pub struct PlayerEntry {
    pub id: u64,
    pub gamestate: PlayerGameState,
    pub combat: CombatState,
    pub item_use: ItemUseState,
    pub layer: u64,
    pub loc: Location,
    pub health: u8,
    pub inventory: Vec<ItemStack>,
}

impl PlayerEntry {
    /// A freshly connected player: default state, full health, empty
    /// inventory, placed on the given lobby layer.
    pub open spec fn spec_fresh(self, id: u64, lobby_layer: u64) -> bool {
        &&& self.id == id
        &&& self.gamestate.game_id is None
        &&& self.gamestate.team == 0
        &&& self.gamestate.wins == 0
        &&& self.combat.last_attacked_tick == 0
        &&& !self.combat.has_bonus_knockback
        &&& self.combat.last_attacker is None
        &&& self.item_use.start_tick == i64::MAX
        &&& self.layer == lobby_layer
        &&& self.loc == Location::LobbySpawn
        &&& self.health == MAX_HEALTH
        &&& self.inventory@.len() == 0
    }

    /// The same player with the given inventory contents.
    pub open spec fn spec_outfitted(self, po: PlayerEntry, items: Seq<ItemStack>) -> bool {
        &&& self.id == po.id
        &&& self.gamestate == po.gamestate
        &&& self.combat == po.combat
        &&& self.item_use == po.item_use
        &&& self.layer == po.layer
        &&& self.loc == po.loc
        &&& self.health == po.health
        &&& self.inventory@ == items
    }

    /// Build a freshly connected player's record.
    pub fn fresh(id: u64, lobby_layer: u64) -> (p: PlayerEntry)
        ensures
            p.spec_fresh(id, lobby_layer),
    {
        PlayerEntry {
            id,
            gamestate: PlayerGameState::default(),
            combat: CombatState::default(),
            item_use: ItemUseState::default(),
            layer: lobby_layer,
            loc: Location::LobbySpawn,
            health: MAX_HEALTH,
            inventory: Vec::new(),
        }
    }
}

/// A fresh copy of a stack list, e.g. of a loadout to hand out.
pub(crate) fn copy_items(src: &Vec<ItemStack>) -> (r: Vec<ItemStack>)
    ensures
        r@ == src@,
{
    let mut r: Vec<ItemStack> = Vec::new();
    let n = src.len();
    let mut i: usize = 0;
    while i < n
        invariant
            n == src@.len(),
            i <= n,
            r@ == src@.take(i as int),
        decreases n - i,
    {
        r.push(src[i]);
        proof {
            assert(src@.take(i as int + 1) =~= src@.take(i as int).push(src@[i as int]));
        }
        i = i + 1;
    }
    proof {
        assert(src@.take(n as int) =~= src@);
    }
    r
}

} // verus!
