//! The process-wide match state: the lobby and arena layers, the matchmaking
//! queue, the connected players and the running games, together with the
//! tick systems that drive them.
//!
//! The tick driver outside calls these in order each tick, hands in the
//! clock, and carries the returned events to their consumers (the next
//! system, and the player-visible output).

use crate::game::{
    DataValue, EndGameEvent, Game, GameStageEvent, StartGameEvent, spec_elapsed, spec_next_score,
    spec_stage_step, spec_with_zero_scores, GOAL_TARGET, STAGE_ACTIVE, STAGE_ENDING,
};
use crate::player::{
    copy_items, CombatState, ItemStack, Location, PlayerEntry, INVULN_WINDOW_TICKS, MAX_HEALTH,
};
use crate::rng::{random_index, shuffle_ids};
use std::collections::HashMap;
use vstd::multiset::Multiset;
use vstd::prelude::*;

verus! {

/// How a player's record changes when a game starts: they join the game on
/// its own layer, get the team their position in the participant list gives
/// them, and are sent to that team's spawn on the drawn arena. Everything
/// else about them is kept.
pub open spec fn spec_joined(
    po: PlayerEntry,
    pp: PlayerEntry,
    game_id: u64,
    game_layer: u64,
    map: usize,
    k: int,
    num_teams: u8,
) -> bool {
    &&& pp.id == po.id
    &&& pp.gamestate.game_id == Some(game_id)
    &&& pp.gamestate.team as int == k % (num_teams as int)
    &&& pp.gamestate.wins == po.gamestate.wins
    &&& pp.combat == po.combat
    &&& pp.item_use == po.item_use
    &&& pp.layer == game_layer
    &&& pp.loc == (Location::TeamSpawn { map, team: pp.gamestate.team })
    &&& pp.health == po.health
    &&& pp.inventory == po.inventory
}

/// Some record in this run of players carries the id.
pub open spec fn spec_present(players: Seq<PlayerEntry>, id: u64) -> bool {
    exists|i: int| 0 <= i < players.len() && (#[trigger] players[i]).id == id
}

/// The participants that go back to the queue when a game ends: those of its
/// players that are still connected, in participant-list order.
pub open spec fn spec_requeued(players: Seq<PlayerEntry>, parts: Seq<u64>) -> Seq<u64>
    decreases parts.len(),
{
    if parts.len() == 0 {
        Seq::empty()
    } else {
        let rest = spec_requeued(players, parts.drop_last());
        if spec_present(players, parts.last()) {
            rest.push(parts.last())
        } else {
            rest
        }
    }
}

/// Whoever the end of a game puts back in the queue was a participant.
proof fn lemma_requeued_subset(players: Seq<PlayerEntry>, parts: Seq<u64>, x: u64)
    requires
        spec_requeued(players, parts).contains(x),
    ensures
        parts.contains(x),
    decreases parts.len(),
{
    if parts.len() > 0 {
        if spec_requeued(players, parts) == spec_requeued(players, parts.drop_last()).push(
            parts.last(),
        ) {
            if x == parts.last() {
                assert(parts.contains(x)) by {
                    assert(parts[parts.len() - 1] == x);
                }
            } else {
                assert(spec_requeued(players, parts.drop_last()).contains(x)) by {
                    let r = spec_requeued(players, parts.drop_last());
                    let i = choose|i: int|
                        0 <= i < r.push(parts.last()).len() && r.push(parts.last())[i] == x;
                    assert(r[i] == x);
                }
                lemma_requeued_subset(players, parts.drop_last(), x);
                assert(parts.drop_last().contains(x));
                let i = choose|i: int|
                    0 <= i < parts.drop_last().len() && parts.drop_last()[i] == x;
                assert(parts[i] == x);
            }
        } else {
            lemma_requeued_subset(players, parts.drop_last(), x);
            let i = choose|i: int| 0 <= i < parts.drop_last().len() && parts.drop_last()[i] == x;
            assert(parts[i] == x);
        }
    }
}

/// A participant held at their team's spawn during the countdown: the same
/// player, sent to that spawn on the game's arena.
pub open spec fn spec_locked(po: PlayerEntry, map: usize) -> PlayerEntry {
    PlayerEntry { loc: Location::TeamSpawn { map, team: po.gamestate.team }, ..po }
}

/// The stage events one driver pass over these games fires: one per game
/// whose stage advances, in game order, carrying the new stage.
pub open spec fn spec_stage_events(games: Seq<GameEntry>, now: u64) -> Seq<GameStageEvent>
    decreases games.len(),
{
    if games.len() == 0 {
        Seq::empty()
    } else {
        let rest = spec_stage_events(games.drop_last(), now);
        let e = games.last();
        let stepped = spec_stage_step(e.game.stage, spec_elapsed(now, e.game.created_at));
        if stepped != e.game.stage {
            rest.push(GameStageEvent { game_id: e.id, stage: stepped })
        } else {
            rest
        }
    }
}

/// The ids of the players in this run whose game reference equals `game`,
/// in record order: who hears a chat message sent from that game (or, with
/// no game, from the lobby).
pub open spec fn spec_same_game_ids(players: Seq<PlayerEntry>, game: Option<u64>) -> Seq<u64>
    decreases players.len(),
{
    if players.len() == 0 {
        Seq::empty()
    } else {
        let rest = spec_same_game_ids(players.drop_last(), game);
        if players.last().gamestate.game_id == game {
            rest.push(players.last().id)
        } else {
            rest
        }
    }
}

/// How a player's record changes when they respawn inside their running
/// game: back to their team's spawn on its arena with full health, their
/// inventory replaced by the given loadout, and the kill credit consumed.
/// Everything else about them is kept.
pub open spec fn spec_respawned(
    po: PlayerEntry,
    pp: PlayerEntry,
    map: usize,
    items: Seq<ItemStack>,
) -> bool {
    &&& pp.id == po.id
    &&& pp.gamestate == po.gamestate
    &&& pp.combat.last_attacked_tick == po.combat.last_attacked_tick
    &&& pp.combat.has_bonus_knockback == po.combat.has_bonus_knockback
    &&& pp.combat.last_attacker is None
    &&& pp.item_use == po.item_use
    &&& pp.layer == po.layer
    &&& pp.loc == (Location::TeamSpawn { map, team: po.gamestate.team })
    &&& pp.health == MAX_HEALTH
    &&& pp.inventory@ == items
}

/// A win counter one higher, capped at its type's ceiling.
pub open spec fn spec_incr_wins(w: u32) -> u32 {
    if w < u32::MAX {
        (w + 1) as u32
    } else {
        w
    }
}

/// How a participant's record changes when their game ends: back to the
/// lobby layer and spawn with full health, inventory cleared, out of the
/// game and on the default team again, and one more win unless their team
/// lost. Everything else about them is kept.
pub open spec fn spec_returned(po: PlayerEntry, pp: PlayerEntry, loser: u8, lobby: u64) -> bool {
    &&& pp.id == po.id
    &&& pp.gamestate.game_id is None
    &&& pp.gamestate.team == 0
    &&& pp.gamestate.wins == if po.gamestate.team != loser {
        spec_incr_wins(po.gamestate.wins)
    } else {
        po.gamestate.wins
    }
    &&& pp.combat == po.combat
    &&& pp.item_use == po.item_use
    &&& pp.layer == lobby
    &&& pp.loc == Location::LobbySpawn
    &&& pp.health == MAX_HEALTH
    &&& pp.inventory@.len() == 0
}

/// Everyone taking part in a run of game records, counted with multiplicity.
pub open spec fn spec_participants(games: Seq<GameEntry>) -> Multiset<u64>
    decreases games.len(),
{
    if games.len() == 0 {
        Multiset::empty()
    } else {
        spec_participants(games.drop_last()).add(games.last().game.players@.to_multiset())
    }
}

/// A running game and the handle it is registered under.
#[derive(Debug)]
pub struct GameEntry {
    pub id: u64,
    pub game: Game,
}

/// What one melee hit came to: whether it landed, whether the attacker's
/// sprint bonus applies to its knockback, and the end of the game where the
/// hit exhausted the victim's health.
#[derive(Clone, Copy, PartialEq, Eq, Structural, Debug)]
pub struct AttackOutcome {
    pub landed: bool,
    pub bonus_knockback: bool,
    pub end: Option<EndGameEvent>,
}

/// All state the match systems own: world-layer handles (the first is the
/// lobby, the rest are arenas), the waiting queue, the connected players and
/// the running games. `next_handle` mints fresh handles for players, games
/// and per-game layers.
#[derive(Debug)]
pub struct Server {
    pub map_layers: Vec<u64>,
    pub queue: Vec<u64>,
    pub players: Vec<PlayerEntry>,
    pub games: Vec<GameEntry>,
    pub num_teams: u8,
    pub next_handle: u64,
}

impl Server {
    /// The world-layer every player outside a match lives on.
    pub open spec fn spec_lobby_layer(self) -> u64 {
        self.map_layers@[0]
    }

    /// Some connected player carries this id.
    pub open spec fn spec_has_player(self, id: u64) -> bool {
        exists|i: int| 0 <= i < self.players@.len() && (#[trigger] self.players@[i]).id == id
    }

    /// Some running game is registered under this id.
    pub open spec fn spec_has_game(self, id: u64) -> bool {
        exists|i: int| 0 <= i < self.games@.len() && (#[trigger] self.games@[i]).id == id
    }

    /// Index of the connected player carrying this id; meaningful only when
    /// `spec_has_player` holds (with `wf` it is then unique).
    pub open spec fn spec_player_index(self, id: u64) -> int {
        choose|i: int| 0 <= i < self.players@.len() && (#[trigger] self.players@[i]).id == id
    }

    /// The connected player carrying this id; meaningful only when
    /// `spec_has_player` holds.
    pub open spec fn spec_player(self, id: u64) -> PlayerEntry {
        self.players@[self.spec_player_index(id)]
    }

    /// Index of the game registered under this id; meaningful only when
    /// `spec_has_game` holds (with `wf` it is then unique).
    pub open spec fn spec_game_index(self, id: u64) -> int {
        choose|i: int| 0 <= i < self.games@.len() && (#[trigger] self.games@[i]).id == id
    }

    /// The game registered under this id; meaningful only when
    /// `spec_has_game` holds.
    pub open spec fn spec_game(self, id: u64) -> Game {
        self.games@[self.spec_game_index(id)].game
    }

    /// Index of this id in the queue; meaningful only when the queue
    /// contains it (with `wf` it is then unique).
    pub open spec fn spec_queue_index(self, id: u64) -> int {
        choose|i: int| 0 <= i < self.queue@.len() && self.queue@[i] == id
    }

    /// A player's team only means something inside a game: it then names one
    /// of the configured teams; outside a game it is the default team.
    pub open spec fn spec_team_valid(self, p: PlayerEntry) -> bool {
        &&& p.gamestate.game_id is Some ==> p.gamestate.team < self.num_teams
        &&& p.gamestate.game_id is None ==> p.gamestate.team == 0
    }

    /// The queue holds each waiting player once, and only minted handles.
    pub open spec fn spec_queue_wf(self) -> bool {
        &&& self.queue@.no_duplicates()
        &&& forall|i: int|
            0 <= i < self.queue@.len() ==> #[trigger] self.queue@[i] < self.next_handle
    }

    /// Player records carry distinct minted ids and valid teams.
    pub open spec fn spec_players_wf(self) -> bool {
        &&& forall|i: int, j: int|
            0 <= i < j < self.players@.len() ==> (#[trigger] self.players@[i]).id != (
            #[trigger] self.players@[j]).id
        &&& forall|i: int|
            0 <= i < self.players@.len() ==> (#[trigger] self.players@[i]).id < self.next_handle
        &&& forall|i: int|
            0 <= i < self.players@.len() ==> self.spec_team_valid(#[trigger] self.players@[i])
    }

    /// One game record is sound on its own: a minted id, a stage in range, a
    /// real arena index, and a duplicate-free participant list of minted ids.
    pub open spec fn spec_game_wf(self, e: GameEntry) -> bool {
        &&& e.id < self.next_handle
        &&& e.game.stage <= STAGE_ENDING
        &&& e.game.map < self.map_layers@.len()
        &&& e.game.players@.no_duplicates()
        &&& forall|k: int|
            0 <= k < e.game.players@.len() ==> #[trigger] e.game.players@[k] < self.next_handle
    }

    /// Game records carry distinct ids and are each sound.
    pub open spec fn spec_games_wf(self) -> bool {
        &&& forall|i: int, j: int|
            0 <= i < j < self.games@.len() ==> (#[trigger] self.games@[i]).id != (
            #[trigger] self.games@[j]).id
        &&& forall|i: int|
            0 <= i < self.games@.len() ==> self.spec_game_wf(#[trigger] self.games@[i])
    }

    /// World-layer handles are minted and never shared: the fixed map layers
    /// and every game's own layer are all below the mint counter, no two
    /// games share a layer, and no game runs on one of the fixed map layers.
    pub open spec fn spec_layers_wf(self) -> bool {
        &&& forall|i: int|
            0 <= i < self.map_layers@.len() ==> #[trigger] self.map_layers@[i] < self.next_handle
        &&& forall|g: int|
            0 <= g < self.games@.len() ==> (#[trigger] self.games@[g]).game.layer
                < self.next_handle
        &&& forall|g1: int, g2: int|
            0 <= g1 < g2 < self.games@.len() ==> (#[trigger] self.games@[g1]).game.layer != (
            #[trigger] self.games@[g2]).game.layer
        &&& forall|g: int, i: int|
            0 <= g < self.games@.len() && 0 <= i < self.map_layers@.len() ==> (
            #[trigger] self.games@[g]).game.layer != (#[trigger] self.map_layers@[i])
    }

    /// Nobody waits in the queue while listed in a game, and no two games
    /// share a participant.
    pub open spec fn spec_disjoint_wf(self) -> bool {
        &&& forall|q: int, g: int, k: int|
            0 <= q < self.queue@.len() && 0 <= g < self.games@.len() && 0 <= k
                < self.games@[g].game.players@.len() ==> (#[trigger] self.queue@[q]) != (
            #[trigger] self.games@[g].game.players@[k])
        &&& forall|g1: int, k1: int, g2: int, k2: int|
            0 <= g1 < self.games@.len() && 0 <= g2 < self.games@.len() && g1 != g2 && 0 <= k1
                < self.games@[g1].game.players@.len() && 0 <= k2
                < self.games@[g2].game.players@.len() ==> (
            #[trigger] self.games@[g1].game.players@[k1]) != (
            #[trigger] self.games@[g2].game.players@[k2])
    }

    /// The standing invariant of the match state, established by the
    /// constructor and kept by every system.
    pub open spec fn wf(self) -> bool {
        &&& self.num_teams >= 1
        &&& self.map_layers@.len() >= 2
        &&& self.spec_queue_wf()
        &&& self.spec_players_wf()
        &&& self.spec_games_wf()
        &&& self.spec_layers_wf()
        &&& self.spec_disjoint_wf()
    }

    /// Set up a server with the given number of world layers (the lobby plus
    /// at least one arena) and teams per game: empty queue, nobody connected,
    /// no games running.
    pub fn new(num_maps: usize, num_teams: u8) -> (s: Server)
        requires
            num_maps >= 2,
            num_teams >= 1,
        ensures
            s.wf(),
            s.map_layers@.len() == num_maps,
            forall|j: int| 0 <= j < num_maps ==> #[trigger] s.map_layers@[j] == j,
            s.queue@.len() == 0,
            s.players@.len() == 0,
            s.games@.len() == 0,
            s.num_teams == num_teams,
            s.next_handle == num_maps,
    {
        let mut map_layers: Vec<u64> = Vec::new();
        let mut i: usize = 0;
        while i < num_maps
            invariant
                i <= num_maps,
                map_layers@.len() == i,
                forall|j: int| 0 <= j < i ==> #[trigger] map_layers@[j] == j,
            decreases num_maps - i,
        {
            map_layers.push(i as u64);
            i = i + 1;
        }
        Server {
            map_layers,
            queue: Vec::new(),
            players: Vec::new(),
            games: Vec::new(),
            num_teams,
            next_handle: num_maps as u64,
        }
    }

    /// A newly connected client: mint its handle, give it a fresh record on
    /// the lobby layer, and put it at the back of the queue.
    pub fn init_client(&mut self) -> (id: u64)
        requires
            old(self).wf(),
            old(self).next_handle < u64::MAX,
        ensures
            final(self).wf(),
            id == old(self).next_handle,
            !old(self).spec_has_player(id),
            final(self).players@.len() == old(self).players@.len() + 1,
            final(self).players@.drop_last() == old(self).players@,
            final(self).players@.last().spec_fresh(id, old(self).spec_lobby_layer()),
            final(self).queue@ == old(self).queue@.push(id),
            final(self).games == old(self).games,
            final(self).map_layers == old(self).map_layers,
            final(self).num_teams == old(self).num_teams,
            final(self).next_handle == old(self).next_handle + 1,
    {
        let id = self.next_handle;
        self.next_handle = self.next_handle + 1;
        let lobby = self.map_layers[0];
        self.players.push(PlayerEntry::fresh(id, lobby));
        self.queue.push(id);
        proof {
            assert(!old(self).queue@.contains(id));
            assert(self.queue@.drop_last() == old(self).queue@);
            assert(self.queue@.no_duplicates());
            assert(self.players@.drop_last() == old(self).players@);
        }
        id
    }

    /// One matchmaking pass, run once per tick: with at least two players
    /// waiting, shuffle the queue and pair it off into fresh games until at
    /// most one player is left over, firing one start event per game formed.
    /// With fewer than two waiting this is a no-op.
    pub fn check_queue(&mut self, now: u64) -> (events: Vec<StartGameEvent>)
        requires
            old(self).wf(),
            old(self).next_handle + old(self).queue@.len() <= u64::MAX,
        ensures
            final(self).wf(),
            final(self).players == old(self).players,
            final(self).map_layers == old(self).map_layers,
            final(self).num_teams == old(self).num_teams,
            old(self).queue@.len() < 2 ==> *final(self) == *old(self) && events@.len() == 0,
            old(self).queue@.len() >= 2 ==> {
                &&& events@.len() == old(self).queue@.len() / 2
                &&& final(self).queue@.len() == old(self).queue@.len() % 2
            },
            final(self).next_handle == old(self).next_handle + 2 * events@.len(),
            final(self).games@.len() == old(self).games@.len() + events@.len(),
            final(self).games@.take(old(self).games@.len() as int) == old(self).games@,
            forall|i: int|
                old(self).games@.len() <= i < final(self).games@.len() ==> {
                    let e = #[trigger] final(self).games@[i];
                    &&& e.game.stage == 0
                    &&& e.game.created_at == now
                    &&& e.game.map == 0
                    &&& e.game.players@.len() == 2
                    &&& e.game.data@ == Map::<usize, DataValue>::empty()
                    &&& e.id == old(self).next_handle + 2 * (i - old(self).games@.len())
                    &&& e.game.layer == e.id + 1
                    &&& events@[i - old(self).games@.len()] == StartGameEvent(e.id)
                },
            old(self).queue@.to_multiset() == final(self).queue@.to_multiset().add(
                spec_participants(final(self).games@.skip(old(self).games@.len() as int)),
            ),
    {
        broadcast use vstd::seq_lib::group_to_multiset_ensures;
        broadcast use vstd::multiset::group_multiset_axioms;

        let ghost orig = *self;
        let ghost orig_games_len = self.games@.len() as int;
        if self.queue.len() < 2 {
            proof {
                assert(self.games@.take(orig_games_len) =~= self.games@);
                assert(self.games@.skip(orig_games_len) =~= Seq::<GameEntry>::empty());
                assert(orig.queue@.to_multiset() =~= self.queue@.to_multiset().add(
                    spec_participants(self.games@.skip(orig_games_len)),
                ));
            }
            return Vec::new();
        }
        shuffle_ids(&mut self.queue);
        proof {
            orig.queue@.lemma_multiset_has_no_duplicates();
            self.queue@.lemma_multiset_has_no_duplicates_conv();
            assert forall|i: int| 0 <= i < self.queue@.len() implies (#[trigger] self.queue@[i])
                < self.next_handle by {
                let x = self.queue@[i];
                assert(self.queue@.contains(x));
                assert(self.queue@.to_multiset().count(x) > 0);
                assert(orig.queue@.to_multiset().count(x) > 0);
                assert(orig.queue@.contains(x));
                let j = choose|j: int| 0 <= j < orig.queue@.len() && orig.queue@[j] == x;
                assert(orig.queue@[j] < orig.next_handle);
            }
            assert forall|q: int, g: int, k: int|
                0 <= q < self.queue@.len() && 0 <= g < self.games@.len() && 0 <= k
                    < self.games@[g].game.players@.len() implies (#[trigger] self.queue@[q]) != (
            #[trigger] self.games@[g].game.players@[k]) by {
                let x = self.queue@[q];
                assert(self.queue@.contains(x));
                assert(self.queue@.to_multiset().count(x) > 0);
                assert(orig.queue@.to_multiset().count(x) > 0);
                assert(orig.queue@.contains(x));
                let j = choose|j: int| 0 <= j < orig.queue@.len() && orig.queue@[j] == x;
                assert(orig.queue@[j] != orig.games@[g].game.players@[k]);
            }
        }
        let ghost shuffled = self.queue@;
        let mut events: Vec<StartGameEvent> = Vec::new();
        proof {
            assert(self.games@.skip(orig_games_len) =~= Seq::<GameEntry>::empty());
        }
        while self.queue.len() > 1
            invariant
                self.wf(),
                self.players == orig.players,
                self.map_layers == orig.map_layers,
                self.num_teams == orig.num_teams,
                self.queue@.len() + 2 * events@.len() == shuffled.len(),
                self.next_handle == orig.next_handle + 2 * events@.len(),
                orig.next_handle + shuffled.len() <= u64::MAX,
                0 <= orig_games_len,
                self.games@.len() == orig_games_len + events@.len(),
                self.games@.take(orig_games_len) == orig.games@,
                forall|i: int|
                    orig_games_len <= i < self.games@.len() ==> {
                        let e = #[trigger] self.games@[i];
                        &&& e.game.stage == 0
                        &&& e.game.created_at == now
                        &&& e.game.map == 0
                        &&& e.game.players@.len() == 2
                        &&& e.game.data@ == Map::<usize, DataValue>::empty()
                        &&& e.id == orig.next_handle + 2 * (i - orig_games_len)
                        &&& e.game.layer == e.id + 1
                        &&& events@[i - orig_games_len] == StartGameEvent(e.id)
                    },
                shuffled.to_multiset() == self.queue@.to_multiset().add(
                    spec_participants(self.games@.skip(orig_games_len)),
                ),
            decreases self.queue@.len(),
        {
            broadcast use vstd::seq_lib::group_to_multiset_ensures;
            broadcast use vstd::multiset::group_multiset_axioms;

            let ghost pre = *self;
            let a = self.queue.remove(0);
            let b = self.queue.remove(0);
            let gid = self.next_handle;
            let glayer = self.next_handle + 1;
            self.next_handle = self.next_handle + 2;
            let mut ps: Vec<u64> = Vec::new();
            ps.push(a);
            ps.push(b);
            let entry = GameEntry {
                id: gid,
                game: Game {
                    map: 0,
                    layer: glayer,
                    players: ps,
                    created_at: now,
                    stage: 0,
                    data: HashMap::new(),
                },
            };
            self.games.push(entry);
            events.push(StartGameEvent(gid));
            proof {
                let q0 = pre.queue@;
                let q2 = self.queue@;
                assert(a == q0[0] && b == q0[1]);
                assert(a != b);
                // the two drained entries leave the queue's multiset
                assert(q0.remove(0).to_multiset() == q0.to_multiset().remove(a));
                assert(q2.to_multiset() == q0.remove(0).to_multiset().remove(b)) by {
                    assert(q0.remove(0)[0] == b);
                }
                // the new game record holds exactly those two
                let pseq = Seq::<u64>::empty().push(a).push(b);
                assert(entry.game.players@ =~= pseq);
                assert(pseq.to_multiset() =~= Multiset::empty().insert(a).insert(b));
                // the run of new games grows by that record
                assert(self.games@ == pre.games@.push(entry));
                assert(0 <= orig_games_len <= pre.games@.len());
                assert(self.games@.len() == pre.games@.len() + 1);
                let news_pre = pre.games@.skip(orig_games_len);
                let news = self.games@.skip(orig_games_len);
                assert(news_pre.len() == pre.games@.len() - orig_games_len);
                assert(news.len() == self.games@.len() - orig_games_len);
                assert(news.len() == news_pre.len() + 1);
                assert forall|i: int| 0 <= i < news.len() implies news[i] == news_pre.push(
                    entry,
                )[i] by {
                    assert(news[i] == self.games@[orig_games_len + i]);
                    if i < news_pre.len() {
                        assert(news_pre[i] == pre.games@[orig_games_len + i]);
                    }
                }
                assert(news =~= news_pre.push(entry));
                assert(news.drop_last() =~= news_pre);
                assert(spec_participants(news) == spec_participants(news_pre).add(
                    pseq.to_multiset(),
                ));
                assert(shuffled.to_multiset() =~= q2.to_multiset().add(spec_participants(news)));
                // the books carried over: old games untouched, counts in step
                assert forall|i: int| 0 <= i < orig_games_len implies self.games@.take(
                    orig_games_len,
                )[i] == pre.games@.take(orig_games_len)[i] by {
                    assert(self.games@[i] == pre.games@[i]);
                }
                assert(self.games@.take(orig_games_len) =~= pre.games@.take(orig_games_len));
                // the remaining queue and the new record stay well formed
                assert(q2.no_duplicates()) by {
                    assert(forall|i: int| 0 <= i < q2.len() ==> q2[i] == q0[i + 2]);
                }
                assert(entry.game.players@.no_duplicates());
                assert(self.wf()) by {
                    assert(forall|i: int| 0 <= i < q2.len() ==> q2[i] == q0[i + 2]);
                    assert(forall|i: int|
                        0 <= i < pre.games@.len() ==> self.games@[i] == pre.games@[i]);
                }
            }
        }
        proof {
            assert(shuffled.len() >= 2);
            assert(self.queue@.len() == shuffled.len() % 2 && events@.len() == shuffled.len()
                / 2) by {
                assert(self.queue@.len() <= 1);
                assert(self.queue@.len() + 2 * events@.len() == shuffled.len());
            }
        }
        events
    }

    /// Where this id sits in the queue, if it is waiting at all.
    fn find_queue_index(&self, id: u64) -> (r: Option<usize>)
        ensures
            r is Some ==> r->0 < self.queue@.len() && self.queue@[r->0 as int] == id
                && self.queue@.contains(id),
            r is None ==> !self.queue@.contains(id),
    {
        let n = self.queue.len();
        let mut i: usize = 0;
        while i < n
            invariant
                n == self.queue@.len(),
                i <= n,
                forall|j: int| 0 <= j < i ==> self.queue@[j] != id,
            decreases n - i,
        {
            if self.queue[i] == id {
                return Some(i);
            }
            i = i + 1;
        }
        None
    }

    /// Where this id's player record sits, if the player is connected.
    fn find_player_index(&self, id: u64) -> (r: Option<usize>)
        ensures
            r is Some ==> r->0 < self.players@.len() && self.players@[r->0 as int].id == id
                && self.spec_has_player(id),
            r is None ==> !self.spec_has_player(id),
    {
        let n = self.players.len();
        let mut i: usize = 0;
        while i < n
            invariant
                n == self.players@.len(),
                i <= n,
                forall|j: int| 0 <= j < i ==> (#[trigger] self.players@[j]).id != id,
            decreases n - i,
        {
            if self.players[i].id == id {
                return Some(i);
            }
            i = i + 1;
        }
        None
    }

    /// Where this id's game record sits, if such a game runs.
    fn find_game_index(&self, id: u64) -> (r: Option<usize>)
        ensures
            r is Some ==> r->0 < self.games@.len() && self.games@[r->0 as int].id == id
                && self.spec_has_game(id),
            r is None ==> !self.spec_has_game(id),
    {
        let n = self.games.len();
        let mut i: usize = 0;
        while i < n
            invariant
                n == self.games@.len(),
                i <= n,
                forall|j: int| 0 <= j < i ==> (#[trigger] self.games@[j]).id != id,
            decreases n - i,
        {
            if self.games[i].id == id {
                return Some(i);
            }
            i = i + 1;
        }
        None
    }

    /// Act on a start event: draw one of the arena maps for the game, zero a
    /// score slot in its data map for each team, and move each participant
    /// onto the game's layer with the team their position in the participant
    /// list gives them, locked to that team's spawn. A participant who is no
    /// longer connected is skipped; an event naming no running game does
    /// nothing.
    pub fn start_game(&mut self, ev: &StartGameEvent)
        requires
            old(self).wf(),
        ensures
            final(self).wf(),
            final(self).queue == old(self).queue,
            final(self).map_layers == old(self).map_layers,
            final(self).num_teams == old(self).num_teams,
            final(self).next_handle == old(self).next_handle,
            !old(self).spec_has_game(ev.0) ==> *final(self) == *old(self),
            old(self).spec_has_game(ev.0) ==> {
                let gi = old(self).spec_game_index(ev.0);
                let g_old = old(self).games@[gi].game;
                let g_new = final(self).games@[gi].game;
                &&& final(self).games@.len() == old(self).games@.len()
                &&& forall|j: int|
                    0 <= j < old(self).games@.len() && j != gi ==> final(self).games@[j] == old(
                        self,
                    ).games@[j]
                &&& final(self).games@[gi].id == ev.0
                &&& 1 <= g_new.map < old(self).map_layers@.len()
                &&& g_new.layer == g_old.layer
                &&& g_new.players@ == g_old.players@
                &&& g_new.created_at == g_old.created_at
                &&& g_new.stage == g_old.stage
                &&& g_new.data@ == spec_with_zero_scores(g_old.data@, old(self).num_teams as int)
                &&& final(self).players@.len() == old(self).players@.len()
                &&& forall|p: int|
                    0 <= p < old(self).players@.len() && !g_old.players@.contains(
                        (#[trigger] old(self).players@[p]).id,
                    ) ==> final(self).players@[p] == old(self).players@[p]
                &&& forall|p: int, k: int|
                    0 <= p < old(self).players@.len() && 0 <= k < g_old.players@.len() && (
                    #[trigger] old(self).players@[p]).id == (
                    #[trigger] g_old.players@[k]) ==> spec_joined(
                        old(self).players@[p],
                        final(self).players@[p],
                        ev.0,
                        g_old.layer,
                        g_new.map,
                        k,
                        old(self).num_teams,
                    )
            },
    {
        let ghost orig = *self;
        let gidx = match self.find_game_index(ev.0) {
            Some(g) => g,
            None => {
                return ;
            },
        };
        proof {
            assert(orig.spec_game_index(ev.0) == gidx as int) by {
                let j = orig.spec_game_index(ev.0);
                assert(0 <= j < orig.games@.len() && orig.games@[j].id == ev.0);
            }
        }
        let map_idx = random_index(1, self.map_layers.len());
        {
            let ge = &mut self.games[gidx];
            ge.game.map = map_idx;
        }
        proof {
            assert(self.games@ =~= orig.games@.update(
                gidx as int,
                GameEntry {
                    id: ev.0,
                    game: Game { map: map_idx, ..orig.games@[gidx as int].game },
                },
            ));
        }
        let teams = self.num_teams;
        let mut t: u8 = 0;
        while t < teams
            invariant
                self.wf(),
                0 <= gidx < self.games@.len(),
                self.games@.len() == orig.games@.len(),
                forall|j: int|
                    0 <= j < orig.games@.len() && j != gidx ==> self.games@[j] == orig.games@[j],
                self.games@[gidx as int].id == ev.0,
                self.games@[gidx as int].game.players == orig.games@[gidx as int].game.players,
                self.games@[gidx as int].game.map == map_idx,
                self.games@[gidx as int].game.layer == orig.games@[gidx as int].game.layer,
                self.games@[gidx as int].game.created_at == orig.games@[gidx as int].game.created_at,
                self.games@[gidx as int].game.stage == orig.games@[gidx as int].game.stage,
                self.games@[gidx as int].game.data@ == spec_with_zero_scores(
                    orig.games@[gidx as int].game.data@,
                    t as int,
                ),
                t <= teams,
                teams == orig.num_teams,
                self.queue == orig.queue,
                self.players == orig.players,
                self.map_layers == orig.map_layers,
                self.num_teams == orig.num_teams,
                self.next_handle == orig.next_handle,
            decreases teams - t,
        {
            broadcast use vstd::std_specs::hash::group_hash_axioms;

            let ghost pre = *self;
            let ge = &mut self.games[gidx];
            ge.game.data.insert(t as usize, DataValue::Int(0));
            t = t + 1;
            proof {
                assert(forall|j: int|
                    0 <= j < pre.games@.len() && j != gidx ==> self.games@[j] == pre.games@[j]);
                assert(self.games@[gidx as int].game.players == pre.games@[gidx as int].game.players);
            }
        }
        let gid = ev.0;
        let glayer = self.games[gidx].game.layer;
        let n = self.games[gidx].game.players.len();
        let ghost parts = orig.games@[gidx as int].game.players@;
        let mut k: usize = 0;
        while k < n
            invariant
                self.wf(),
                0 <= gidx < self.games@.len(),
                self.games@.len() == orig.games@.len(),
                forall|j: int|
                    0 <= j < orig.games@.len() && j != gidx ==> self.games@[j] == orig.games@[j],
                self.games@[gidx as int].id == gid,
                self.games@[gidx as int].game.players@ == parts,
                1 <= self.games@[gidx as int].game.map < self.map_layers@.len(),
                self.games@[gidx as int].game.layer == glayer,
                self.games@[gidx as int].game.created_at == orig.games@[gidx as int].game.created_at,
                self.games@[gidx as int].game.stage == orig.games@[gidx as int].game.stage,
                self.games@[gidx as int].game.data@ == spec_with_zero_scores(
                    orig.games@[gidx as int].game.data@,
                    orig.num_teams as int,
                ),
                n == parts.len(),
                k <= n,
                self.queue == orig.queue,
                self.map_layers == orig.map_layers,
                self.num_teams == orig.num_teams,
                self.next_handle == orig.next_handle,
                self.players@.len() == orig.players@.len(),
                forall|p: int|
                    0 <= p < orig.players@.len() ==> (#[trigger] self.players@[p]).id
                        == orig.players@[p].id,
                forall|p: int|
                    0 <= p < orig.players@.len() && !parts.take(k as int).contains(
                        (#[trigger] orig.players@[p]).id,
                    ) ==> self.players@[p] == orig.players@[p],
                forall|p: int, j: int|
                    0 <= p < orig.players@.len() && 0 <= j < k && (#[trigger] orig.players@[p]).id
                        == (#[trigger] parts[j]) ==> spec_joined(
                        orig.players@[p],
                        self.players@[p],
                        gid,
                        glayer,
                        self.games@[gidx as int].game.map,
                        j,
                        orig.num_teams,
                    ),
            decreases n - k,
        {
            let ghost pre = *self;
            let pid = self.games[gidx].game.players[k];
            let team: u8 = (k % (self.num_teams as usize)) as u8;
            match self.find_player_index(pid) {
                Some(p) => {
                    let map_now = self.games[gidx].game.map;
                    let pl = &mut self.players[p];
                    pl.gamestate.game_id = Some(gid);
                    pl.gamestate.team = team;
                    pl.layer = glayer;
                    pl.loc = Location::TeamSpawn { map: map_now, team };
                    proof {
                        assert(forall|q: int|
                            0 <= q < self.players@.len() && q != p ==> self.players@[q]
                                == pre.players@[q]);
                        assert(parts.take(k as int + 1) =~= parts.take(k as int).push(parts[k as int]));
                        assert(orig.players@[p as int].id == parts[k as int]);
                        assert forall|q: int|
                            0 <= q < orig.players@.len() && !parts.take(k as int + 1).contains(
                                (#[trigger] orig.players@[q]).id,
                            ) implies self.players@[q] == orig.players@[q] by {
                            assert(!parts.take(k as int).contains(orig.players@[q].id));
                            assert(parts.take(k as int + 1)[k as int] == parts[k as int]);
                            assert(orig.players@[q].id != parts[k as int]);
                            assert(q != p as int);
                        }
                        assert forall|q: int, j: int|
                            0 <= q < orig.players@.len() && 0 <= j < k + 1 && (
                            #[trigger] orig.players@[q]).id == (
                            #[trigger] parts[j]) implies spec_joined(
                            orig.players@[q],
                            self.players@[q],
                            gid,
                            glayer,
                            self.games@[gidx as int].game.map,
                            j,
                            orig.num_teams,
                        ) by {
                            if j == k as int {
                                assert(q == p as int);
                            } else {
                                assert(q != p as int) by {
                                    assert(parts[j] != parts[k as int]);
                                }
                            }
                        }
                    }
                },
                None => {
                    proof {
                        assert(parts.take(k as int + 1) =~= parts.take(k as int).push(parts[k as int]));
                        assert forall|q: int|
                            0 <= q < orig.players@.len() && !parts.take(k as int + 1).contains(
                                (#[trigger] orig.players@[q]).id,
                            ) implies self.players@[q] == orig.players@[q] by {
                            assert(!parts.take(k as int).contains(orig.players@[q].id));
                        }
                    }
                },
            }
            k = k + 1;
        }
        proof {
            assert(parts.take(n as int) =~= parts);
        }
    }

    /// Act on an end event: every participant still connected goes back to
    /// the lobby layer and spawn with full health and a cleared inventory,
    /// leaves the game and rejoins the queue, and everyone but the losing
    /// team gains a win. The game record itself is destroyed. A participant
    /// who is no longer connected is skipped; an event naming no running
    /// game does nothing.
    pub fn end_game(&mut self, ev: &EndGameEvent)
        requires
            old(self).wf(),
        ensures
            final(self).wf(),
            final(self).map_layers == old(self).map_layers,
            final(self).num_teams == old(self).num_teams,
            final(self).next_handle == old(self).next_handle,
            !old(self).spec_has_game(ev.game_id) ==> *final(self) == *old(self),
            old(self).spec_has_game(ev.game_id) ==> {
                let gi = old(self).spec_game_index(ev.game_id);
                let g = old(self).games@[gi].game;
                &&& final(self).games@ == old(self).games@.remove(gi)
                &&& final(self).players@.len() == old(self).players@.len()
                &&& forall|p: int|
                    0 <= p < old(self).players@.len() && !g.players@.contains(
                        (#[trigger] old(self).players@[p]).id,
                    ) ==> final(self).players@[p] == old(self).players@[p]
                &&& forall|p: int|
                    0 <= p < old(self).players@.len() && g.players@.contains(
                        (#[trigger] old(self).players@[p]).id,
                    ) ==> spec_returned(
                        old(self).players@[p],
                        final(self).players@[p],
                        ev.loser,
                        old(self).spec_lobby_layer(),
                    )
                &&& final(self).queue@ == old(self).queue@ + spec_requeued(
                    old(self).players@,
                    g.players@,
                )
            },
    {
        let ghost orig = *self;
        let gidx = match self.find_game_index(ev.game_id) {
            Some(g) => g,
            None => {
                return ;
            },
        };
        proof {
            assert(orig.spec_game_index(ev.game_id) == gidx as int) by {
                let j = orig.spec_game_index(ev.game_id);
                assert(0 <= j < orig.games@.len() && orig.games@[j].id == ev.game_id);
            }
        }
        let entry = self.games.remove(gidx);
        let ghost parts = entry.game.players@;
        let lobby = self.map_layers[0];
        let loser = ev.loser;
        proof {
            assert(forall|a: int|
                0 <= a < self.games@.len() ==> #[trigger] self.games@[a] == if a < gidx as int {
                    orig.games@[a]
                } else {
                    orig.games@[a + 1]
                });
            assert(self.wf());
            assert(parts == orig.games@[gidx as int].game.players@);
            assert(orig.spec_game_wf(orig.games@[gidx as int]));
            assert forall|j: int| 0 <= j < parts.len() implies !orig.queue@.contains(
                #[trigger] parts[j],
            ) by {
                if orig.queue@.contains(parts[j]) {
                    let q = choose|q: int| 0 <= q < orig.queue@.len() && orig.queue@[q] == parts[j];
                    assert(orig.queue@[q] != orig.games@[gidx as int].game.players@[j]);
                }
            }
            assert forall|j: int, g: int, c: int|
                0 <= j < parts.len() && 0 <= g < self.games@.len() && 0 <= c
                    < self.games@[g].game.players@.len() implies (#[trigger] parts[j]) != (
            #[trigger] self.games@[g].game.players@[c]) by {
                if g < gidx as int {
                    assert(self.games@[g] == orig.games@[g]);
                    assert(orig.games@[gidx as int].game.players@[j] != orig.games@[g].game.players@[c]);
                } else {
                    assert(self.games@[g] == orig.games@[g + 1]);
                    assert(orig.games@[gidx as int].game.players@[j] != orig.games@[g
                        + 1].game.players@[c]);
                }
            }
        }
        let n = entry.game.players.len();
        let mut k: usize = 0;
        while k < n
            invariant
                self.wf(),
                entry.game.players@ == parts,
                n == parts.len(),
                k <= n,
                parts.no_duplicates(),
                forall|j: int| 0 <= j < parts.len() ==> #[trigger] parts[j] < self.next_handle,
                forall|j: int| 0 <= j < parts.len() ==> !orig.queue@.contains(#[trigger] parts[j]),
                forall|j: int, g: int, c: int|
                    0 <= j < parts.len() && 0 <= g < self.games@.len() && 0 <= c
                        < self.games@[g].game.players@.len() ==> (#[trigger] parts[j]) != (
                    #[trigger] self.games@[g].game.players@[c]),
                0 <= gidx < orig.games@.len(),
                self.games@ == orig.games@.remove(gidx as int),
                self.map_layers == orig.map_layers,
                self.num_teams == orig.num_teams,
                self.next_handle == orig.next_handle,
                lobby == orig.spec_lobby_layer(),
                self.players@.len() == orig.players@.len(),
                forall|p: int|
                    0 <= p < orig.players@.len() ==> (#[trigger] self.players@[p]).id
                        == orig.players@[p].id,
                forall|p: int|
                    0 <= p < orig.players@.len() && !parts.take(k as int).contains(
                        (#[trigger] orig.players@[p]).id,
                    ) ==> self.players@[p] == orig.players@[p],
                forall|p: int, j: int|
                    0 <= p < orig.players@.len() && 0 <= j < k && (#[trigger] orig.players@[p]).id
                        == (#[trigger] parts[j]) ==> spec_returned(
                        orig.players@[p],
                        self.players@[p],
                        loser,
                        lobby,
                    ),
                self.queue@ == orig.queue@ + spec_requeued(orig.players@, parts.take(k as int)),
            decreases n - k,
        {
            let ghost pre = *self;
            let pid = entry.game.players[k];
            proof {
                assert(parts.take(k as int + 1).drop_last() =~= parts.take(k as int));
                assert(parts.take(k as int + 1).last() == parts[k as int]);
            }
            match self.find_player_index(pid) {
                Some(p) => {
                    {
                        let pl = &mut self.players[p];
                        pl.gamestate.game_id = None;
                        if pl.gamestate.team != loser {
                            if pl.gamestate.wins < u32::MAX {
                                pl.gamestate.wins = pl.gamestate.wins + 1;
                            }
                        }
                        pl.gamestate.team = 0;
                        pl.layer = lobby;
                        pl.loc = Location::LobbySpawn;
                        pl.health = MAX_HEALTH;
                        pl.inventory.clear();
                    }
                    self.queue.push(pid);
                    proof {
                        assert(spec_present(orig.players@, pid)) by {
                            assert(pre.players@[p as int].id == pid);
                            assert(orig.players@[p as int].id == pid);
                        }
                        assert(spec_requeued(orig.players@, parts.take(k as int + 1))
                            == spec_requeued(orig.players@, parts.take(k as int)).push(pid));
                        assert(self.queue@ =~= orig.queue@ + spec_requeued(
                            orig.players@,
                            parts.take(k as int + 1),
                        ));
                        assert(forall|q: int|
                            0 <= q < self.players@.len() && q != p ==> self.players@[q]
                                == pre.players@[q]);
                        assert(spec_returned(orig.players@[p as int], self.players@[p as int], loser, lobby));
                        assert forall|q: int, j: int|
                            0 <= q < orig.players@.len() && 0 <= j < k + 1 && (
                            #[trigger] orig.players@[q]).id == (
                            #[trigger] parts[j]) implies spec_returned(
                            orig.players@[q],
                            self.players@[q],
                            loser,
                            lobby,
                        ) by {
                            if j == k as int {
                                assert(q == p as int);
                            } else {
                                assert(q != p as int) by {
                                    assert(parts[j] != parts[k as int]);
                                }
                            }
                        }
                        assert forall|q: int|
                            0 <= q < orig.players@.len() && !parts.take(k as int + 1).contains(
                                (#[trigger] orig.players@[q]).id,
                            ) implies self.players@[q] == orig.players@[q] by {
                            assert(!parts.take(k as int).contains(orig.players@[q].id));
                            assert(parts.take(k as int + 1)[k as int] == parts[k as int]);
                            assert(orig.players@[q].id != parts[k as int]);
                            assert(q != p as int);
                        }
                        // the one new queue entry waits in no game and is not
                        // already waiting
                        assert(self.queue@.no_duplicates()) by {
                            assert(!pre.queue@.contains(pid)) by {
                                assert(!orig.queue@.contains(pid));
                                assert(!parts.take(k as int).contains(pid)) by {
                                    assert(forall|j: int|
                                        0 <= j < k ==> parts.take(k as int)[j] == #[trigger] parts[j]);
                                }
                                if spec_requeued(orig.players@, parts.take(k as int)).contains(
                                    pid,
                                ) {
                                    lemma_requeued_subset(orig.players@, parts.take(k as int), pid);
                                }
                            }
                            assert(self.queue@.drop_last() == pre.queue@);
                        }
                    }
                },
                None => {
                    proof {
                        assert(!spec_present(orig.players@, pid)) by {
                            if spec_present(orig.players@, pid) {
                                let q = choose|q: int|
                                    0 <= q < orig.players@.len() && (#[trigger] orig.players@[q]).id
                                        == pid;
                                assert(pre.players@[q].id == pid);
                            }
                        }
                        assert(spec_requeued(orig.players@, parts.take(k as int + 1))
                            == spec_requeued(orig.players@, parts.take(k as int)));
                        assert forall|q: int|
                            0 <= q < orig.players@.len() && !parts.take(k as int + 1).contains(
                                (#[trigger] orig.players@[q]).id,
                            ) implies self.players@[q] == orig.players@[q] by {
                            assert(!parts.take(k as int).contains(orig.players@[q].id));
                        }
                    }
                },
            }
            k = k + 1;
        }
        proof {
            assert(parts.take(n as int) =~= parts);
            assert forall|p: int|
                0 <= p < orig.players@.len() && parts.contains(
                    (#[trigger] orig.players@[p]).id,
                ) implies spec_returned(
                orig.players@[p],
                self.players@[p],
                ev.loser,
                orig.spec_lobby_layer(),
            ) by {
                let j = choose|j: int| 0 <= j < parts.len() && parts[j] == orig.players@[p].id;
                assert(orig.players@[p].id == parts[j]);
            }
        }
    }

    /// Send every still-connected participant of one game back to their
    /// team's spawn on its arena. Nothing else changes.
    fn lock_participants(&mut self, gidx: usize)
        requires
            old(self).wf(),
            gidx < old(self).games@.len(),
        ensures
            final(self).wf(),
            final(self).games == old(self).games,
            final(self).queue == old(self).queue,
            final(self).map_layers == old(self).map_layers,
            final(self).num_teams == old(self).num_teams,
            final(self).next_handle == old(self).next_handle,
            final(self).players@.len() == old(self).players@.len(),
            forall|p: int|
                0 <= p < old(self).players@.len() && old(self).games@[gidx as int].game.players@.contains(
                    (#[trigger] old(self).players@[p]).id,
                ) ==> final(self).players@[p] == spec_locked(
                    old(self).players@[p],
                    old(self).games@[gidx as int].game.map,
                ),
            forall|p: int|
                0 <= p < old(self).players@.len() && !old(self).games@[gidx as int].game.players@.contains(
                    (#[trigger] old(self).players@[p]).id,
                ) ==> final(self).players@[p] == old(self).players@[p],
    {
        let ghost orig = *self;
        let ghost parts = orig.games@[gidx as int].game.players@;
        let the_map = self.games[gidx].game.map;
        let n = self.games[gidx].game.players.len();
        let mut k: usize = 0;
        while k < n
            invariant
                self.wf(),
                0 <= gidx < self.games@.len(),
                self.games == orig.games,
                self.games@[gidx as int].game.players@ == parts,
                the_map == self.games@[gidx as int].game.map,
                n == parts.len(),
                k <= n,
                self.queue == orig.queue,
                self.map_layers == orig.map_layers,
                self.num_teams == orig.num_teams,
                self.next_handle == orig.next_handle,
                self.players@.len() == orig.players@.len(),
                forall|p: int|
                    0 <= p < orig.players@.len() ==> (#[trigger] self.players@[p]).id
                        == orig.players@[p].id,
                forall|p: int|
                    0 <= p < orig.players@.len() && !parts.take(k as int).contains(
                        (#[trigger] orig.players@[p]).id,
                    ) ==> self.players@[p] == orig.players@[p],
                forall|p: int, j: int|
                    0 <= p < orig.players@.len() && 0 <= j < k && (#[trigger] orig.players@[p]).id
                        == (#[trigger] parts[j]) ==> self.players@[p] == spec_locked(
                        orig.players@[p],
                        the_map,
                    ),
            decreases n - k,
        {
            let ghost pre = *self;
            let pid = self.games[gidx].game.players[k];
            proof {
                assert(parts.take(k as int + 1) =~= parts.take(k as int).push(parts[k as int]));
                assert(parts.take(k as int + 1)[k as int] == parts[k as int]);
            }
            match self.find_player_index(pid) {
                Some(p) => {
                    let team = self.players[p].gamestate.team;
                    let pl = &mut self.players[p];
                    pl.loc = Location::TeamSpawn { map: the_map, team };
                    proof {
                        assert(forall|q: int|
                            0 <= q < self.players@.len() && q != p ==> self.players@[q]
                                == pre.players@[q]);
                        assert(orig.players@[p as int].id == pid);
                        assert(!parts.take(k as int).contains(pid));
                        assert(pre.players@[p as int] == orig.players@[p as int]);
                        assert(self.players@[p as int] == spec_locked(
                            orig.players@[p as int],
                            the_map,
                        ));
                        assert forall|q: int, j: int|
                            0 <= q < orig.players@.len() && 0 <= j < k + 1 && (
                            #[trigger] orig.players@[q]).id == (
                            #[trigger] parts[j]) implies self.players@[q] == spec_locked(
                            orig.players@[q],
                            the_map,
                        ) by {
                            if j == k as int {
                                assert(q == p as int);
                            } else {
                                assert(q != p as int) by {
                                    assert(parts[j] != parts[k as int]);
                                }
                            }
                        }
                        assert forall|q: int|
                            0 <= q < orig.players@.len() && !parts.take(k as int + 1).contains(
                                (#[trigger] orig.players@[q]).id,
                            ) implies self.players@[q] == orig.players@[q] by {
                            assert(!parts.take(k as int).contains(orig.players@[q].id));
                            assert(orig.players@[q].id != parts[k as int]);
                            assert(q != p as int);
                        }
                    }
                },
                None => {
                    proof {
                        assert forall|q: int|
                            0 <= q < orig.players@.len() && !parts.take(k as int + 1).contains(
                                (#[trigger] orig.players@[q]).id,
                            ) implies self.players@[q] == orig.players@[q] by {
                            assert(!parts.take(k as int).contains(orig.players@[q].id));
                        }
                    }
                },
            }
            k = k + 1;
        }
        proof {
            assert(parts.take(n as int) =~= parts);
            assert forall|p: int|
                0 <= p < orig.players@.len() && parts.contains(
                    (#[trigger] orig.players@[p]).id,
                ) implies self.players@[p] == spec_locked(orig.players@[p], the_map) by {
                let j = choose|j: int| 0 <= j < parts.len() && parts[j] == orig.players@[p].id;
                assert(orig.players@[p].id == parts[j]);
            }
        }
    }

    /// The per-tick stage driver. While a game's countdown runs (its stage is
    /// below active), every participant is held at their team's spawn; then
    /// the stage advances once its elapsed-time threshold is met, firing one
    /// stage event per game that advanced, in game order.
    pub fn gameloop(&mut self, now: u64) -> (events: Vec<GameStageEvent>)
        requires
            old(self).wf(),
        ensures
            final(self).wf(),
            final(self).queue == old(self).queue,
            final(self).map_layers == old(self).map_layers,
            final(self).num_teams == old(self).num_teams,
            final(self).next_handle == old(self).next_handle,
            // each game steps by the stage rule and is otherwise untouched
            final(self).games@.len() == old(self).games@.len(),
            forall|g: int|
                0 <= g < old(self).games@.len() ==> {
                    let eo = #[trigger] old(self).games@[g];
                    let en = final(self).games@[g];
                    &&& en.id == eo.id
                    &&& en.game.stage == spec_stage_step(
                        eo.game.stage,
                        spec_elapsed(now, eo.game.created_at),
                    )
                    &&& en.game.map == eo.game.map
                    &&& en.game.layer == eo.game.layer
                    &&& en.game.players@ == eo.game.players@
                    &&& en.game.created_at == eo.game.created_at
                    &&& en.game.data == eo.game.data
                },
            events@ == spec_stage_events(old(self).games@, now),
            // participants of a counting-down game are held at their spawn
            final(self).players@.len() == old(self).players@.len(),
            forall|p: int, g: int|
                0 <= p < old(self).players@.len() && 0 <= g < old(self).games@.len() && old(
                    self,
                ).games@[g].game.stage < STAGE_ACTIVE && old(self).games@[g].game.players@.contains(
                    (#[trigger] old(self).players@[p]).id,
                ) ==> final(self).players@[p] == spec_locked(
                    old(self).players@[p],
                    (#[trigger] old(self).games@[g]).game.map,
                ),
            forall|p: int|
                0 <= p < old(self).players@.len() && !(exists|g: int|
                    0 <= g < old(self).games@.len() && (#[trigger] old(self).games@[g]).game.stage
                        < STAGE_ACTIVE && old(self).games@[g].game.players@.contains(
                        old(self).players@[p].id,
                    )) ==> final(self).players@[p] == old(self).players@[p],
    {
        let ghost orig = *self;
        let mut events: Vec<GameStageEvent> = Vec::new();
        let n = self.games.len();
        let mut g: usize = 0;
        while g < n
            invariant
                self.wf(),
                n == orig.games@.len(),
                g <= n,
                self.queue == orig.queue,
                self.map_layers == orig.map_layers,
                self.num_teams == orig.num_teams,
                self.next_handle == orig.next_handle,
                self.games@.len() == orig.games@.len(),
                forall|i: int| g <= i < n ==> #[trigger] self.games@[i] == orig.games@[i],
                forall|i: int|
                    0 <= i < g ==> {
                        let eo = #[trigger] orig.games@[i];
                        let en = self.games@[i];
                        &&& en.id == eo.id
                        &&& en.game.stage == spec_stage_step(
                            eo.game.stage,
                            spec_elapsed(now, eo.game.created_at),
                        )
                        &&& en.game.map == eo.game.map
                        &&& en.game.layer == eo.game.layer
                        &&& en.game.players@ == eo.game.players@
                        &&& en.game.created_at == eo.game.created_at
                        &&& en.game.data == eo.game.data
                    },
                events@ == spec_stage_events(orig.games@.take(g as int), now),
                self.players@.len() == orig.players@.len(),
                forall|p: int, i: int|
                    0 <= p < orig.players@.len() && 0 <= i < g && orig.games@[i].game.stage
                        < STAGE_ACTIVE && orig.games@[i].game.players@.contains(
                        (#[trigger] orig.players@[p]).id,
                    ) ==> self.players@[p] == spec_locked(
                        orig.players@[p],
                        (#[trigger] orig.games@[i]).game.map,
                    ),
                forall|p: int|
                    0 <= p < orig.players@.len() && !(exists|i: int|
                        0 <= i < g && (#[trigger] orig.games@[i]).game.stage < STAGE_ACTIVE
                            && orig.games@[i].game.players@.contains(orig.players@[p].id)) ==> (
                    #[trigger] self.players@[p]) == orig.players@[p],
            decreases n - g,
        {
            let ghost pre = *self;
            let stage_now = self.games[g].game.stage;
            if stage_now < STAGE_ACTIVE {
                self.lock_participants(g);
            }
            let ghost mid = *self;
            let advanced = {
                let ge = &mut self.games[g];
                ge.game.advance_stage(now)
            };
            match advanced {
                Some(news) => {
                    let game_id = self.games[g].id;
                    events.push(GameStageEvent { game_id, stage: news });
                },
                None => {},
            }
            proof {
                let gi = g as int;
                assert(orig.games@.take(gi + 1) =~= orig.games@.take(gi).push(orig.games@[gi]));
                assert(orig.games@.take(gi + 1).drop_last() =~= orig.games@.take(gi));
                assert(orig.games@.take(gi + 1).last() == orig.games@[gi]);
                assert(forall|i: int|
                    0 <= i < self.games@.len() && i != gi ==> #[trigger] self.games@[i]
                        == mid.games@[i]);
                assert(forall|q: int|
                    0 <= q < self.players@.len() ==> #[trigger] self.players@[q]
                        == mid.players@[q]);
                assert(events@ == spec_stage_events(orig.games@.take(gi + 1), now));
                // a game that was not counting down locked nobody
                if stage_now >= STAGE_ACTIVE {
                    assert(forall|p: int|
                        0 <= p < orig.players@.len() ==> #[trigger] self.players@[p]
                            == pre.players@[p]);
                }
                assert forall|p: int|
                    0 <= p < orig.players@.len() && !(exists|i: int|
                        0 <= i < gi + 1 && (#[trigger] orig.games@[i]).game.stage < STAGE_ACTIVE
                            && orig.games@[i].game.players@.contains(
                            orig.players@[p].id,
                        )) implies (#[trigger] self.players@[p]) == orig.players@[p] by {
                    assert(!(exists|i: int|
                        0 <= i < gi && (#[trigger] orig.games@[i]).game.stage < STAGE_ACTIVE
                            && orig.games@[i].game.players@.contains(orig.players@[p].id)));
                    assert(pre.players@[p] == orig.players@[p]);
                    if stage_now < STAGE_ACTIVE {
                        assert(!orig.games@[gi].game.players@.contains(orig.players@[p].id));
                        assert(!pre.games@[gi].game.players@.contains(pre.players@[p].id));
                    }
                }
                assert forall|p: int, i: int|
                    0 <= p < orig.players@.len() && 0 <= i < gi + 1 && orig.games@[i].game.stage
                        < STAGE_ACTIVE && orig.games@[i].game.players@.contains(
                        (#[trigger] orig.players@[p]).id,
                    ) implies self.players@[p] == spec_locked(
                    orig.players@[p],
                    (#[trigger] orig.games@[i]).game.map,
                ) by {
                    if i == gi {
                        assert(stage_now < STAGE_ACTIVE);
                        assert(pre.players@[p] == orig.players@[p]) by {
                            if exists|i2: int|
                                0 <= i2 < gi && (#[trigger] orig.games@[i2]).game.stage
                                    < STAGE_ACTIVE && orig.games@[i2].game.players@.contains(
                                    orig.players@[p].id,
                                ) {
                                let i2 = choose|i2: int|
                                    0 <= i2 < gi && (#[trigger] orig.games@[i2]).game.stage
                                        < STAGE_ACTIVE && orig.games@[i2].game.players@.contains(
                                        orig.players@[p].id,
                                    );
                                let c1 = choose|c: int|
                                    0 <= c < orig.games@[i2].game.players@.len()
                                        && orig.games@[i2].game.players@[c] == orig.players@[p].id;
                                let c2 = choose|c: int|
                                    0 <= c < orig.games@[gi].game.players@.len()
                                        && orig.games@[gi].game.players@[c] == orig.players@[p].id;
                                assert(orig.games@[i2].game.players@[c1]
                                    != orig.games@[gi].game.players@[c2]);
                            }
                        }
                        assert(pre.games@[gi].game.players@.contains(pre.players@[p].id));
                        assert(self.players@[p] == spec_locked(pre.players@[p], pre.games@[gi].game.map));
                    }
                }
            }
            g = g + 1;
        }
        proof {
            assert(orig.games@.take(n as int) =~= orig.games@);
        }
        events
    }

    /// Hand every still-connected participant of a game their starting
    /// loadout, replacing whatever their inventory held. An id naming no
    /// running game does nothing.
    pub fn give_loadout(&mut self, game_id: u64, loadout: &Vec<ItemStack>)
        requires
            old(self).wf(),
        ensures
            final(self).wf(),
            final(self).games == old(self).games,
            final(self).queue == old(self).queue,
            final(self).map_layers == old(self).map_layers,
            final(self).num_teams == old(self).num_teams,
            final(self).next_handle == old(self).next_handle,
            final(self).players@.len() == old(self).players@.len(),
            !old(self).spec_has_game(game_id) ==> *final(self) == *old(self),
            old(self).spec_has_game(game_id) ==> {
                let g = old(self).games@[old(self).spec_game_index(game_id)].game;
                &&& forall|p: int|
                    0 <= p < old(self).players@.len() && g.players@.contains(
                        (#[trigger] old(self).players@[p]).id,
                    ) ==> final(self).players@[p].spec_outfitted(old(self).players@[p], loadout@)
                &&& forall|p: int|
                    0 <= p < old(self).players@.len() && !g.players@.contains(
                        (#[trigger] old(self).players@[p]).id,
                    ) ==> final(self).players@[p] == old(self).players@[p]
            },
    {
        let ghost orig = *self;
        let gidx = match self.find_game_index(game_id) {
            Some(g) => g,
            None => {
                return ;
            },
        };
        proof {
            assert(orig.spec_game_index(game_id) == gidx as int) by {
                let j = orig.spec_game_index(game_id);
                assert(0 <= j < orig.games@.len() && orig.games@[j].id == game_id);
            }
        }
        let ghost parts = orig.games@[gidx as int].game.players@;
        let n = self.games[gidx].game.players.len();
        let mut k: usize = 0;
        while k < n
            invariant
                self.wf(),
                0 <= gidx < self.games@.len(),
                self.games == orig.games,
                self.games@[gidx as int].game.players@ == parts,
                n == parts.len(),
                k <= n,
                self.queue == orig.queue,
                self.map_layers == orig.map_layers,
                self.num_teams == orig.num_teams,
                self.next_handle == orig.next_handle,
                self.players@.len() == orig.players@.len(),
                forall|p: int|
                    0 <= p < orig.players@.len() ==> (#[trigger] self.players@[p]).id
                        == orig.players@[p].id,
                forall|p: int|
                    0 <= p < orig.players@.len() && !parts.take(k as int).contains(
                        (#[trigger] orig.players@[p]).id,
                    ) ==> self.players@[p] == orig.players@[p],
                forall|p: int, j: int|
                    0 <= p < orig.players@.len() && 0 <= j < k && (#[trigger] orig.players@[p]).id
                        == (#[trigger] parts[j]) ==> self.players@[p].spec_outfitted(
                        orig.players@[p],
                        loadout@,
                    ),
            decreases n - k,
        {
            let ghost pre = *self;
            let pid = self.games[gidx].game.players[k];
            proof {
                assert(parts.take(k as int + 1) =~= parts.take(k as int).push(parts[k as int]));
                assert(parts.take(k as int + 1)[k as int] == parts[k as int]);
            }
            match self.find_player_index(pid) {
                Some(p) => {
                    let fresh_items = copy_items(loadout);
                    let pl = &mut self.players[p];
                    pl.inventory = fresh_items;
                    proof {
                        assert(forall|q: int|
                            0 <= q < self.players@.len() && q != p ==> self.players@[q]
                                == pre.players@[q]);
                        assert(orig.players@[p as int].id == pid);
                        assert(!parts.take(k as int).contains(pid));
                        assert(pre.players@[p as int] == orig.players@[p as int]);
                        assert(self.players@[p as int].spec_outfitted(
                            orig.players@[p as int],
                            loadout@,
                        ));
                        assert forall|q: int, j: int|
                            0 <= q < orig.players@.len() && 0 <= j < k + 1 && (
                            #[trigger] orig.players@[q]).id == (
                            #[trigger] parts[j]) implies self.players@[q].spec_outfitted(
                            orig.players@[q],
                            loadout@,
                        ) by {
                            if j == k as int {
                                assert(q == p as int);
                            } else {
                                assert(q != p as int) by {
                                    assert(parts[j] != parts[k as int]);
                                }
                            }
                        }
                        assert forall|q: int|
                            0 <= q < orig.players@.len() && !parts.take(k as int + 1).contains(
                                (#[trigger] orig.players@[q]).id,
                            ) implies self.players@[q] == orig.players@[q] by {
                            assert(!parts.take(k as int).contains(orig.players@[q].id));
                            assert(orig.players@[q].id != parts[k as int]);
                            assert(q != p as int);
                        }
                    }
                },
                None => {
                    proof {
                        assert forall|q: int|
                            0 <= q < orig.players@.len() && !parts.take(k as int + 1).contains(
                                (#[trigger] orig.players@[q]).id,
                            ) implies self.players@[q] == orig.players@[q] by {
                            assert(!parts.take(k as int).contains(orig.players@[q].id));
                        }
                    }
                },
            }
            k = k + 1;
        }
        proof {
            assert(parts.take(n as int) =~= parts);
            assert forall|p: int|
                0 <= p < orig.players@.len() && parts.contains(
                    (#[trigger] orig.players@[p]).id,
                ) implies self.players@[p].spec_outfitted(orig.players@[p], loadout@) by {
                let j = choose|j: int| 0 <= j < parts.len() && parts[j] == orig.players@[p].id;
                assert(orig.players@[p].id == parts[j]);
            }
        }
    }

    /// Whether a hit between these two players lands: they are two different
    /// connected players on opposing teams of the same game, and the
    /// victim's invulnerability window from the previous hit has passed.
    pub open spec fn spec_hit_lands(self, attacker_id: u64, victim_id: u64, tick: i64) -> bool {
        &&& attacker_id != victim_id
        &&& self.spec_has_player(attacker_id)
        &&& self.spec_has_player(victim_id)
        &&& self.spec_player(attacker_id).gamestate.game_id is Some
        &&& self.spec_player(attacker_id).gamestate.game_id == self.spec_player(
            victim_id,
        ).gamestate.game_id
        &&& self.spec_player(attacker_id).gamestate.team != self.spec_player(
            victim_id,
        ).gamestate.team
        &&& self.spec_player(victim_id).combat.spec_vulnerable(tick)
    }

    /// One melee hit. A hit between players of different games or of the
    /// same team, or inside the victim's invulnerability window, does
    /// nothing. A landed hit opens a new invulnerability window, records the
    /// attacker for kill credit, spends the attacker's sprint bonus
    /// (reporting it, for the knockback to apply outside), and deals the
    /// damage; a victim whose health is exhausted loses the game for their
    /// team, through exactly one end event.
    pub fn handle_attack(
        &mut self,
        attacker_id: u64,
        victim_id: u64,
        tick: i64,
        damage: u8,
    ) -> (r: AttackOutcome)
        requires
            old(self).wf(),
        ensures
            final(self).wf(),
            final(self).games == old(self).games,
            final(self).queue == old(self).queue,
            final(self).map_layers == old(self).map_layers,
            final(self).num_teams == old(self).num_teams,
            final(self).next_handle == old(self).next_handle,
            r.landed == old(self).spec_hit_lands(attacker_id, victim_id, tick),
            !r.landed ==> *final(self) == *old(self) && !r.bonus_knockback && r.end is None,
            r.landed ==> {
                let ai = old(self).spec_player_index(attacker_id);
                let vi = old(self).spec_player_index(victim_id);
                let pa = old(self).players@[ai];
                let pv = old(self).players@[vi];
                &&& r.bonus_knockback == pa.combat.has_bonus_knockback
                &&& final(self).players@.len() == old(self).players@.len()
                &&& forall|q: int|
                    0 <= q < old(self).players@.len() && q != ai && q != vi
                        ==> (#[trigger] final(self).players@[q]) == old(self).players@[q]
                &&& final(self).players@[ai] == (PlayerEntry {
                    combat: CombatState { has_bonus_knockback: false, ..pa.combat },
                    ..pa
                })
                &&& final(self).players@[vi] == (PlayerEntry {
                    combat: CombatState {
                        last_attacked_tick: tick,
                        last_attacker: Some(attacker_id),
                        ..pv.combat
                    },
                    health: if pv.health <= damage {
                        0
                    } else {
                        (pv.health - damage) as u8
                    },
                    ..pv
                })
                &&& r.end == if pv.health <= damage {
                    Some(
                        EndGameEvent {
                            game_id: pv.gamestate.game_id->0,
                            loser: pv.gamestate.team,
                        },
                    )
                } else {
                    None::<EndGameEvent>
                }
            },
    {
        let miss = AttackOutcome { landed: false, bonus_knockback: false, end: None };
        if attacker_id == victim_id {
            return miss;
        }
        let ai = match self.find_player_index(attacker_id) {
            Some(i) => i,
            None => {
                return miss;
            },
        };
        let vi = match self.find_player_index(victim_id) {
            Some(i) => i,
            None => {
                return miss;
            },
        };
        proof {
            assert(old(self).spec_player_index(attacker_id) == ai as int) by {
                let j = old(self).spec_player_index(attacker_id);
                assert(0 <= j < self.players@.len() && self.players@[j].id == attacker_id);
            }
            assert(old(self).spec_player_index(victim_id) == vi as int) by {
                let j = old(self).spec_player_index(victim_id);
                assert(0 <= j < self.players@.len() && self.players@[j].id == victim_id);
            }
            assert(ai != vi);
        }
        let gid = match (self.players[ai].gamestate.game_id, self.players[vi].gamestate.game_id) {
            (Some(ag), Some(vg)) => {
                if ag == vg {
                    vg
                } else {
                    return miss;
                }
            },
            _ => {
                return miss;
            },
        };
        if self.players[ai].gamestate.team == self.players[vi].gamestate.team {
            return miss;
        }
        let last = self.players[vi].combat.last_attacked_tick;
        if (tick as i128) - (last as i128) < (INVULN_WINDOW_TICKS as i128) {
            return miss;
        }
        let bonus = self.players[ai].combat.has_bonus_knockback;
        let victim_team = self.players[vi].gamestate.team;
        let victim_health = self.players[vi].health;
        {
            let pa = &mut self.players[ai];
            pa.combat.has_bonus_knockback = false;
        }
        let dead = victim_health <= damage;
        let new_health = if dead {
            0
        } else {
            victim_health - damage
        };
        {
            let pv = &mut self.players[vi];
            pv.combat.last_attacked_tick = tick;
            pv.combat.last_attacker = Some(attacker_id);
            pv.health = new_health;
        }
        let end = if dead {
            Some(EndGameEvent { game_id: gid, loser: victim_team })
        } else {
            None
        };
        AttackOutcome { landed: true, bonus_knockback: bonus, end }
    }

    /// A mid-game death that does not end the game (a goal was scored, or
    /// the player fell): put the player back at their team's spawn with full
    /// health and a fresh loadout, and consume the kill credit, reporting
    /// who the last attacker was. A player who is not connected or not in a
    /// running game is left alone.
    pub fn respawn(&mut self, id: u64, loadout: &Vec<ItemStack>) -> (r: (bool, Option<u64>))
        requires
            old(self).wf(),
        ensures
            final(self).wf(),
            final(self).games == old(self).games,
            final(self).queue == old(self).queue,
            final(self).map_layers == old(self).map_layers,
            final(self).num_teams == old(self).num_teams,
            final(self).next_handle == old(self).next_handle,
            r.0 == (old(self).spec_has_player(id) && old(self).spec_player(
                id,
            ).gamestate.game_id is Some && old(self).spec_has_game(
                old(self).spec_player(id).gamestate.game_id->0,
            )),
            !r.0 ==> *final(self) == *old(self) && r.1 is None,
            r.0 ==> {
                let pi = old(self).spec_player_index(id);
                let po = old(self).players@[pi];
                let g = old(self).spec_game(po.gamestate.game_id->0);
                &&& final(self).players@.len() == old(self).players@.len()
                &&& forall|q: int|
                    0 <= q < old(self).players@.len() && q != pi
                        ==> (#[trigger] final(self).players@[q]) == old(self).players@[q]
                &&& spec_respawned(po, final(self).players@[pi], g.map, loadout@)
                &&& r.1 == po.combat.last_attacker
            },
    {
        let pi = match self.find_player_index(id) {
            Some(p) => p,
            None => {
                return (false, None);
            },
        };
        proof {
            assert(old(self).spec_player_index(id) == pi as int) by {
                let j = old(self).spec_player_index(id);
                assert(0 <= j < self.players@.len() && self.players@[j].id == id);
            }
        }
        let gid = match self.players[pi].gamestate.game_id {
            Some(g) => g,
            None => {
                return (false, None);
            },
        };
        let gidx = match self.find_game_index(gid) {
            Some(g) => g,
            None => {
                return (false, None);
            },
        };
        proof {
            assert(old(self).spec_game_index(gid) == gidx as int) by {
                let j = old(self).spec_game_index(gid);
                assert(0 <= j < self.games@.len() && self.games@[j].id == gid);
            }
        }
        let map_now = self.games[gidx].game.map;
        let team = self.players[pi].gamestate.team;
        let credit = self.players[pi].combat.last_attacker;
        let items = copy_items(loadout);
        {
            let pl = &mut self.players[pi];
            pl.loc = Location::TeamSpawn { map: map_now, team };
            pl.health = MAX_HEALTH;
            pl.inventory = items;
            pl.combat.last_attacker = None;
        }
        (true, credit)
    }

    /// A player scored a goal. Their team's score in the game's data map
    /// rises; reaching the target ends the game with the other team the
    /// loser, anything less restarts the countdown: the game's clock is
    /// rewound to now and its stage reset to forming, announced by a stage
    /// event. A scorer who is not connected or not in a running game scores
    /// nothing.
    pub fn record_goal(&mut self, scorer: u64, now: u64) -> (events: (
        Vec<EndGameEvent>,
        Vec<GameStageEvent>,
    ))
        requires
            old(self).wf(),
        ensures
            final(self).wf(),
            final(self).queue == old(self).queue,
            final(self).players == old(self).players,
            final(self).map_layers == old(self).map_layers,
            final(self).num_teams == old(self).num_teams,
            final(self).next_handle == old(self).next_handle,
            !(old(self).spec_has_player(scorer) && old(self).spec_player(
                scorer,
            ).gamestate.game_id is Some && old(self).spec_has_game(
                old(self).spec_player(scorer).gamestate.game_id->0,
            )) ==> *final(self) == *old(self) && events.0@.len() == 0 && events.1@.len() == 0,
            old(self).spec_has_player(scorer) && old(self).spec_player(
                scorer,
            ).gamestate.game_id is Some && old(self).spec_has_game(
                old(self).spec_player(scorer).gamestate.game_id->0,
            ) ==> {
                let gid = old(self).spec_player(scorer).gamestate.game_id->0;
                let gi = old(self).spec_game_index(gid);
                let g = old(self).games@[gi].game;
                let team = old(self).spec_player(scorer).gamestate.team;
                let score = spec_next_score(g.data@, team as usize);
                let g_new = final(self).games@[gi].game;
                &&& final(self).games@.len() == old(self).games@.len()
                &&& forall|j: int|
                    0 <= j < old(self).games@.len() && j != gi ==> final(self).games@[j] == old(
                        self,
                    ).games@[j]
                &&& final(self).games@[gi].id == gid
                &&& g_new.data@ == g.data@.insert(team as usize, DataValue::Int(score))
                &&& g_new.map == g.map
                &&& g_new.layer == g.layer
                &&& g_new.players@ == g.players@
                &&& if score >= GOAL_TARGET {
                    &&& events.0@ == seq![
                        EndGameEvent {
                            game_id: gid,
                            loser: if team == 0 {
                                1u8
                            } else {
                                0u8
                            },
                        },
                    ]
                    &&& events.1@.len() == 0
                    &&& g_new.stage == g.stage
                    &&& g_new.created_at == g.created_at
                } else {
                    &&& events.0@.len() == 0
                    &&& events.1@ == seq![GameStageEvent { game_id: gid, stage: 0 }]
                    &&& g_new.stage == 0
                    &&& g_new.created_at == now
                }
            },
    {
        broadcast use vstd::std_specs::hash::group_hash_axioms;

        let mut end_events: Vec<EndGameEvent> = Vec::new();
        let mut stage_events: Vec<GameStageEvent> = Vec::new();
        let pi = match self.find_player_index(scorer) {
            Some(p) => p,
            None => {
                return (end_events, stage_events);
            },
        };
        proof {
            assert(old(self).spec_player_index(scorer) == pi as int) by {
                let j = old(self).spec_player_index(scorer);
                assert(0 <= j < self.players@.len() && self.players@[j].id == scorer);
            }
        }
        let gid = match self.players[pi].gamestate.game_id {
            Some(g) => g,
            None => {
                return (end_events, stage_events);
            },
        };
        let team = self.players[pi].gamestate.team;
        let gidx = match self.find_game_index(gid) {
            Some(g) => g,
            None => {
                return (end_events, stage_events);
            },
        };
        proof {
            assert(old(self).spec_game_index(gid) == gidx as int) by {
                let j = old(self).spec_game_index(gid);
                assert(0 <= j < self.games@.len() && self.games@[j].id == gid);
            }
        }
        let key: usize = team as usize;
        let score: i32 = match self.games[gidx].game.data.get(&key) {
            Some(DataValue::Int(s)) => {
                if *s < i32::MAX {
                    *s + 1
                } else {
                    *s
                }
            },
            _ => 0,
        };
        {
            let ge = &mut self.games[gidx];
            ge.game.data.insert(key, DataValue::Int(score));
        }
        if score >= GOAL_TARGET {
            let loser: u8 = if team == 0 {
                1
            } else {
                0
            };
            end_events.push(EndGameEvent { game_id: gid, loser });
        } else {
            let ge = &mut self.games[gidx];
            ge.game.stage = 0;
            ge.game.created_at = now;
            stage_events.push(GameStageEvent { game_id: gid, stage: 0 });
        }
        (end_events, stage_events)
    }

    /// A player's connection dropped. A queued, unmatched player just leaves
    /// the queue; a mid-match player's game gets exactly one end event, their
    /// team recorded as the loser. Either way the player's record is gone.
    /// One who is neither queued nor in a game (a stale reference caught
    /// between systems) is skipped silently, as stale references always are
    /// here.
    pub fn handle_disconnect(&mut self, id: u64) -> (events: Vec<EndGameEvent>)
        requires
            old(self).wf(),
        ensures
            final(self).wf(),
            final(self).games == old(self).games,
            final(self).map_layers == old(self).map_layers,
            final(self).num_teams == old(self).num_teams,
            final(self).next_handle == old(self).next_handle,
            !final(self).spec_has_player(id),
            old(self).spec_has_player(id) ==> final(self).players@ == old(self).players@.remove(
                old(self).spec_player_index(id),
            ),
            !old(self).spec_has_player(id) ==> final(self).players@ == old(self).players@,
            old(self).queue@.contains(id) ==> events@.len() == 0 && final(self).queue@ == old(
                self,
            ).queue@.remove(old(self).spec_queue_index(id)),
            !old(self).queue@.contains(id) ==> final(self).queue@ == old(self).queue@,
            !old(self).queue@.contains(id) && old(self).spec_has_player(id) && old(
                self,
            ).spec_player(id).gamestate.game_id is Some ==> events@ == seq![
                EndGameEvent {
                    game_id: old(self).spec_player(id).gamestate.game_id->0,
                    loser: old(self).spec_player(id).gamestate.team,
                },
            ],
            !(!old(self).queue@.contains(id) && old(self).spec_has_player(id) && old(
                self,
            ).spec_player(id).gamestate.game_id is Some) ==> events@.len() == 0,
    {
        let ghost orig = *self;
        let mut events: Vec<EndGameEvent> = Vec::new();
        let qi = self.find_queue_index(id);
        match qi {
            Some(q) => {
                self.queue.remove(q);
                proof {
                    assert(orig.spec_queue_index(id) == q as int) by {
                        assert(orig.queue@[q as int] == id);
                        let j = orig.spec_queue_index(id);
                        assert(0 <= j < orig.queue@.len() && orig.queue@[j] == id);
                    }
                    assert(self.queue@.no_duplicates()) by {
                        assert(forall|a: int|
                            0 <= a < self.queue@.len() ==> #[trigger] self.queue@[a] == if a < q {
                                orig.queue@[a]
                            } else {
                                orig.queue@[a + 1]
                            });
                    }
                }
            },
            None => {
                let pi = self.find_player_index(id);
                match pi {
                    Some(p) => {
                        match self.players[p].gamestate.game_id {
                            Some(gid) => {
                                let team = self.players[p].gamestate.team;
                                events.push(EndGameEvent { game_id: gid, loser: team });
                                proof {
                                    assert(orig.spec_player_index(id) == p as int) by {
                                        let j = orig.spec_player_index(id);
                                        assert(0 <= j < orig.players@.len() && orig.players@[j].id
                                            == id);
                                    }
                                    assert(events@ =~= seq![
                                        EndGameEvent {
                                            game_id: orig.spec_player(id).gamestate.game_id->0,
                                            loser: orig.spec_player(id).gamestate.team,
                                        },
                                    ]);
                                }
                            },
                            None => {},
                        }
                    },
                    None => {},
                }
            },
        }
        let pi = self.find_player_index(id);
        match pi {
            Some(p) => {
                self.players.remove(p);
                proof {
                    assert(orig.spec_player_index(id) == p as int) by {
                        let j = orig.spec_player_index(id);
                        assert(0 <= j < orig.players@.len() && orig.players@[j].id == id);
                    }
                    assert(forall|a: int|
                        0 <= a < self.players@.len() ==> #[trigger] self.players@[a] == if a
                            < p as int {
                            orig.players@[a]
                        } else {
                            orig.players@[a + 1]
                        });
                    assert(!self.spec_has_player(id));
                }
            },
            None => {},
        }
        events
    }

    /// Look a connected player up by handle.
    pub fn get_player(&self, id: u64) -> (p: Option<&PlayerEntry>)
        ensures
            p is Some ==> p->0.id == id && self.spec_has_player(id),
            p is None ==> !self.spec_has_player(id),
            self.wf() && p is Some ==> *p->0 == self.spec_player(id),
    {
        let n = self.players.len();
        let mut i: usize = 0;
        while i < n
            invariant
                n == self.players@.len(),
                i <= n,
                forall|j: int| 0 <= j < i ==> (#[trigger] self.players@[j]).id != id,
            decreases n - i,
        {
            if self.players[i].id == id {
                proof {
                    if self.wf() {
                        let j = self.spec_player_index(id);
                        assert(0 <= j < self.players@.len() && self.players@[j].id == id);
                        assert(j == i as int);
                    }
                }
                return Some(&self.players[i]);
            }
            i = i + 1;
        }
        None
    }

    /// Look a running game up by handle.
    pub fn get_game(&self, id: u64) -> (g: Option<&Game>)
        ensures
            g is Some ==> self.spec_has_game(id),
            g is None ==> !self.spec_has_game(id),
            self.wf() && g is Some ==> *g->0 == self.spec_game(id),
    {
        let n = self.games.len();
        let mut i: usize = 0;
        while i < n
            invariant
                n == self.games@.len(),
                i <= n,
                forall|j: int| 0 <= j < i ==> (#[trigger] self.games@[j]).id != id,
            decreases n - i,
        {
            if self.games[i].id == id {
                proof {
                    if self.wf() {
                        let j = self.spec_game_index(id);
                        assert(0 <= j < self.games@.len() && self.games@[j].id == id);
                        assert(j == i as int);
                    }
                }
                return Some(&self.games[i].game);
            }
            i = i + 1;
        }
        None
    }

    /// Who receives a chat message this player sends: everyone in the same
    /// game, or everyone outside a game when the sender is in none. A sender
    /// who is not connected reaches nobody.
    pub fn chat_recipients(&self, sender: u64) -> (r: Vec<u64>)
        requires
            self.wf(),
        ensures
            !self.spec_has_player(sender) ==> r@.len() == 0,
            self.spec_has_player(sender) ==> r@ == spec_same_game_ids(
                self.players@,
                self.spec_player(sender).gamestate.game_id,
            ),
    {
        let mut r: Vec<u64> = Vec::new();
        let game = match self.get_player(sender) {
            Some(p) => p.gamestate.game_id,
            None => {
                return r;
            },
        };
        let n = self.players.len();
        let mut i: usize = 0;
        while i < n
            invariant
                n == self.players@.len(),
                i <= n,
                r@ == spec_same_game_ids(self.players@.take(i as int), game),
            decreases n - i,
        {
            proof {
                assert(self.players@.take(i as int + 1).drop_last() =~= self.players@.take(
                    i as int,
                ));
                assert(self.players@.take(i as int + 1).last() == self.players@[i as int]);
            }
            if self.players[i].gamestate.game_id == game {
                r.push(self.players[i].id);
            }
            i = i + 1;
        }
        proof {
            assert(self.players@.take(n as int) =~= self.players@);
        }
        r
    }

    /// The end event a mid-match loss (death with no one left, or falling
    /// out of the world) produces for this player: their game, their team
    /// the loser. A player who is not connected or not in a game loses
    /// nothing.
    pub fn lose_event(&self, id: u64) -> (e: Option<EndGameEvent>)
        requires
            self.wf(),
        ensures
            e is Some <==> self.spec_has_player(id) && self.spec_player(
                id,
            ).gamestate.game_id is Some,
            e is Some ==> e->0 == (EndGameEvent {
                game_id: self.spec_player(id).gamestate.game_id->0,
                loser: self.spec_player(id).gamestate.team,
            }),
    {
        match self.get_player(id) {
            Some(p) => match p.gamestate.game_id {
                Some(gid) => Some(EndGameEvent { game_id: gid, loser: p.gamestate.team }),
                None => None,
            },
            None => None,
        }
    }

    /// A player started or stopped sprinting: their next hit carries bonus
    /// knockback exactly while they sprint. An unknown id does nothing.
    pub fn handle_sprint(&mut self, id: u64, sprinting: bool)
        requires
            old(self).wf(),
        ensures
            final(self).wf(),
            final(self).games == old(self).games,
            final(self).queue == old(self).queue,
            final(self).map_layers == old(self).map_layers,
            final(self).num_teams == old(self).num_teams,
            final(self).next_handle == old(self).next_handle,
            !old(self).spec_has_player(id) ==> *final(self) == *old(self),
            old(self).spec_has_player(id) ==> {
                let pi = old(self).spec_player_index(id);
                let po = old(self).players@[pi];
                &&& final(self).players@.len() == old(self).players@.len()
                &&& forall|q: int|
                    0 <= q < old(self).players@.len() && q != pi
                        ==> (#[trigger] final(self).players@[q]) == old(self).players@[q]
                &&& final(self).players@[pi] == (PlayerEntry {
                    combat: CombatState { has_bonus_knockback: sprinting, ..po.combat },
                    ..po
                })
            },
    {
        match self.find_player_index(id) {
            Some(p) => {
                proof {
                    assert(old(self).spec_player_index(id) == p as int) by {
                        let j = old(self).spec_player_index(id);
                        assert(0 <= j < self.players@.len() && self.players@[j].id == id);
                    }
                }
                let pl = &mut self.players[p];
                pl.combat.set_sprinting(sprinting);
            },
            None => {},
        }
    }
}

/// A player's team names one of the configured teams whenever they are in a
/// game, and is the default team whenever they are not. This holds of every
/// well-formed server state, so of every state the systems produce.
pub proof fn lemma_team_valid(s: Server, i: int)
    requires
        s.wf(),
        0 <= i < s.players@.len(),
    ensures
        s.players@[i].gamestate.game_id is Some ==> s.players@[i].gamestate.team < s.num_teams,
        s.players@[i].gamestate.game_id is None ==> s.players@[i].gamestate.team == 0,
{
    assert(s.spec_team_valid(s.players@[i]));
}

} // verus!
