use minibit::color::ArmorColors;
use minibit::game::{stage_clears_title, stage_sound, stage_title, Game, StagePling};
use minibit::player::ItemStack;
use minibit::server::Server;
use std::collections::HashMap;

fn bare_game(created_at: u64, stage: u8) -> Game {
    Game {
        map: 1,
        layer: 0,
        players: Vec::new(),
        created_at,
        stage,
        data: HashMap::new(),
    }
}

#[test]
fn stage_advances_once_per_elapsed_threshold() {
    let mut g = bare_game(100, 0);
    assert_eq!(g.advance_stage(100), Some(1));
    assert_eq!(g.advance_stage(100), None);
    assert_eq!(g.advance_stage(101), Some(2));
    assert_eq!(g.advance_stage(101), None);
    assert_eq!(g.advance_stage(102), Some(3));
    assert_eq!(g.advance_stage(103), Some(4));
    assert_eq!(g.advance_stage(104), Some(5));
    assert_eq!(g.advance_stage(200), None);
    assert_eq!(g.stage, 5);
}

#[test]
fn stage_skips_no_level_on_a_long_stall() {
    // even after a long stall the counter climbs one level per check
    let mut g = bare_game(100, 1);
    assert_eq!(g.advance_stage(1000), Some(2));
    assert_eq!(g.advance_stage(1000), Some(3));
    assert_eq!(g.advance_stage(1000), Some(4));
    assert_eq!(g.advance_stage(1000), Some(5));
    assert_eq!(g.advance_stage(1000), None);
}

#[test]
fn elapsed_is_zero_when_the_clock_ran_backwards() {
    let g = bare_game(100, 1);
    assert_eq!(g.elapsed_secs(40), 0);
    assert_eq!(g.elapsed_secs(100), 0);
    assert_eq!(g.elapsed_secs(107), 7);
}

#[test]
fn countdown_titles() {
    assert_eq!(stage_title(0), None);
    assert_eq!(stage_title(1), Some("3"));
    assert_eq!(stage_title(2), Some("2"));
    assert_eq!(stage_title(3), Some("1"));
    assert_eq!(stage_title(4), Some("GO!"));
    assert_eq!(stage_title(5), None);
}

#[test]
fn only_the_final_stage_clears_the_title() {
    assert!(!stage_clears_title(0));
    assert!(!stage_clears_title(3));
    assert!(!stage_clears_title(4));
    assert!(stage_clears_title(5));
    assert!(!stage_clears_title(6));
}

#[test]
fn countdown_sounds() {
    assert_eq!(stage_sound(1), Some(StagePling::Low));
    assert_eq!(stage_sound(3), Some(StagePling::Low));
    assert_eq!(stage_sound(4), Some(StagePling::High));
    assert_eq!(stage_sound(5), None);
}

#[test]
fn hits_respect_the_invulnerability_window() {
    let mut s = Server::new(3, 2);
    let _a = s.init_client();
    let _b = s.init_client();
    let evs = s.check_queue(0);
    s.start_game(&evs[0]);
    let parts = s.games[0].game.players.clone();
    let (x, y) = (parts[0], parts[1]);
    let r1 = s.handle_attack(x, y, 10, 1);
    assert!(r1.landed);
    let r2 = s.handle_attack(x, y, 15, 1);
    assert!(!r2.landed);
    let r3 = s.handle_attack(x, y, 20, 1);
    assert!(r3.landed);
    assert_eq!(s.get_player(y).unwrap().health, 18);
}

#[test]
fn hits_between_players_of_different_games_do_nothing() {
    let mut s = Server::new(3, 2);
    let mut ids = Vec::new();
    for _ in 0..4 {
        ids.push(s.init_client());
    }
    let evs = s.check_queue(0);
    assert_eq!(evs.len(), 2);
    s.start_game(&evs[0]);
    s.start_game(&evs[1]);
    let g0 = s.games[0].game.players.clone();
    let g1 = s.games[1].game.players.clone();
    let r = s.handle_attack(g0[0], g1[0], 100, 5);
    assert!(!r.landed);
    assert_eq!(s.get_player(g1[0]).unwrap().health, 20);
}

#[test]
fn hits_outside_any_game_do_nothing() {
    let mut s = Server::new(3, 2);
    let a = s.init_client();
    let b = s.init_client();
    let r = s.handle_attack(a, b, 100, 5);
    assert!(!r.landed);
    assert_eq!(s.get_player(b).unwrap().health, 20);
}

#[test]
fn hits_between_teammates_do_nothing() {
    // a one-team setup puts both players on the same team
    let mut s = Server::new(3, 1);
    let _a = s.init_client();
    let _b = s.init_client();
    let evs = s.check_queue(0);
    s.start_game(&evs[0]);
    let parts = s.games[0].game.players.clone();
    let (x, y) = (parts[0], parts[1]);
    assert_eq!(s.get_player(x).unwrap().gamestate.team, 0);
    assert_eq!(s.get_player(y).unwrap().gamestate.team, 0);
    let r = s.handle_attack(x, y, 100, 5);
    assert!(!r.landed);
    assert_eq!(s.get_player(y).unwrap().health, 20);
}

#[test]
fn a_landed_hit_records_the_attacker_and_respawn_consumes_it() {
    let mut s = Server::new(3, 2);
    let _a = s.init_client();
    let _b = s.init_client();
    let evs = s.check_queue(0);
    s.start_game(&evs[0]);
    let parts = s.games[0].game.players.clone();
    let (x, y) = (parts[0], parts[1]);
    let r = s.handle_attack(x, y, 10, 3);
    assert!(r.landed);
    assert_eq!(s.get_player(y).unwrap().combat.last_attacker, Some(x));
    let loadout = vec![ItemStack { kind: 4, count: 2 }];
    let (respawned, credit) = s.respawn(y, &loadout);
    assert!(respawned);
    assert_eq!(credit, Some(x));
    let p = s.get_player(y).unwrap();
    assert!(p.combat.last_attacker.is_none());
    assert_eq!(p.health, 20);
    assert_eq!(p.inventory, loadout);
    let map = s.games[0].game.map;
    let team = p.gamestate.team;
    assert_eq!(p.loc, minibit::player::Location::TeamSpawn { map, team });
    // outside a game there is no respawn
    let mut t = Server::new(3, 2);
    let lone = t.init_client();
    let (respawned, credit) = t.respawn(lone, &loadout);
    assert!(!respawned);
    assert!(credit.is_none());
    assert!(t.get_player(lone).unwrap().inventory.is_empty());
}

#[test]
fn sprinting_arms_the_knockback_bonus_and_a_hit_spends_it() {
    let mut s = Server::new(3, 2);
    let _a = s.init_client();
    let _b = s.init_client();
    let evs = s.check_queue(0);
    s.start_game(&evs[0]);
    let parts = s.games[0].game.players.clone();
    let (x, y) = (parts[0], parts[1]);
    s.handle_sprint(x, true);
    let r1 = s.handle_attack(x, y, 10, 1);
    assert!(r1.landed);
    assert!(r1.bonus_knockback);
    assert!(!s.get_player(x).unwrap().combat.has_bonus_knockback);
    let r2 = s.handle_attack(x, y, 20, 1);
    assert!(r2.landed);
    assert!(!r2.bonus_knockback);
}

#[test]
fn default_states() {
    let gs = minibit::player::PlayerGameState::default();
    assert!(gs.game_id.is_none());
    assert_eq!(gs.team, 0);
    assert_eq!(gs.wins, 0);
    let cs = minibit::player::CombatState::default();
    assert_eq!(cs.last_attacked_tick, 0);
    assert!(!cs.has_bonus_knockback);
    let us = minibit::player::ItemUseState::default();
    assert_eq!(us.start_tick, i64::MAX);
}

#[test]
fn driver_pass_fires_one_event_per_advancing_game_in_order() {
    let mut s = Server::new(3, 2);
    for _ in 0..4 {
        s.init_client();
    }
    let evs = s.check_queue(500);
    assert_eq!(evs.len(), 2);
    let events = s.gameloop(500);
    assert_eq!(events.len(), 2);
    assert_eq!(events[0].game_id, s.games[0].id);
    assert_eq!(events[1].game_id, s.games[1].id);
    assert_eq!(events[0].stage, 1);
    assert_eq!(events[1].stage, 1);
    // a game already at its final stage fires nothing
    let _ = s.gameloop(505);
    let _ = s.gameloop(505);
    let _ = s.gameloop(505);
    let _ = s.gameloop(505);
    assert_eq!(s.games[0].game.stage, 5);
    let quiet = s.gameloop(600);
    assert!(quiet.is_empty());
}

#[test]
fn unknown_ids_are_no_ops() {
    let mut s = Server::new(3, 2);
    let a = s.init_client();
    let evs = s.handle_disconnect(12345);
    assert!(evs.is_empty());
    assert_eq!(s.queue, vec![a]);
    s.give_loadout(999, &vec![ItemStack { kind: 1, count: 1 }]);
    assert!(s.get_player(a).unwrap().inventory.is_empty());
    s.handle_sprint(999, true);
    let r = s.handle_attack(a, a, 50, 1);
    assert!(!r.landed);
}

#[test]
fn eating_takes_its_time_and_can_be_cancelled() {
    let mut u = minibit::player::ItemUseState::default();
    assert!(!u.finished(1_000_000));
    u.begin(100);
    assert!(!u.finished(100));
    assert!(!u.finished(132));
    assert!(u.finished(133));
    u.cancel();
    assert!(!u.finished(133));
}

#[test]
fn armor_color_values() {
    assert_eq!(ArmorColors::Red.rgb(), 11546150);
    assert_eq!(ArmorColors::Orange.rgb(), 16351261);
    assert_eq!(ArmorColors::Yellow.rgb(), 16701501);
    assert_eq!(ArmorColors::Lime.rgb(), 8439583);
    assert_eq!(ArmorColors::Green.rgb(), 6192150);
    assert_eq!(ArmorColors::LightBlue.rgb(), 3847130);
    assert_eq!(ArmorColors::Cyan.rgb(), 1481884);
    assert_eq!(ArmorColors::Blue.rgb(), 3949738);
    assert_eq!(ArmorColors::Purple.rgb(), 8991416);
    assert_eq!(ArmorColors::Magenta.rgb(), 13061821);
    assert_eq!(ArmorColors::Pink.rgb(), 15961002);
    assert_eq!(ArmorColors::White.rgb(), 16383998);
    assert_eq!(ArmorColors::LightGray.rgb(), 10329495);
    assert_eq!(ArmorColors::Gray.rgb(), 4673362);
    assert_eq!(ArmorColors::Black.rgb(), 1908001);
    assert_eq!(ArmorColors::Brown.rgb(), 8606770);
}
