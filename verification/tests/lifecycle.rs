use minibit::game::{DataValue, EndGameEvent, StartGameEvent};
use minibit::player::{ItemStack, Location};
use minibit::server::Server;

fn ids_of_game(s: &Server, g: usize) -> Vec<u64> {
    s.games[g].game.players.clone()
}

#[test]
fn queue_no_op_below_two() {
    let mut s = Server::new(3, 2);
    let _a = s.init_client();
    let evs = s.check_queue(10);
    assert_eq!(evs.len(), 0);
    assert_eq!(s.queue.len(), 1);
    assert_eq!(s.games.len(), 0);
}

#[test]
fn queue_pairs_two_into_one_game() {
    let mut s = Server::new(3, 2);
    let a = s.init_client();
    let b = s.init_client();
    let evs = s.check_queue(42);
    assert_eq!(evs.len(), 1);
    assert_eq!(s.queue.len(), 0);
    assert_eq!(s.games.len(), 1);
    assert_eq!(s.games[0].id, evs[0].0);
    assert_eq!(s.games[0].game.stage, 0);
    assert_eq!(s.games[0].game.created_at, 42);
    assert_eq!(s.games[0].game.map, 0);
    let mut got = ids_of_game(&s, 0);
    got.sort();
    assert_eq!(got, vec![a, b]);
}

#[test]
fn queue_pass_drains_two_per_game_and_keeps_parity() {
    let mut s = Server::new(3, 2);
    let mut all: Vec<u64> = Vec::new();
    for _ in 0..5 {
        all.push(s.init_client());
    }
    let evs = s.check_queue(7);
    assert_eq!(evs.len(), 2);
    assert_eq!(s.queue.len(), 1);
    assert_eq!(s.games.len(), 2);
    // nobody appears or vanishes: the five ids are the leftover plus the
    // four participants
    let mut seen: Vec<u64> = Vec::new();
    seen.extend(s.queue.iter());
    seen.extend(ids_of_game(&s, 0));
    seen.extend(ids_of_game(&s, 1));
    seen.sort();
    all.sort();
    assert_eq!(seen, all);
}

#[test]
fn queue_pass_even_count_empties_queue() {
    let mut s = Server::new(3, 2);
    for _ in 0..6 {
        s.init_client();
    }
    let evs = s.check_queue(7);
    assert_eq!(evs.len(), 3);
    assert_eq!(s.queue.len(), 0);
    assert_eq!(s.games.len(), 3);
}

#[test]
fn fresh_client_defaults() {
    let mut s = Server::new(3, 2);
    let a = s.init_client();
    let p = s.get_player(a).unwrap();
    assert_eq!(p.id, a);
    assert!(p.gamestate.game_id.is_none());
    assert_eq!(p.gamestate.team, 0);
    assert_eq!(p.gamestate.wins, 0);
    assert_eq!(p.health, 20);
    assert_eq!(p.layer, s.map_layers[0]);
    assert!(p.inventory.is_empty());
    assert_eq!(p.loc, Location::LobbySpawn);
    assert_eq!(s.queue, vec![a]);
}

#[test]
fn start_game_assigns_teams_layers_and_arena() {
    let mut s = Server::new(4, 2);
    let _a = s.init_client();
    let _b = s.init_client();
    let evs = s.check_queue(0);
    let game_layer = s.games[0].game.layer;
    s.start_game(&evs[0]);
    let map = s.games[0].game.map;
    assert!(1 <= map && map < 4);
    let parts = ids_of_game(&s, 0);
    for (k, pid) in parts.iter().enumerate() {
        let p = s.get_player(*pid).unwrap();
        assert_eq!(p.gamestate.game_id, Some(evs[0].0));
        assert_eq!(p.gamestate.team, (k % 2) as u8);
        assert_eq!(p.layer, game_layer);
        assert_eq!(p.loc, Location::TeamSpawn { map, team: (k % 2) as u8 });
    }
}

#[test]
fn start_game_unknown_id_is_a_no_op() {
    let mut s = Server::new(3, 2);
    let _a = s.init_client();
    s.start_game(&StartGameEvent(9999));
    assert_eq!(s.games.len(), 0);
    assert_eq!(s.queue.len(), 1);
}

#[test]
fn disconnect_queued_removes_exactly_that_player() {
    let mut s = Server::new(3, 2);
    let a = s.init_client();
    let b = s.init_client();
    let c = s.init_client();
    let evs = s.handle_disconnect(b);
    assert_eq!(evs.len(), 0);
    assert_eq!(s.queue, vec![a, c]);
    assert!(s.get_player(b).is_none());
    assert!(s.get_player(a).is_some());
    assert!(s.get_player(c).is_some());
}

#[test]
fn disconnect_mid_match_fires_one_end_event_with_leaver_team_losing() {
    let mut s = Server::new(3, 2);
    let _a = s.init_client();
    let _b = s.init_client();
    let evs = s.check_queue(0);
    s.start_game(&evs[0]);
    let parts = ids_of_game(&s, 0);
    let leaver = parts[1];
    let leaver_team = s.get_player(leaver).unwrap().gamestate.team;
    let end = s.handle_disconnect(leaver);
    assert_eq!(end.len(), 1);
    assert_eq!(end[0].game_id, evs[0].0);
    assert_eq!(end[0].loser, leaver_team);
    assert!(s.get_player(leaver).is_none());
}

#[test]
fn end_game_returns_participants_to_lobby_and_clears_inventories() {
    let mut s = Server::new(3, 2);
    let _a = s.init_client();
    let _b = s.init_client();
    let evs = s.check_queue(0);
    let gid = evs[0].0;
    s.start_game(&evs[0]);
    let loadout = vec![ItemStack { kind: 7, count: 1 }, ItemStack { kind: 3, count: 64 }];
    s.give_loadout(gid, &loadout);
    let parts = ids_of_game(&s, 0);
    s.end_game(&EndGameEvent { game_id: gid, loser: 1 });
    assert_eq!(s.games.len(), 0);
    for pid in parts.iter() {
        let p = s.get_player(*pid).unwrap();
        assert!(p.inventory.is_empty());
        assert_eq!(p.layer, s.map_layers[0]);
        assert_eq!(p.loc, Location::LobbySpawn);
        assert_eq!(p.health, 20);
        assert!(p.gamestate.game_id.is_none());
        assert_eq!(p.gamestate.team, 0);
        assert!(s.queue.contains(pid));
    }
}

#[test]
fn end_game_awards_wins_to_non_losers_only() {
    let mut s = Server::new(3, 2);
    let _a = s.init_client();
    let _b = s.init_client();
    let evs = s.check_queue(0);
    s.start_game(&evs[0]);
    let parts = ids_of_game(&s, 0);
    // participant at position 0 is team 0, at position 1 team 1
    s.end_game(&EndGameEvent { game_id: evs[0].0, loser: 0 });
    assert_eq!(s.get_player(parts[0]).unwrap().gamestate.wins, 0);
    assert_eq!(s.get_player(parts[1]).unwrap().gamestate.wins, 1);
}

#[test]
fn end_game_skips_disconnected_participants() {
    let mut s = Server::new(3, 2);
    let _a = s.init_client();
    let _b = s.init_client();
    let evs = s.check_queue(0);
    s.start_game(&evs[0]);
    let parts = ids_of_game(&s, 0);
    let end = s.handle_disconnect(parts[0]);
    s.end_game(&end[0]);
    assert_eq!(s.games.len(), 0);
    assert_eq!(s.queue, vec![parts[1]]);
    assert!(s.get_player(parts[1]).unwrap().gamestate.game_id.is_none());
}

#[test]
fn countdown_locks_players_to_their_spawn() {
    let mut s = Server::new(3, 2);
    let _a = s.init_client();
    let _b = s.init_client();
    let evs = s.check_queue(100);
    s.start_game(&evs[0]);
    let map = s.games[0].game.map;
    let parts = ids_of_game(&s, 0);
    // pretend one participant wandered off during the countdown
    let _ = s.gameloop(100);
    assert!(s.games[0].game.stage < 4);
    for pid in parts.iter() {
        let p = s.get_player(*pid).unwrap();
        let team = p.gamestate.team;
        assert_eq!(p.loc, Location::TeamSpawn { map, team });
    }
}

#[test]
fn scenario_full_duel_from_queue_to_requeue() {
    let mut s = Server::new(3, 2);
    let a = s.init_client();
    let b = s.init_client();
    // queue-check pairs them into one game with teams 0 and 1
    let evs = s.check_queue(1000);
    assert_eq!(evs.len(), 1);
    let gid = evs[0].0;
    s.start_game(&evs[0]);
    let teams: Vec<u8> = [a, b]
        .iter()
        .map(|id| s.get_player(*id).unwrap().gamestate.team)
        .collect();
    let mut sorted = teams.clone();
    sorted.sort();
    assert_eq!(sorted, vec![0, 1]);
    // after three simulated seconds the stage reaches 4
    let mut stage_events = Vec::new();
    stage_events.extend(s.gameloop(1000));
    stage_events.extend(s.gameloop(1001));
    stage_events.extend(s.gameloop(1002));
    stage_events.extend(s.gameloop(1003));
    assert_eq!(s.games[0].game.stage, 4);
    let stages: Vec<u8> = stage_events.iter().map(|e| e.stage).collect();
    assert_eq!(stages, vec![1, 2, 3, 4]);
    // loadouts are handed out when play unlocks
    let loadout = vec![ItemStack { kind: 1, count: 1 }];
    s.give_loadout(gid, &loadout);
    assert_eq!(s.get_player(a).unwrap().inventory, loadout);
    assert_eq!(s.get_player(b).unwrap().inventory, loadout);
    // A knocks B's health to zero: exactly one end event, B's team loses
    let b_team = s.get_player(b).unwrap().gamestate.team;
    let r1 = s.handle_attack(a, b, 10, 10);
    assert!(r1.landed);
    assert!(r1.end.is_none());
    let r2 = s.handle_attack(a, b, 20, 10);
    assert!(r2.landed);
    let end = r2.end.expect("health exhausted must end the game");
    assert_eq!(end.game_id, gid);
    assert_eq!(end.loser, b_team);
    // the end event settles the match: winner credited, both requeued
    s.end_game(&end);
    assert_eq!(s.get_player(a).unwrap().gamestate.wins, 1);
    assert_eq!(s.get_player(b).unwrap().gamestate.wins, 0);
    assert!(s.get_player(a).unwrap().gamestate.game_id.is_none());
    assert!(s.get_player(b).unwrap().gamestate.game_id.is_none());
    assert!(s.queue.contains(&a));
    assert!(s.queue.contains(&b));
    assert_eq!(s.games.len(), 0);
}

#[test]
fn goal_below_target_restarts_countdown() {
    let mut s = Server::new(3, 2);
    let _a = s.init_client();
    let _b = s.init_client();
    let evs = s.check_queue(50);
    let gid = evs[0].0;
    s.start_game(&evs[0]);
    let _ = s.gameloop(50);
    let _ = s.gameloop(54);
    assert!(s.games[0].game.stage >= 2);
    let parts = ids_of_game(&s, 0);
    let scorer = parts[0];
    let (ends, stages) = s.record_goal(scorer, 60);
    assert_eq!(ends.len(), 0);
    assert_eq!(stages.len(), 1);
    assert_eq!(stages[0].game_id, gid);
    assert_eq!(stages[0].stage, 0);
    assert_eq!(s.games[0].game.stage, 0);
    assert_eq!(s.games[0].game.created_at, 60);
}

#[test]
fn starting_a_game_zeroes_both_team_scores() {
    let mut s = Server::new(3, 2);
    let _a = s.init_client();
    let _b = s.init_client();
    let evs = s.check_queue(0);
    assert!(s.games[0].game.data.is_empty());
    s.start_game(&evs[0]);
    assert_eq!(s.games[0].game.data.get(&0), Some(&DataValue::Int(0)));
    assert_eq!(s.games[0].game.data.get(&1), Some(&DataValue::Int(0)));
}

#[test]
fn goals_accumulate_and_the_fifth_ends_the_game() {
    let mut s = Server::new(3, 2);
    let _a = s.init_client();
    let _b = s.init_client();
    let evs = s.check_queue(0);
    let gid = evs[0].0;
    s.start_game(&evs[0]);
    let parts = ids_of_game(&s, 0);
    let scorer = parts[0];
    let team = s.get_player(scorer).unwrap().gamestate.team;
    let other = if team == 0 { 1 } else { 0 };
    for goal in 1..=4 {
        let (ends, stages) = s.record_goal(scorer, 0);
        assert!(ends.is_empty(), "goal {} must not end the game", goal);
        assert_eq!(stages.len(), 1);
        match s.games[0].game.data.get(&(team as usize)) {
            Some(DataValue::Int(v)) => assert_eq!(*v, goal),
            found => panic!("score slot should hold the tally, found {:?}", found),
        }
    }
    let (ends, stages) = s.record_goal(scorer, 0);
    assert_eq!(ends.len(), 1, "the fifth goal must reach the target");
    assert!(stages.is_empty());
    assert_eq!(ends[0].game_id, gid);
    assert_eq!(ends[0].loser, other);
    match s.games[0].game.data.get(&(team as usize)) {
        Some(DataValue::Int(v)) => assert_eq!(*v, 5),
        found => panic!("score slot should hold the tally, found {:?}", found),
    }
}

#[test]
fn chat_reaches_exactly_the_sender_game() {
    let mut s = Server::new(3, 2);
    let mut ids = Vec::new();
    for _ in 0..5 {
        ids.push(s.init_client());
    }
    let evs = s.check_queue(0);
    assert_eq!(evs.len(), 2);
    s.start_game(&evs[0]);
    s.start_game(&evs[1]);
    let g0 = ids_of_game(&s, 0);
    let lobby_player = s.queue[0];
    // a participant's message reaches their own game, both teams, nobody else
    let mut heard = s.chat_recipients(g0[0]);
    heard.sort();
    let mut expected = g0.clone();
    expected.sort();
    assert_eq!(heard, expected);
    // a lobby player's message reaches the lobby only
    assert_eq!(s.chat_recipients(lobby_player), vec![lobby_player]);
    // an unknown sender reaches nobody
    assert!(s.chat_recipients(987654).is_empty());
}

#[test]
fn falling_out_of_the_world_loses_the_match() {
    let mut s = Server::new(3, 2);
    let _a = s.init_client();
    let _b = s.init_client();
    let evs = s.check_queue(0);
    s.start_game(&evs[0]);
    let parts = ids_of_game(&s, 0);
    let faller = parts[1];
    let team = s.get_player(faller).unwrap().gamestate.team;
    let ev = s.lose_event(faller).expect("a participant can lose");
    assert_eq!(ev.game_id, evs[0].0);
    assert_eq!(ev.loser, team);
    // outside a game there is nothing to lose
    let mut t = Server::new(3, 2);
    let lone = t.init_client();
    assert!(t.lose_event(lone).is_none());
    assert!(t.lose_event(424242).is_none());
}

#[test]
fn unknown_scorer_changes_nothing() {
    let mut s = Server::new(3, 2);
    let _a = s.init_client();
    let (ends, stages) = s.record_goal(424242, 0);
    assert!(ends.is_empty());
    assert!(stages.is_empty());
}
