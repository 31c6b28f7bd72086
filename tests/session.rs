use stratepig::player::{Player, PlayerRole, RoomPlayer};
use stratepig::room::{Action, CliConfig, GameRoomInner, Participant, ServerPacket, StratepigError};
use stratepig::settings::{GameMode, GameRoomSettings};

const NOW: u64 = 1_000_000;

fn participant(id: usize, role: PlayerRole) -> Participant {
    Participant {
        client_id: id,
        room_player: RoomPlayer { username: format!("p{}", id), ready: false, icon: 0 },
        player: Player::new(role),
    }
}

/// A room with two participants and a small custom set: flag, miner, sergeant.
fn small_room() -> GameRoomInner {
    let mut room = GameRoomInner::new(1, "ABCD".to_string(), 10);
    let mut config = vec![0u8; 13];
    config[3] = 1;
    config[5] = 1;
    config[6] = 1;
    room.settings = GameRoomSettings::new_with_pigs(GameMode::Custom, 300, 15, 300, config);
    room.clients.push(participant(1, PlayerRole::One));
    room.clients.push(participant(2, PlayerRole::Two));
    room
}

fn start_placement(room: &mut GameRoomInner, cfg: &CliConfig) {
    room.handle_ready_state_change(1, true, cfg, NOW).unwrap();
    let acts = room.handle_ready_state_change(2, true, cfg, NOW).unwrap();
    assert!(matches!(acts.last(), Some(Action::StartLobbyTimer(5))));
    room.lobby_timer_fired();
    assert!(room.in_game);
    assert_eq!(room.game_phase, 1);
}

/// Flag, miner, sergeant for each side, in each side's own frame.
fn place_both(room: &mut GameRoomInner, cfg: &CliConfig) {
    room.handle_game_player_ready(1, true, &vec![(3, 1), (5, 40), (6, 33)], cfg, NOW).unwrap();
    let acts = room.handle_game_player_ready(2, true, &vec![(3, 31), (5, 5), (6, 33)], cfg, NOW).unwrap();
    assert_eq!(room.game_phase, 2);
    assert!(matches!(acts.last(), Some(Action::StartTurnTimer(PlayerRole::One, false))));
}

fn has_move_data(acts: &[Action], role: u32, from: u8, to: u8) -> bool {
    acts.iter().any(|a| matches!(a, Action::Broadcast(ServerPacket::MoveData(p))
        if p.role == role && p.from == from && p.to == to && p.bundle_null))
}

#[test]
fn move_flow_passes_the_turn() {
    let cfg = CliConfig::default();
    let mut room = small_room();
    start_placement(&mut room, &cfg);
    place_both(&mut room, &cfg);
    assert_eq!(room.current_turn, PlayerRole::One);
    let acts = room.move_received(1, 33, 34, &cfg, NOW).unwrap();
    assert!(has_move_data(&acts, 1, 33, 34));
    assert_eq!(room.current_turn, PlayerRole::Two);
    assert!(matches!(acts.last(), Some(Action::StartTurnTimer(PlayerRole::Two, false))));
    assert!(matches!(acts.first(), Some(Action::Broadcast(_))));
    assert!(matches!(
        acts.iter().filter(|a| matches!(a, Action::CancelGameTimer)).count(),
        1
    ));
    // the other side cannot move out of turn, and one move flips the turn back
    assert!(room.move_received(1, 34, 35, &cfg, NOW).is_err());
    room.move_received(2, 33, 34, &cfg, NOW).unwrap();
    assert_eq!(room.current_turn, PlayerRole::One);
}

#[test]
fn flag_capture_ends_the_game() {
    let cfg = CliConfig::default();
    let mut room = small_room();
    start_placement(&mut room, &cfg);
    place_both(&mut room, &cfg);
    // one's miner walks 40 -> 50 -> 60 -> 70; two's flag on its tile 31 is tile 70
    room.move_received(1, 40, 50, &cfg, NOW).unwrap();
    room.move_received(2, 33, 34, &cfg, NOW).unwrap();
    room.move_received(1, 50, 60, &cfg, NOW).unwrap();
    room.move_received(2, 34, 33, &cfg, NOW).unwrap();
    let acts = room.move_received(1, 60, 70, &cfg, NOW).unwrap();
    assert!(room.game_ended);
    assert!(acts.iter().any(|a| matches!(a, Action::Broadcast(ServerPacket::Win(p))
        if p.role == 1 && p.win_type == 1 && !p.immediate)));
    assert!(acts.iter().any(|a| matches!(a, Action::Broadcast(ServerPacket::MoveDataAttack(p))
        if p.result == 1 && p.init_type == 5 && p.target_type == 3)));
    assert!(!room.game_ticker && !room.room_ticker);
    assert!(matches!(room.move_received(2, 33, 34, &cfg, NOW), Err(StratepigError::Default(_))));
    assert!(matches!(room.move_received(1, 70, 80, &cfg, NOW), Err(StratepigError::Default(_))));
}

#[test]
fn ready_twice_is_ready_once() {
    let cfg = CliConfig::default();
    let mut room = small_room();
    room.handle_ready_state_change(1, true, &cfg, NOW).unwrap();
    let ready_once: Vec<bool> = room.clients.iter().map(|c| c.room_player.ready).collect();
    let ticker_once = room.room_ticker;
    room.handle_ready_state_change(1, true, &cfg, NOW).unwrap();
    let ready_twice: Vec<bool> = room.clients.iter().map(|c| c.room_player.ready).collect();
    assert_eq!(ready_once, ready_twice);
    assert_eq!(ticker_once, room.room_ticker);
    // both ready: the countdown starts once, never twice
    let acts = room.handle_ready_state_change(2, true, &cfg, NOW).unwrap();
    assert!(matches!(acts[1], Action::Broadcast(ServerPacket::RoomTimerUpdate(ref t)) if t.timestamp == 1_005_000));
    let again = room.handle_ready_state_change(2, true, &cfg, NOW).unwrap();
    assert!(!again.iter().any(|a| matches!(a, Action::StartLobbyTimer(_))));
    assert!(room.room_ticker);
}

#[test]
fn unready_cancels_countdown() {
    let cfg = CliConfig::default();
    let mut room = small_room();
    room.handle_ready_state_change(1, true, &cfg, NOW).unwrap();
    room.handle_ready_state_change(2, true, &cfg, NOW).unwrap();
    let acts = room.handle_ready_state_change(1, false, &cfg, NOW).unwrap();
    assert!(matches!(acts[1], Action::CancelLobbyTimer));
    assert!(matches!(acts[2], Action::Broadcast(ServerPacket::RoomTimerUpdate(ref t)) if t.timestamp == -1));
    assert!(!room.room_ticker);
}

#[test]
fn single_player_countdown_is_one_second() {
    let cfg = CliConfig::from_flags(true, false, false, false);
    assert!(cfg.ignore_turns);
    let mut room = small_room();
    let acts = room.handle_ready_state_change(1, true, &cfg, NOW).unwrap();
    assert!(matches!(acts.last(), Some(Action::StartLobbyTimer(1))));
}

#[test]
fn placement_errors() {
    let cfg = CliConfig::default();
    let mut room = small_room();
    assert!(room.handle_game_player_ready(1, true, &vec![(3, 1), (5, 2), (6, 3)], &cfg, NOW).is_err());
    start_placement(&mut room, &cfg);
    let bad: Vec<Vec<(u32, u32)>> = vec![
        vec![(3, 1), (5, 41), (6, 3)],
        vec![(3, 1), (5, 1), (6, 3)],
        vec![(3, 1), (13, 2), (6, 3)],
        vec![(3, 1), (5, 2)],
        vec![(3, 1), (5, 2), (5, 3)],
    ];
    for b in bad {
        assert!(matches!(room.handle_game_player_ready(1, true, &b, &cfg, NOW), Err(StratepigError::Placement(_))));
        assert!(!room.clients[0].player.is_ready);
    }
    room.handle_game_player_ready(1, true, &vec![(3, 1), (5, 2), (6, 3)], &cfg, NOW).unwrap();
    assert!(room.clients[0].player.is_ready);
    assert_eq!(room.clients[0].player.init_board.len(), 3);
    assert_eq!(room.game_phase, 1);
}

#[test]
fn surrender_and_play_again() {
    let cfg = CliConfig::default();
    let mut room = small_room();
    start_placement(&mut room, &cfg);
    place_both(&mut room, &cfg);
    let acts = room.handle_surrender(2, &cfg, NOW).unwrap();
    assert!(acts.iter().any(|a| matches!(a, Action::Broadcast(ServerPacket::Win(p)) if p.role == 1 && p.win_type == 5)));
    assert!(acts.iter().any(|a| matches!(a, Action::Send(1, ServerPacket::EnemyPieceData(p)) if p.data.len() == 3)));
    assert!(room.handle_surrender(1, &cfg, NOW).is_err());
    room.handle_client_play_again(1).unwrap();
    assert!(room.handle_client_play_again(1).is_err());
    room.handle_client_play_again(2).unwrap();
    assert!(!room.game_ended && !room.in_game);
    assert_eq!(room.game_phase, 1);
    assert!(room.clients.iter().all(|c| c.player.board.is_empty() && !c.room_player.ready));
}

#[test]
fn host_leaving_promotes_guest() {
    let mut room = small_room();
    let acts = room.remove_client(1);
    assert_eq!(room.clients.len(), 1);
    assert_eq!(room.clients[0].player.role, PlayerRole::One);
    assert!(matches!(acts.last(), Some(Action::Broadcast(ServerPacket::ClientDisconnect(p))) if p.id == "1"));
}

#[test]
fn buffer_is_charged_on_next_turn() {
    let cfg = CliConfig::default();
    let mut room = small_room();
    start_placement(&mut room, &cfg);
    place_both(&mut room, &cfg);
    assert_eq!(room.clients[0].player.current_buffer, 300);
    room.turn_time_elapsed(NOW);
    room.move_received(1, 33, 34, &cfg, NOW + 2_500).unwrap();
    assert_eq!(room.clients[0].player.current_buffer, 297);
    assert_eq!(room.clients[1].player.current_buffer, 300);
    let acts = room.buffer_elapsed(NOW + 10_000);
    assert!(room.game_ended);
    assert!(matches!(&acts[0], Action::Broadcast(ServerPacket::Win(p)) if p.role == 1 && p.win_type == 4 && p.immediate));
}

#[test]
fn settings_and_items() {
    let mut room = small_room();
    let acts = room.handle_settings_value_update(1, 0, true).unwrap();
    assert!(matches!(&acts[0], Action::Broadcast(ServerPacket::SettingsValueChanged(p)) if p.id == 0 && p.value == 1));
    assert_eq!(room.settings.game_mode, GameMode::Original);
    assert_eq!(room.settings.pig_config[4], 8);
    assert!(room.handle_settings_value_update(2, 0, true).unwrap().is_empty());
    let acts = room.handle_settings_value_update(1, 2, false).unwrap();
    assert!(matches!(&acts[0], Action::Broadcast(ServerPacket::SettingsValueChanged(p)) if p.id == 2 && p.value == 14));
    assert!(room.handle_pig_item_update(1, 13, true).is_err());
    assert!(room.handle_pig_item_update(2, 1, true).is_err());
    assert!(room.handle_pig_item_update(1, 1, true).unwrap().is_empty());
    let acts = room.handle_pig_item_update(1, 1, false).unwrap();
    assert_eq!(acts.len(), 2);
    assert_eq!(room.settings.game_mode, GameMode::Custom);
    assert_eq!(room.settings.pig_config[1], 0);
    assert!(room.handle_update_icon(1, 13).is_err());
    room.handle_update_icon(1, 12).unwrap();
    assert_eq!(room.clients[0].room_player.icon, 12);
}

#[test]
fn scene_loads() {
    let cfg = CliConfig::default();
    let mut room = small_room();
    assert!(room.handle_client_finish_scene_load(1, 2, &cfg).unwrap().is_empty());
    let acts = room.handle_client_finish_scene_load(2, 2, &cfg).unwrap();
    assert!(matches!(&acts[0], Action::Broadcast(ServerPacket::BothClientsLoadedGame(_))));
    room.handle_client_finish_scene_load(1, 1, &cfg).unwrap();
    let acts = room.handle_client_finish_scene_load(2, 1, &cfg).unwrap();
    assert_eq!(acts.len(), 3);
}
