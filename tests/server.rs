use stratepig::codec::{encode_fields, Packet, PacketHeader};
use stratepig::packet::{
    BaseGuardPacket, GameRequestDefaultPacket, MovePacket, UpdateReadyStatePacket,
};
use stratepig::room::{Action, CliConfig, ServerPacket, StratepigError};
use stratepig::server::{GameServer, IdAllocator, InRoomGuard, TimerEvent, MAX_ROOMS};
use stratepig::settings::GameRoomSettings;

fn request(my_id: &str, hosting: bool, name: &str, code: &str) -> GameRequestDefaultPacket {
    GameRequestDefaultPacket {
        my_id: my_id.to_string(),
        is_hosting: hosting,
        username: name.to_string(),
        icon: 1,
        code: code.to_string(),
        data_null: true,
    }
}

fn connect(server: &mut GameServer) -> usize {
    let (id, acts) = server.handle_connection().unwrap();
    assert!(matches!(&acts[0], Action::Send(to, ServerPacket::Welcome(p)) if *to == id && p.my_id == id.to_string()));
    id
}

#[test]
fn ids_start_at_one_and_are_reused() {
    let mut ids = IdAllocator::new();
    assert_eq!(ids.allocate(), Some(1));
    assert_eq!(ids.allocate(), Some(2));
    ids.release(1);
    assert_eq!(ids.allocate(), Some(1));
    assert_eq!(ids.allocate(), Some(3));
}

#[test]
fn host_and_join() {
    let mut server = GameServer::new(CliConfig::default());
    let a = connect(&mut server);
    let b = connect(&mut server);
    let (acts, res) = server.handle_game_request(a, &request("1", true, "pig", ""), None, "WXYZ".to_string(), 5);
    let rid = res.unwrap().unwrap();
    assert!(matches!(&acts[0], Action::Send(_, ServerPacket::ClientInfo(p)) if p.role == 1));
    assert_eq!(server.rooms[0].settings.placement_time, 300);
    let (acts, res) = server.handle_game_request(b, &request("2", false, "pig", "WXYZ"), None, String::new(), 5);
    assert_eq!(res.unwrap(), Some(rid));
    assert!(matches!(&acts[0], Action::Send(_, ServerPacket::ClientInfo(p)) if p.role == 2));
    assert_eq!(server.rooms[0].clients[1].room_player.username, "pig 1");
    assert_eq!(server.room_clients(rid), vec![a, b]);
    let c = connect(&mut server);
    let (acts, res) = server.handle_game_request(c, &request("3", false, "x", "WXYZ"), None, String::new(), 5);
    assert_eq!(res.unwrap(), None);
    assert!(matches!(&acts[0], Action::Send(_, ServerPacket::ErrJoinGame(p)) if p.msg == "That game is full."));
    let (acts, _) = server.handle_game_request(c, &request("3", false, "x", "NOPE"), None, String::new(), 5);
    assert!(matches!(&acts[0], Action::Send(_, ServerPacket::ErrJoinGame(p)) if p.msg == "Could not find the game you were looking for."));
}

#[test]
fn request_validation() {
    let mut server = GameServer::new(CliConfig::default());
    let a = connect(&mut server);
    let (acts, res) = server.handle_game_request(a, &request("9", true, "pig", ""), None, "AAAA".to_string(), 5);
    assert!(acts.is_empty());
    assert!(matches!(res, Err(StratepigError::AssumeWrongId)));
    let (acts, res) = server.handle_game_request(a, &request("1", true, "   ", ""), None, "AAAA".to_string(), 5);
    assert!(matches!(&acts[0], Action::Send(_, ServerPacket::FailCreateGame(_))));
    assert!(res.is_err());
    let (_, res) = server.handle_game_request(a, &request("1", true, "a name far too long", ""), None, "AAAA".to_string(), 5);
    assert!(res.is_err());
    let mut bad_icon = request("1", true, "pig", "");
    bad_icon.icon = 13;
    assert!(server.handle_game_request(a, &bad_icon, None, "AAAA".to_string(), 5).1.is_err());
    assert!(server.rooms.is_empty());
}

#[test]
fn room_capacity_and_codes() {
    let mut server = GameServer::new(CliConfig::default());
    assert!(server.new_room("ABCD".to_string(), GameRoomSettings::default(), 0).is_ok());
    assert!(server.new_room("ABCD".to_string(), GameRoomSettings::default(), 0).is_err());
    for i in 1..MAX_ROOMS {
        let code = format!("C{:03}", i);
        server.new_room(code, GameRoomSettings::default(), 0).unwrap();
    }
    let full = server.new_room("LAST".to_string(), GameRoomSettings::default(), 0);
    assert_eq!(full.unwrap_err(), "There are too many rooms at the moment. Try again later.");
}

#[test]
fn reaper_spares_active_games() {
    let mut server = GameServer::new(CliConfig::default());
    server.new_room("AAAA".to_string(), GameRoomSettings::default(), 0).unwrap();
    server.new_room("BBBB".to_string(), GameRoomSettings::default(), 0).unwrap();
    server.new_room("CCCC".to_string(), GameRoomSettings::default(), 0).unwrap();
    server.rooms[1].in_game = true;
    server.rooms[2].in_game = true;
    server.rooms[2].game_ended = true;
    let kicked = server.prune_rooms(301);
    assert!(kicked.is_empty());
    assert_eq!(server.rooms.len(), 1);
    assert_eq!(server.rooms[0].code, "BBBB");
    server.prune_rooms(1000);
    assert_eq!(server.rooms.len(), 1);
}

#[test]
fn dispatch_with_guards() {
    let mut server = GameServer::new(CliConfig::default());
    let a = connect(&mut server);
    let b = connect(&mut server);
    server.handle_game_request(a, &request("1", true, "a", ""), None, "QQQQ".to_string(), 5).1.unwrap();
    server.handle_game_request(b, &request("2", false, "b", "QQQQ"), None, String::new(), 5).1.unwrap();
    let wrong = UpdateReadyStatePacket { my_id: "2".to_string(), ready: true };
    let packet = Packet { header: PacketHeader { size: 0, id: 2 }, body: encode_fields(&wrong.fields()) };
    let reply = server.handle_data(a, &packet, 1000, 6);
    assert!(matches!(reply.result, Err(StratepigError::AssumeWrongId)));
    let ok = UpdateReadyStatePacket { my_id: "1".to_string(), ready: true };
    let packet = Packet { header: PacketHeader { size: 0, id: 2 }, body: encode_fields(&ok.fields()) };
    let reply = server.handle_data(a, &packet, 1000, 6);
    assert!(reply.result.is_ok());
    assert!(server.rooms[0].clients[0].room_player.ready);
    let mv = MovePacket { my_id: "1".to_string(), from_location: 1, to_location: 2 };
    let packet = Packet { header: PacketHeader { size: 0, id: 8 }, body: encode_fields(&mv.fields()) };
    assert!(matches!(server.handle_data(a, &packet, 1000, 6).result, Err(StratepigError::Default(_))));
    let unknown = Packet { header: PacketHeader { size: 0, id: 99 }, body: vec![] };
    assert!(server.handle_data(a, &unknown, 1000, 6).actions.is_empty());
    let guard = BaseGuardPacket { my_id: "1".to_string() };
    assert!(InRoomGuard.guard(a, &guard.my_id, &server).is_ok());
    let reply = server.handle_data(b, &Packet { header: PacketHeader { size: 0, id: 2 }, body: encode_fields(&UpdateReadyStatePacket { my_id: "2".to_string(), ready: true }.fields()) }, 1000, 6);
    assert!(matches!(reply.actions.last(), Some(Action::StartLobbyTimer(5))));
    server.handle_timer(reply.room.unwrap(), TimerEvent::Lobby, 6000);
    assert!(server.rooms[0].in_game);
}

#[test]
fn disconnect_closes_empty_room() {
    let mut server = GameServer::new(CliConfig::default());
    let a = connect(&mut server);
    server.handle_game_request(a, &request("1", true, "a", ""), None, "ZZZZ".to_string(), 5).1.unwrap();
    assert_eq!(server.rooms.len(), 1);
    server.handle_disconnect(a);
    assert!(server.rooms.is_empty());
    assert!(server.clients.is_empty());
    assert_eq!(connect(&mut server), 1);
}

#[test]
fn ids_are_sent_in_decimal() {
    let mut server = GameServer::new(CliConfig::default());
    for expected in 1..=12usize {
        let (id, acts) = server.handle_connection().unwrap();
        assert_eq!(id, expected);
        assert!(matches!(&acts[0], Action::Send(_, ServerPacket::Welcome(p)) if p.my_id == expected.to_string()));
    }
}

#[test]
fn blank_names_are_refused_and_taken_names_numbered() {
    let mut server = GameServer::new(CliConfig::default());
    let a = connect(&mut server);
    let (acts, _) = server.handle_game_request(a, &request("1", true, " \t ", ""), None, "AAAA".to_string(), 5);
    assert!(matches!(&acts[0], Action::Send(_, ServerPacket::FailCreateGame(_))));
    server.handle_game_request(a, &request("1", true, "hog", ""), None, "AAAA".to_string(), 5).1.unwrap();
    let b = connect(&mut server);
    server.handle_game_request(b, &request("2", false, "hog", "AAAA"), None, String::new(), 5).1.unwrap();
    assert_eq!(server.rooms[0].clients[1].room_player.username, "hog 1");
}

#[test]
fn join_refused_once_started() {
    let mut server = GameServer::new(CliConfig::default());
    let a = connect(&mut server);
    let b = connect(&mut server);
    let (acts, res) = server.handle_game_request(a, &request("1", true, "a", ""), None, "SSSS".to_string(), 5);
    assert!(res.unwrap().is_some());
    assert_eq!(acts.len(), 3);
    assert!(matches!(&acts[2], Action::Send(to, ServerPacket::GameInfo(p)) if *to == a && p.code == "SSSS"));
    server.rooms[0].in_game = true;
    let (acts, res) = server.handle_game_request(b, &request("2", false, "b", "SSSS"), None, String::new(), 5);
    assert_eq!(res.unwrap(), None);
    assert!(matches!(&acts[0], Action::Send(_, ServerPacket::ErrJoinGame(p)) if p.msg == "That game has already started."));
}

#[test]
fn fallback_code_skips_codes_in_use() {
    let mut server = GameServer::new(CliConfig::default());
    server.new_room("AAAA".to_string(), GameRoomSettings::default(), 0).unwrap();
    server.new_room("AAAB".to_string(), GameRoomSettings::default(), 0).unwrap();
    assert_eq!(server.fresh_code(), "AAAC");
    let code = server.pick_code();
    assert_eq!(code.len(), 4);
    assert!(!server.code_in_use(&code));
}

#[test]
fn third_guest_name_takes_least_free_number() {
    let mut server = GameServer::new(CliConfig::default());
    let a = connect(&mut server);
    server.handle_game_request(a, &request("1", true, "pig 1", ""), None, "NNNN".to_string(), 5).1.unwrap();
    let b = connect(&mut server);
    server.handle_game_request(b, &request("2", false, "pig", "NNNN"), None, String::new(), 5).1.unwrap();
    assert_eq!(server.rooms[0].clients[1].room_player.username, "pig");
    let safe = server.rooms[0].generate_safe_username(&"pig".to_string());
    assert_eq!(safe, "pig 2");
}
