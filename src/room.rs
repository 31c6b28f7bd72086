//! A room's session state and the decisions taken on each request and timer event.
//! Handlers change the room and return the actions to carry out: messages to send and
//! timers to start or cancel.

use vstd::prelude::*;

use crate::board::{board_wf, Board, Piece};
use crate::codec::{all_encodable, enc_fields, frame_spec, serialize_fields, Error, Field};
use crate::engine::{
    local_after, move_check, move_outcome, opponent_after, resolve_move, stalemate_spec,
    stalemate_winner, has_move_spec, MoveError,
};
use crate::packet::{
    BothClientsLoadedGamePacket, ClientDisconnectPacket, ClientInfoPacket, ClientPlayAgainPacket,
    EnemyPieceDataPacket, ErrJoinGamePacket, FailCreateGamePacket, GameInfoPacket,
    GamePlayerUpdatedReadyStatePacket, KickedPacket, MoveDataAttackPacket, MoveDataPacket,
    OpponentPigPlacementPacket, PigConfigValueChangedPacket, PigItemValueChangedPacket,
    RoomPlayerAddPacket, RoomPlayerUpdatedReadyStatePacket, RoomTimerUpdatePacket,
    SettingsValueChangedPacket, TurnInitPacket, TurnSecondUpdatePacket, UpdatedPigIconPacket,
    WelcomePacket, WinPacket,
};
use crate::player::{copy_board, opp_spec, role_wire, Player, PlayerRole, RoomPlayer};
use crate::pig::{interaction_wire, pig_index};
use crate::packet::same_values;
use crate::settings::{
    counts_match, first_pair_error, pairs_to_board, settings_update_spec, validate_placement, ConfigError,
    GameMode, GameRoomSettings, PlacementError,
};
use crate::util::{decimal_spec, id_string};

verus! {

/// Errors of a request.
#[derive(Debug)]
pub enum StratepigError {
    /// The body or the frame could not be read.
    Core(Error),
    /// The id echoed in the body is not the connection's.
    AssumeWrongId,
    /// The request needs a room or game the client is not in.
    MissingContext,
    Unspecified,
    /// A rule forbids the request.
    Default(String),
    Move(MoveError),
    Placement(PlacementError),
    Config(ConfigError),
}

impl StratepigError {
    pub fn with(msg: &str) -> (r: Self)
        ensures
            r matches StratepigError::Default(m) && m@ == msg@,
    {
        StratepigError::Default(msg.to_owned())
    }
}

/// Server switches: single-player development mode, immediate start on host, no turns,
/// and logging of every packet.
#[derive(Clone, Copy, Debug, PartialEq, Eq, Structural)]
pub struct CliConfig {
    pub one_player: bool,
    pub swift_game_enter: bool,
    pub ignore_turns: bool,
    pub log_packet_output: bool,
}

impl CliConfig {
    /// The switches as given; single-player mode also turns turns off.
    pub fn from_flags(
        one_player: bool,
        swift_game_enter: bool,
        ignore_turns: bool,
        log_packet_output: bool,
    ) -> (r: Self)
        ensures
            r.one_player == one_player,
            r.swift_game_enter == swift_game_enter,
            r.ignore_turns == (ignore_turns || one_player),
            r.log_packet_output == log_packet_output,
    {
        CliConfig { one_player, swift_game_enter, ignore_turns: ignore_turns || one_player, log_packet_output }
    }

    pub fn default() -> (r: Self)
        ensures
            !r.one_player && !r.swift_game_enter && !r.ignore_turns && !r.log_packet_output,
    {
        CliConfig { one_player: false, swift_game_enter: false, ignore_turns: false, log_packet_output: false }
    }

    pub open spec fn turns_enabled(&self) -> bool {
        !self.one_player && !self.ignore_turns
    }

    pub fn turns_enabled_exec(&self) -> (r: bool)
        ensures
            r == self.turns_enabled(),
    {
        !self.one_player && !self.ignore_turns
    }

    /// Whether this is the default configuration.
    pub fn is_default(&self) -> (r: bool)
        ensures
            r == (!self.one_player && !self.swift_game_enter && !self.ignore_turns && !self.log_packet_output),
    {
        !self.one_player && !self.swift_game_enter && !self.ignore_turns && !self.log_packet_output
    }
}

/// How a game ended.
#[derive(Clone, Copy, Debug, PartialEq, Eq, Structural)]
pub enum WinType {
    FlagCapture,
    Disconnect,
    OutOfMoves,
    OutOfTime,
    Surrender,
}

pub open spec fn win_wire(w: WinType) -> u32 {
    match w {
        WinType::FlagCapture => 1,
        WinType::Disconnect => 2,
        WinType::OutOfMoves => 3,
        WinType::OutOfTime => 4,
        WinType::Surrender => 5,
    }
}

pub open spec fn immediate_spec(w: WinType) -> bool {
    match w {
        WinType::FlagCapture => false,
        WinType::Disconnect => true,
        WinType::OutOfMoves => false,
        WinType::OutOfTime => true,
        WinType::Surrender => true,
    }
}

impl WinType {
    /// Whether clients show the result at once rather than after the move animation.
    pub fn immediate(&self) -> (r: bool)
        ensures
            r == immediate_spec(*self),
    {
        match self {
            WinType::FlagCapture => false,
            WinType::Disconnect => true,
            WinType::OutOfMoves => false,
            WinType::OutOfTime => true,
            WinType::Surrender => true,
        }
    }

    pub fn to_wire(&self) -> (r: u32)
        ensures
            r == win_wire(*self),
    {
        match self {
            WinType::FlagCapture => 1,
            WinType::Disconnect => 2,
            WinType::OutOfMoves => 3,
            WinType::OutOfTime => 4,
            WinType::Surrender => 5,
        }
    }
}

/// A message the server sends.
#[derive(Debug)]
pub enum ServerPacket {
    Welcome(WelcomePacket),
    Kicked(KickedPacket),
    ClientDisconnect(ClientDisconnectPacket),
    RoomPlayerAdd(RoomPlayerAddPacket),
    RoomPlayerUpdatedReadyState(RoomPlayerUpdatedReadyStatePacket),
    FailCreateGame(FailCreateGamePacket),
    ErrJoinGame(ErrJoinGamePacket),
    ClientInfo(ClientInfoPacket),
    GameInfo(GameInfoPacket),
    UpdatedPigIcon(UpdatedPigIconPacket),
    SettingsValueChanged(SettingsValueChangedPacket),
    PigItemValueChanged(PigItemValueChangedPacket),
    PigConfigValueChanged(PigConfigValueChangedPacket),
    RoomTimerUpdate(RoomTimerUpdatePacket),
    BothClientsLoadedGame(BothClientsLoadedGamePacket),
    GamePlayerUpdatedReadyState(GamePlayerUpdatedReadyStatePacket),
    OpponentPigPlacement(OpponentPigPlacementPacket),
    MoveData(MoveDataPacket),
    MoveDataAttack(MoveDataAttackPacket),
    TurnInit(TurnInitPacket),
    TurnSecondUpdate(TurnSecondUpdatePacket),
    Win(WinPacket),
    EnemyPieceData(EnemyPieceDataPacket),
    ClientPlayAgain(ClientPlayAgainPacket),
}

/// The wire id of a message.
pub open spec fn packet_id_spec(p: ServerPacket) -> u8 {
    match p {
        ServerPacket::Welcome(_) => WelcomePacket::ID,
        ServerPacket::Kicked(_) => KickedPacket::ID,
        ServerPacket::ClientDisconnect(_) => ClientDisconnectPacket::ID,
        ServerPacket::RoomPlayerAdd(_) => RoomPlayerAddPacket::ID,
        ServerPacket::RoomPlayerUpdatedReadyState(_) => RoomPlayerUpdatedReadyStatePacket::ID,
        ServerPacket::FailCreateGame(_) => FailCreateGamePacket::ID,
        ServerPacket::ErrJoinGame(_) => ErrJoinGamePacket::ID,
        ServerPacket::ClientInfo(_) => ClientInfoPacket::ID,
        ServerPacket::GameInfo(_) => GameInfoPacket::ID,
        ServerPacket::UpdatedPigIcon(_) => UpdatedPigIconPacket::ID,
        ServerPacket::SettingsValueChanged(_) => SettingsValueChangedPacket::ID,
        ServerPacket::PigItemValueChanged(_) => PigItemValueChangedPacket::ID,
        ServerPacket::PigConfigValueChanged(_) => PigConfigValueChangedPacket::ID,
        ServerPacket::RoomTimerUpdate(_) => RoomTimerUpdatePacket::ID,
        ServerPacket::BothClientsLoadedGame(_) => BothClientsLoadedGamePacket::ID,
        ServerPacket::GamePlayerUpdatedReadyState(_) => GamePlayerUpdatedReadyStatePacket::ID,
        ServerPacket::OpponentPigPlacement(_) => OpponentPigPlacementPacket::ID,
        ServerPacket::MoveData(_) => MoveDataPacket::ID,
        ServerPacket::MoveDataAttack(_) => MoveDataAttackPacket::ID,
        ServerPacket::TurnInit(_) => TurnInitPacket::ID,
        ServerPacket::TurnSecondUpdate(_) => TurnSecondUpdatePacket::ID,
        ServerPacket::Win(_) => WinPacket::ID,
        ServerPacket::EnemyPieceData(_) => EnemyPieceDataPacket::ID,
        ServerPacket::ClientPlayAgain(_) => ClientPlayAgainPacket::ID,
    }
}

/// The body fields of a message.
pub open spec fn packet_fields_spec(p: ServerPacket) -> Seq<Field> {
    match p {
        ServerPacket::Welcome(q) => q.field_values(),
        ServerPacket::Kicked(q) => q.field_values(),
        ServerPacket::ClientDisconnect(q) => q.field_values(),
        ServerPacket::RoomPlayerAdd(q) => q.field_values(),
        ServerPacket::RoomPlayerUpdatedReadyState(q) => q.field_values(),
        ServerPacket::FailCreateGame(q) => q.field_values(),
        ServerPacket::ErrJoinGame(q) => q.field_values(),
        ServerPacket::ClientInfo(q) => q.field_values(),
        ServerPacket::GameInfo(q) => q.field_values(),
        ServerPacket::UpdatedPigIcon(q) => q.field_values(),
        ServerPacket::SettingsValueChanged(q) => q.field_values(),
        ServerPacket::PigItemValueChanged(q) => q.field_values(),
        ServerPacket::PigConfigValueChanged(q) => q.field_values(),
        ServerPacket::RoomTimerUpdate(q) => q.field_values(),
        ServerPacket::BothClientsLoadedGame(q) => q.field_values(),
        ServerPacket::GamePlayerUpdatedReadyState(q) => q.field_values(),
        ServerPacket::OpponentPigPlacement(q) => q.field_values(),
        ServerPacket::MoveData(q) => q.field_values(),
        ServerPacket::MoveDataAttack(q) => q.field_values(),
        ServerPacket::TurnInit(q) => q.field_values(),
        ServerPacket::TurnSecondUpdate(q) => q.field_values(),
        ServerPacket::Win(q) => q.field_values(),
        ServerPacket::EnemyPieceData(q) => q.field_values(),
        ServerPacket::ClientPlayAgain(q) => q.field_values(),
    }
}

impl ServerPacket {
    /// The wire id of the message.
    pub fn id(&self) -> (r: u8)
        ensures
            r == packet_id_spec(*self),
    {
        match self {
            ServerPacket::Welcome(_) => WelcomePacket::ID,
            ServerPacket::Kicked(_) => KickedPacket::ID,
            ServerPacket::ClientDisconnect(_) => ClientDisconnectPacket::ID,
            ServerPacket::RoomPlayerAdd(_) => RoomPlayerAddPacket::ID,
            ServerPacket::RoomPlayerUpdatedReadyState(_) => RoomPlayerUpdatedReadyStatePacket::ID,
            ServerPacket::FailCreateGame(_) => FailCreateGamePacket::ID,
            ServerPacket::ErrJoinGame(_) => ErrJoinGamePacket::ID,
            ServerPacket::ClientInfo(_) => ClientInfoPacket::ID,
            ServerPacket::GameInfo(_) => GameInfoPacket::ID,
            ServerPacket::UpdatedPigIcon(_) => UpdatedPigIconPacket::ID,
            ServerPacket::SettingsValueChanged(_) => SettingsValueChangedPacket::ID,
            ServerPacket::PigItemValueChanged(_) => PigItemValueChangedPacket::ID,
            ServerPacket::PigConfigValueChanged(_) => PigConfigValueChangedPacket::ID,
            ServerPacket::RoomTimerUpdate(_) => RoomTimerUpdatePacket::ID,
            ServerPacket::BothClientsLoadedGame(_) => BothClientsLoadedGamePacket::ID,
            ServerPacket::GamePlayerUpdatedReadyState(_) => GamePlayerUpdatedReadyStatePacket::ID,
            ServerPacket::OpponentPigPlacement(_) => OpponentPigPlacementPacket::ID,
            ServerPacket::MoveData(_) => MoveDataPacket::ID,
            ServerPacket::MoveDataAttack(_) => MoveDataAttackPacket::ID,
            ServerPacket::TurnInit(_) => TurnInitPacket::ID,
            ServerPacket::TurnSecondUpdate(_) => TurnSecondUpdatePacket::ID,
            ServerPacket::Win(_) => WinPacket::ID,
            ServerPacket::EnemyPieceData(_) => EnemyPieceDataPacket::ID,
            ServerPacket::ClientPlayAgain(_) => ClientPlayAgainPacket::ID,
        }
    }

    /// The body fields of the message.
    pub fn fields(&self) -> (r: Vec<Field>)
        ensures
            same_values(r@, packet_fields_spec(*self)),
    {
        match self {
            ServerPacket::Welcome(p) => p.fields(),
            ServerPacket::Kicked(p) => p.fields(),
            ServerPacket::ClientDisconnect(p) => p.fields(),
            ServerPacket::RoomPlayerAdd(p) => p.fields(),
            ServerPacket::RoomPlayerUpdatedReadyState(p) => p.fields(),
            ServerPacket::FailCreateGame(p) => p.fields(),
            ServerPacket::ErrJoinGame(p) => p.fields(),
            ServerPacket::ClientInfo(p) => p.fields(),
            ServerPacket::GameInfo(p) => p.fields(),
            ServerPacket::UpdatedPigIcon(p) => p.fields(),
            ServerPacket::SettingsValueChanged(p) => p.fields(),
            ServerPacket::PigItemValueChanged(p) => p.fields(),
            ServerPacket::PigConfigValueChanged(p) => p.fields(),
            ServerPacket::RoomTimerUpdate(p) => p.fields(),
            ServerPacket::BothClientsLoadedGame(p) => p.fields(),
            ServerPacket::GamePlayerUpdatedReadyState(p) => p.fields(),
            ServerPacket::OpponentPigPlacement(p) => p.fields(),
            ServerPacket::MoveData(p) => p.fields(),
            ServerPacket::MoveDataAttack(p) => p.fields(),
            ServerPacket::TurnInit(p) => p.fields(),
            ServerPacket::TurnSecondUpdate(p) => p.fields(),
            ServerPacket::Win(p) => p.fields(),
            ServerPacket::EnemyPieceData(p) => p.fields(),
            ServerPacket::ClientPlayAgain(p) => p.fields(),
        }
    }

    /// The framed bytes of the message.
    pub fn encode(&self) -> (r: Result<Vec<u8>, Error>)
        ensures
            r matches Ok(v) ==> exists|fs: Seq<Field>| same_values(fs, packet_fields_spec(*self))
                && all_encodable(fs) && #[trigger] frame_spec(packet_id_spec(*self), enc_fields(fs)) == v@,
            r is Err ==> exists|fs: Seq<Field>| same_values(fs, packet_fields_spec(*self))
                && !(all_encodable(fs) && #[trigger] enc_fields(fs).len() <= crate::codec::MAX_PACKET_BODY_SIZE),
    {
        let fields = self.fields();
        let r = serialize_fields(self.id(), &fields);
        proof {
            let fs = fields@;
            if r is Ok {
                assert(frame_spec(packet_id_spec(*self), enc_fields(fs)) == r.unwrap()@);
            } else {
                assert(!(all_encodable(fs) && enc_fields(fs).len() <= crate::codec::MAX_PACKET_BODY_SIZE));
            }
        }
        r
    }
}

/// Something the driver carries out for a room.
#[derive(Debug)]
pub enum Action {
    /// Send to one client.
    Send(usize, ServerPacket),
    /// Send to every participant of the room.
    Broadcast(ServerPacket),
    /// Start the lobby countdown of the given seconds.
    StartLobbyTimer(u64),
    CancelLobbyTimer,
    /// Start the turn timer for the role, after the post-attack pause when set.
    StartTurnTimer(PlayerRole, bool),
    CancelGameTimer,
}

/// Which timers are live after carrying out `acts` from the given state; `None` when an
/// action starts a timer of a kind that is still live.
pub open spec fn run_timers(lobby: bool, game: bool, acts: Seq<Action>) -> Option<(bool, bool)>
    decreases acts.len(),
{
    if acts.len() == 0 {
        Some((lobby, game))
    } else {
        match run_timers(lobby, game, acts.drop_last()) {
            None => None,
            Some((l, g)) => match acts.last() {
                Action::StartLobbyTimer(_) => if l { None } else { Some((true, g)) },
                Action::CancelLobbyTimer => Some((false, g)),
                Action::StartTurnTimer(_, _) => if g { None } else { Some((l, true)) },
                Action::CancelGameTimer => Some((l, false)),
                _ => Some((l, g)),
            },
        }
    }
}

/// Carrying out two action lists one after the other keeps at most one timer of each kind
/// live when each list does so on its own.
pub proof fn lemma_run_timers_concat(l0: bool, g0: bool, a: Seq<Action>, b: Seq<Action>, l1: bool, g1: bool)
    requires
        run_timers(l0, g0, a) == Some((l1, g1)),
    ensures
        run_timers(l0, g0, a + b) == run_timers(l1, g1, b),
    decreases b.len(),
{
    if b.len() == 0 {
        assert(a + b =~= a);
    } else {
        lemma_run_timers_concat(l0, g0, a, b.drop_last(), l1, g1);
        assert((a + b).drop_last() =~= a + b.drop_last());
        assert((a + b).last() == b.last());
    }
}

/// A seated participant.
#[derive(Debug)]
pub struct Participant {
    pub client_id: usize,
    pub room_player: RoomPlayer,
    pub player: Player,
}

/// The state of one room.
#[derive(Debug)]
pub struct GameRoomInner {
    pub id: usize,
    pub code: String,
    /// Seated participants in joining order, at most two.
    pub clients: Vec<Participant>,
    /// Set when the lobby countdown ran out; cleared on disconnect and reset.
    pub in_game: bool,
    /// 1 placement, 2 play.
    pub game_phase: u8,
    pub game_ended: bool,
    pub settings: GameRoomSettings,
    /// The opponent in single-player mode.
    pub fake_enemy: Option<Player>,
    /// Seconds since the epoch of the last activity.
    pub last_seen_at: u64,
    pub current_turn: PlayerRole,
    /// The lobby countdown is live.
    pub room_ticker: bool,
    /// The turn timer is live.
    pub game_ticker: bool,
    /// When the active player's buffer started running, in milliseconds.
    pub last_buffer_timestamp: Option<u64>,
    pub game_start_timestamp: Option<u64>,
}

/// Largest wall-clock value in milliseconds the rules are asked to handle.
pub const MAX_TIME_MS: u64 = 0x0100_0000_0000_0000;

impl GameRoomInner {
    pub open spec fn wf(&self) -> bool {
        &&& self.clients@.len() <= 2
        &&& forall|i: int, j: int|
            0 <= i < self.clients@.len() && 0 <= j < self.clients@.len() && i != j
                ==> self.clients@[i].client_id != self.clients@[j].client_id
        &&& self.settings.wf()
    }

    pub open spec fn seated(&self, id: usize) -> bool {
        exists|i: int| 0 <= i < self.clients@.len() && self.clients@[i].client_id == id
    }

    /// Index of the seat of client `id` (meaningful when seated).
    pub open spec fn seat(&self, id: usize) -> int {
        choose|i: int| 0 <= i < self.clients@.len() && self.clients@[i].client_id == id
    }

    pub proof fn lemma_seat(&self, id: usize, i: int)
        requires
            self.wf(),
            0 <= i < self.clients@.len(),
            self.clients@[i].client_id == id,
        ensures
            self.seated(id),
            self.seat(id) == i,
    {
        assert(self.seated(id));
        let s = self.seat(id);
        assert(self.clients@[s].client_id == id);
    }

    /// An empty room in the lobby with the given id and code.
    pub fn new(id: usize, code: String, now_secs: u64) -> (r: Self)
        ensures
            r.wf(),
            r.id == id,
            r.code@ == code@,
            r.clients@.len() == 0,
            !r.in_game,
            r.game_phase == 1,
            !r.game_ended,
            r.current_turn == PlayerRole::One,
            !r.room_ticker,
            !r.game_ticker,
            r.last_seen_at == now_secs,
    {
        let mut settings = GameRoomSettings::new(crate::settings::GameMode::Original, 600, 15, 300);
        settings.pig_config = vec![0u8; 13];
        assert(crate::settings::config_total(settings.pig_config@) == 0) by {
            reveal_with_fuel(crate::settings::config_total, 14);
        }
        GameRoomInner {
            id,
            code,
            clients: Vec::new(),
            in_game: false,
            game_phase: 1,
            game_ended: false,
            settings,
            fake_enemy: None,
            last_seen_at: now_secs,
            current_turn: PlayerRole::One,
            room_ticker: false,
            game_ticker: false,
            last_buffer_timestamp: None,
            game_start_timestamp: None,
        }
    }

    /// The seat of client `id`, if seated.
    pub fn find_client(&self, id: usize) -> (r: Option<usize>)
        requires
            self.wf(),
        ensures
            r is Some <==> self.seated(id),
            r matches Some(i) ==> i < self.clients@.len() && self.clients@[i as int].client_id == id
                && i == self.seat(id),
    {
        let mut i: usize = 0;
        while i < self.clients.len()
            invariant
                i <= self.clients@.len(),
                self.wf(),
                forall|k: int| 0 <= k < i ==> self.clients@[k].client_id != id,
            decreases self.clients@.len() - i,
        {
            if self.clients[i].client_id == id {
                proof {
                    assert(self.seated(id));
                    let s = self.seat(id);
                    assert(self.clients@[s].client_id == id);
                }
                return Some(i);
            }
            i += 1;
        }
        None
    }

    /// Whether client `id` is seated here.
    pub fn find_client_any(&self, id: usize) -> (r: bool)
        ensures
            r == self.seated(id),
    {
        let mut i: usize = 0;
        while i < self.clients.len()
            invariant
                i <= self.clients@.len(),
                forall|k: int| 0 <= k < i ==> self.clients@[k].client_id != id,
            decreases self.clients@.len() - i,
        {
            if self.clients[i].client_id == id {
                return true;
            }
            i += 1;
        }
        false
    }

    /// The seat of the participant other than client `id`, if any.
    pub fn other_seat(&self, id: usize) -> (r: Option<usize>)
        requires
            self.wf(),
        ensures
            r matches Some(j) ==> j < self.clients@.len() && self.clients@[j as int].client_id != id,
            r is None ==> forall|k: int| 0 <= k < self.clients@.len() ==> self.clients@[k].client_id == id,
            (r is Some && self.clients@.len() == 2 && self.seated(id)) ==> r.unwrap() == 1 - self.seat(id),
    {
        let mut i: usize = 0;
        while i < self.clients.len()
            invariant
                i <= self.clients@.len(),
                forall|k: int| 0 <= k < i ==> self.clients@[k].client_id == id,
            decreases self.clients@.len() - i,
        {
            if self.clients[i].client_id != id {
                return Some(i);
            }
            i += 1;
        }
        None
    }

    /// The ids of the seated clients.
    pub fn client_ids(&self) -> (r: Vec<usize>)
        ensures
            r@.len() == self.clients@.len(),
            forall|i: int| 0 <= i < r@.len() ==> r@[i] == self.clients@[i].client_id,
    {
        let mut ids: Vec<usize> = Vec::new();
        let mut i: usize = 0;
        while i < self.clients.len()
            invariant
                i <= self.clients@.len(),
                ids@.len() == i,
                forall|k: int| 0 <= k < i ==> ids@[k] == self.clients@[k].client_id,
            decreases self.clients@.len() - i,
        {
            ids.push(self.clients[i].client_id);
            i += 1;
        }
        ids
    }

    /// The lobby countdown ran out: the room enters placement.
    pub fn lobby_timer_fired(&mut self)
        ensures
            final(self).id == old(self).id,
            final(self).code == old(self).code,
            old(self).room_ticker ==> !final(self).room_ticker && final(self).in_game && final(self).game_phase == 1,
            !old(self).room_ticker ==> final(self).room_ticker == old(self).room_ticker && final(self).in_game == old(self).in_game,
            final(self).game_ticker == old(self).game_ticker,
            final(self).clients@ == old(self).clients@,
            final(self).settings == old(self).settings,
            final(self).game_ended == old(self).game_ended,
    {
        if self.room_ticker {
            self.room_ticker = false;
            self.in_game = true;
            self.game_phase = 1;
        }
    }

    /// Stops every timer of the room.
    pub fn abort_all_tickers(&mut self) -> (r: Vec<Action>)
        ensures
            final(self).id == old(self).id,
            final(self).code == old(self).code,
            final(self).last_buffer_timestamp == old(self).last_buffer_timestamp,
            final(self).game_start_timestamp == old(self).game_start_timestamp,
            final(self).fake_enemy == old(self).fake_enemy,
            run_timers(old(self).room_ticker, old(self).game_ticker, r@) == Some((false, false)),
            !final(self).room_ticker,
            !final(self).game_ticker,
            final(self).clients@ == old(self).clients@,
            final(self).settings == old(self).settings,
            final(self).in_game == old(self).in_game,
            final(self).game_phase == old(self).game_phase,
            final(self).game_ended == old(self).game_ended,
            final(self).current_turn == old(self).current_turn,
    {
        let mut acts: Vec<Action> = Vec::new();
        if self.room_ticker {
            acts.push(Action::CancelLobbyTimer);
            self.room_ticker = false;
        }
        if self.game_ticker {
            acts.push(Action::CancelGameTimer);
            self.game_ticker = false;
        }
        proof {
            reveal_with_fuel(run_timers, 3);
            if acts@.len() == 2 {
                assert(acts@.drop_last() =~= seq![Action::CancelLobbyTimer]);
            }
        }
        acts
    }
}

/// Pairs (kind number, count) of a piece configuration, in kind order.
pub open spec fn config_pairs_spec(c: Seq<u8>) -> Seq<(u32, u32)> {
    Seq::new(c.len(), |i: int| (i as u32, c[i] as u32))
}

pub fn config_pairs(c: &Vec<u8>) -> (r: Vec<(u32, u32)>)
    requires
        c@.len() <= 13,
    ensures
        r@ == config_pairs_spec(c@),
{
    let mut v: Vec<(u32, u32)> = Vec::new();
    let mut i: usize = 0;
    while i < c.len()
        invariant
            i <= c@.len() <= 13,
            v@ == config_pairs_spec(c@.subrange(0, i as int)),
        decreases c@.len() - i,
    {
        v.push((i as u32, c[i] as u32));
        i += 1;
        assert(v@ =~= config_pairs_spec(c@.subrange(0, i as int)));
    }
    assert(c@.subrange(0, c@.len() as int) =~= c@);
    v
}

/// The lobby countdown is due once this client is ready: single-player mode, or the other
/// participant is ready too.
pub open spec fn countdown_due(room: GameRoomInner, id: usize, cfg: CliConfig) -> bool {
    cfg.one_player || exists|j: int|
        0 <= j < room.clients@.len() && room.clients@[j].client_id != id && #[trigger] room.clients@[j].room_player.ready
}

/// A ready-state request that changes nothing: the flag already has the value, and the
/// countdown is already in the state the value asks for.
pub open spec fn ready_noop(room: GameRoomInner, id: usize, ready: bool, cfg: CliConfig) -> bool {
    &&& room.seated(id)
    &&& !room.in_game
    &&& room.clients@[room.seat(id)].room_player.ready == ready
    &&& (ready ==> room.room_ticker || !countdown_due(room, id, cfg))
    &&& (!ready ==> !room.room_ticker)
}

/// The room after participant `i` has its lobby ready flag set.
pub open spec fn with_ready(room: GameRoomInner, i: int, ready: bool) -> Seq<Participant> {
    room.clients@.update(i, Participant {
        room_player: RoomPlayer { ready, ..room.clients@[i].room_player },
        ..room.clients@[i]
    })
}

impl GameRoomInner {
    /// The lobby packets announcing every participant, one after the other.
    pub fn room_player_add(&self) -> (r: Vec<Action>)
        requires
            self.clients@.len() <= 2,
        ensures
            r@.len() == self.clients@.len(),
            forall|k: int| 0 <= k < r@.len() ==> ((#[trigger] r@[k]) matches Action::Broadcast(ServerPacket::RoomPlayerAdd(p))
                && p.id@ == decimal_spec(self.clients@[k].client_id as nat)
                && p.client_count == self.clients@.len() as i32
                && p.username@ == self.clients@[k].room_player.username@
                && p.ready == self.clients@[k].room_player.ready
                && p.icon == self.clients@[k].room_player.icon as i32),
    {
        let mut acts: Vec<Action> = Vec::new();
        let mut i: usize = 0;
        while i < self.clients.len()
            invariant
                i <= self.clients@.len() <= 2,
                acts@.len() == i,
                forall|k: int| 0 <= k < i ==> ((#[trigger] acts@[k]) matches Action::Broadcast(ServerPacket::RoomPlayerAdd(p))
                    && p.id@ == decimal_spec(self.clients@[k].client_id as nat)
                    && p.client_count == self.clients@.len() as i32
                    && p.username@ == self.clients@[k].room_player.username@
                    && p.ready == self.clients@[k].room_player.ready
                    && p.icon == self.clients@[k].room_player.icon as i32),
            decreases self.clients@.len() - i,
        {
            let c = &self.clients[i];
            let packet = RoomPlayerAddPacket {
                id: id_string(c.client_id),
                client_count: self.clients.len() as i32,
                username: c.room_player.username.clone(),
                ready: c.room_player.ready,
                icon: c.room_player.icon as i32,
            };
            acts.push(Action::Broadcast(ServerPacket::RoomPlayerAdd(packet)));
            i += 1;
        }
        acts
    }

    /// The room's code and settings.
    pub fn game_info(&self) -> (r: GameInfoPacket)
        requires
            self.settings.wf(),
        ensures
            r.code@ == self.code@,
            r.game_mode == crate::settings::mode_wire(self.settings.game_mode) as i32,
            r.placement_time == self.settings.placement_time,
            r.turn_time == self.settings.turn_time,
            r.buffer_time == self.settings.buffer_time,
            r.pig_config@ == config_pairs_spec(self.settings.pig_config@),
    {
        GameInfoPacket {
            code: self.code.clone(),
            game_mode: self.settings.game_mode.to_wire() as i32,
            placement_time: self.settings.placement_time,
            turn_time: self.settings.turn_time,
            buffer_time: self.settings.buffer_time,
            pig_config: config_pairs(&self.settings.pig_config),
        }
    }

    /// A participant toggles the lobby ready flag. Once both are ready (or in single-player
    /// mode) the countdown starts; un-readying cancels it and clears the clients' timer.
    pub fn handle_ready_state_change(&mut self, id: usize, ready: bool, cfg: &CliConfig, now_ms: u64) -> (r: Result<Vec<Action>, StratepigError>)
        requires
            old(self).wf(),
            now_ms <= MAX_TIME_MS,
        ensures
            final(self).id == old(self).id,
            final(self).code == old(self).code,
            final(self).wf(),
            !old(self).seated(id) ==> (r matches Err(StratepigError::MissingContext) && *final(self) == *old(self)),
            old(self).seated(id) && old(self).in_game ==> (r matches Err(StratepigError::Default(_)) && *final(self) == *old(self)),
            old(self).seated(id) && !old(self).in_game ==> r is Ok,
            old(self).seated(id) && !old(self).in_game ==> final(self).clients@ == with_ready(*old(self), old(self).seat(id), ready),
            old(self).seated(id) && !old(self).in_game ==> final(self).room_ticker == (if ready {
                old(self).room_ticker || countdown_due(*old(self), id, *cfg)
            } else {
                false
            }),
            old(self).seated(id) && !old(self).in_game ==> final(self).in_game == old(self).in_game
                && final(self).game_ticker == old(self).game_ticker && final(self).settings == old(self).settings
                && final(self).current_turn == old(self).current_turn && final(self).game_phase == old(self).game_phase
                && final(self).game_ended == old(self).game_ended,
            r matches Ok(acts) ==> run_timers(old(self).room_ticker, old(self).game_ticker, acts@) == Some((final(self).room_ticker, final(self).game_ticker)),
            r matches Ok(acts) ==> (acts@[0] matches Action::Broadcast(ServerPacket::RoomPlayerUpdatedReadyState(p))
                    && p.id@ == decimal_spec(id as nat) && p.ready == ready),
            r matches Ok(acts) ==> (ready && countdown_due(*old(self), id, *cfg) && !old(self).room_ticker) ==> acts@.len() == 3
                    && (acts@[1] matches Action::Broadcast(ServerPacket::RoomTimerUpdate(t))
                        && t.timestamp == now_ms + (if cfg.one_player { 1000int } else { 5000int }) && t.server_now == now_ms)
                    && acts@[2] == Action::StartLobbyTimer(if cfg.one_player { 1 } else { 5 }),
            r matches Ok(acts) ==> (ready && !(countdown_due(*old(self), id, *cfg) && !old(self).room_ticker)) ==> acts@.len() == 1,
            r matches Ok(acts) ==> !ready ==> (acts@.last() matches Action::Broadcast(ServerPacket::RoomTimerUpdate(t))
                    && t.timestamp == -1 && t.server_now == now_ms),
            r matches Ok(acts) ==> !ready ==> acts@.len() == (if old(self).room_ticker { 3int } else { 2int }),
            r is Ok && ready ==> ready_noop(*final(self), id, true, *cfg),
            ready_noop(*old(self), id, ready, *cfg) ==> *final(self) == *old(self),
    {
        let i = match self.find_client(id) {
            Some(i) => i,
            None => return Err(StratepigError::MissingContext),
        };
        if self.in_game {
            return Err(StratepigError::with("cannot update ready state in game"));
        }
        let ghost old_room = *self;
        if self.clients[i].room_player.ready != ready {
            let mut p = self.clients.remove(i);
            p.room_player.ready = ready;
            self.clients.insert(i, p);
            assert(self.clients@ =~= with_ready(old_room, i as int, ready));
        } else {
            assert(self.clients@ =~= with_ready(old_room, i as int, ready));
        }
        let mut acts: Vec<Action> = Vec::new();
        acts.push(Action::Broadcast(ServerPacket::RoomPlayerUpdatedReadyState(RoomPlayerUpdatedReadyStatePacket {
            id: id_string(id),
            ready,
        })));
        let ghost a0 = acts@;
        if ready {
            let other = self.other_seat(id);
            let due = if cfg.one_player {
                true
            } else {
                match other {
                    Some(j) => self.clients[j].room_player.ready,
                    None => false,
                }
            };
            proof {
                if !cfg.one_player {
                    if countdown_due(old_room, id, *cfg) {
                        let j = choose|j: int| 0 <= j < old_room.clients@.len() && old_room.clients@[j].client_id != id
                            && #[trigger] old_room.clients@[j].room_player.ready;
                        assert(self.clients@[j].room_player.ready);
                    }
                    if due {
                        let j = other.unwrap();
                        assert(self.clients@[j as int].room_player.ready);
                    }
                }
            }
            if due && !self.room_ticker {
                let secs: u64 = if cfg.one_player { 1 } else { 5 };
                acts.push(Action::Broadcast(ServerPacket::RoomTimerUpdate(RoomTimerUpdatePacket {
                    timestamp: now_ms as i128 + secs as i128 * 1000,
                    server_now: now_ms as u128,
                })));
                acts.push(Action::StartLobbyTimer(secs));
                self.room_ticker = true;
                proof {
                    reveal_with_fuel(run_timers, 4);
                    assert(acts@.drop_last().drop_last() =~= a0);
                    assert(acts@.drop_last().last() == acts@[1]);
                }
            } else {
                proof {
                    reveal_with_fuel(run_timers, 2);
                }
            }
            proof {
                assert(countdown_due(*self, id, *cfg) == countdown_due(old_room, id, *cfg)) by {
                    if countdown_due(*self, id, *cfg) && !cfg.one_player {
                        let j = choose|j: int| 0 <= j < self.clients@.len() && self.clients@[j].client_id != id
                            && #[trigger] self.clients@[j].room_player.ready;
                        assert(old_room.clients@[j].room_player.ready);
                    }
                    if countdown_due(old_room, id, *cfg) && !cfg.one_player {
                        let j = choose|j: int| 0 <= j < old_room.clients@.len() && old_room.clients@[j].client_id != id
                            && #[trigger] old_room.clients@[j].room_player.ready;
                        assert(self.clients@[j].room_player.ready);
                    }
                }
            }
        } else {
            let was = self.room_ticker;
            if self.room_ticker {
                acts.push(Action::CancelLobbyTimer);
                self.room_ticker = false;
            }
            let ghost a1 = acts@;
            acts.push(Action::Broadcast(ServerPacket::RoomTimerUpdate(RoomTimerUpdatePacket {
                timestamp: -1,
                server_now: now_ms as u128,
            })));
            proof {
                reveal_with_fuel(run_timers, 4);
                assert(acts@.drop_last() =~= a1);
                if was {
                    assert(a1.drop_last() =~= a0);
                }
            }
        }
        proof {
            assert(self.clients@[i as int].client_id == id);
            self.lemma_seat(id, i as int);
        }
        Ok(acts)
    }
}

/// (stable id, kind number) of each piece of an initial board.
pub open spec fn piece_data_spec(b: Seq<Piece>) -> Seq<(u8, u8)> {
    Seq::new(b.len(), |i: int| (b[i].id, pig_index(b[i].pig) as u8))
}

pub fn piece_data(b: &Board) -> (r: Vec<(u8, u8)>)
    ensures
        r@ == piece_data_spec(b@),
{
    let mut v: Vec<(u8, u8)> = Vec::new();
    let mut i: usize = 0;
    while i < b.len()
        invariant
            i <= b@.len(),
            v@ == piece_data_spec(b@.subrange(0, i as int)),
        decreases b@.len() - i,
    {
        v.push((b[i].id, b[i].pig.index()));
        i += 1;
        assert(v@ =~= piece_data_spec(b@.subrange(0, i as int)));
    }
    assert(b@.subrange(0, b@.len() as int) =~= b@);
    v
}

/// The tiles of a board's pieces, in order.
pub open spec fn locations_spec(b: Seq<Piece>) -> Seq<u8> {
    Seq::new(b.len(), |i: int| b[i].location)
}

pub fn locations(b: &Board) -> (r: Vec<u8>)
    ensures
        r@ == locations_spec(b@),
{
    let mut v: Vec<u8> = Vec::new();
    let mut i: usize = 0;
    while i < b.len()
        invariant
            i <= b@.len(),
            v@ == locations_spec(b@.subrange(0, i as int)),
        decreases b@.len() - i,
    {
        v.push(b[i].location);
        i += 1;
        assert(v@ =~= locations_spec(b@.subrange(0, i as int)));
    }
    assert(b@.subrange(0, b@.len() as int) =~= b@);
    v
}

/// Whether a board satisfies `board_wf`.
pub fn board_is_wf(b: &Board) -> (r: bool)
    ensures
        r == board_wf(b@),
{
    let mut i: usize = 0;
    while i < b.len()
        invariant
            i <= b@.len(),
            forall|k: int| 0 <= k < i ==> crate::board::in_bounds_spec(#[trigger] b@[k].location as int)
                && !crate::board::is_water(b@[k].location as int),
            forall|k: int, m: int| 0 <= k < i && 0 <= m < b@.len() && k != m ==> b@[k].location != b@[m].location,
        decreases b@.len() - i,
    {
        let t = b[i].location;
        if t < 1 || t > 100 || crate::board::is_water_tile(t) {
            return false;
        }
        let mut j: usize = 0;
        while j < b.len()
            invariant
                j <= b@.len(),
                i < b@.len(),
                t == b@[i as int].location,
                forall|m: int| 0 <= m < j && m != i ==> b@[m].location != t,
            decreases b@.len() - j,
        {
            if j != i && b[j].location == t {
                return false;
            }
            j += 1;
        }
        i += 1;
    }
    true
}

/// Remaining buffer, in seconds, of the first participant playing the side whose turn it is
/// (0 when no one plays it).
pub open spec fn active_buffer(room: GameRoomInner) -> u64 {
    if room.clients@.len() > 0 && room.clients@[0].player.role == room.current_turn {
        room.clients@[0].player.current_buffer
    } else if room.clients@.len() > 1 && room.clients@[1].player.role == room.current_turn {
        room.clients@[1].player.current_buffer
    } else {
        0
    }
}

/// Seconds of buffer used since `start_ms`, rounded up.
pub open spec fn used_secs(start_ms: u64, now_ms: u64) -> int {
    if now_ms <= start_ms {
        0
    } else {
        (now_ms - start_ms + 999) / 1000
    }
}

impl GameRoomInner {
    /// The seat of the participant playing `role`, if any.
    pub fn seat_of_role(&self, role: PlayerRole) -> (r: Option<usize>)
        ensures
            r matches Some(i) ==> i < self.clients@.len() && self.clients@[i as int].player.role == role
                && forall|k: int| 0 <= k < i ==> self.clients@[k].player.role != role,
            r is None ==> forall|k: int| 0 <= k < self.clients@.len() ==> self.clients@[k].player.role != role,
    {
        let mut i: usize = 0;
        while i < self.clients.len()
            invariant
                i <= self.clients@.len(),
                forall|k: int| 0 <= k < i ==> self.clients@[k].player.role != role,
            decreases self.clients@.len() - i,
        {
            if self.clients[i].player.role == role {
                return Some(i);
            }
            i += 1;
        }
        None
    }

    /// Starts the turn of `current_turn`, replacing a running turn timer. When the previous
    /// player's buffer was running, the seconds it used are taken off that player's buffer.
    pub fn turn_start(&mut self, delay: bool, now_ms: u64) -> (r: Vec<Action>)
        requires
            old(self).wf(),
        ensures
            final(self).id == old(self).id,
            final(self).code == old(self).code,
            final(self).game_start_timestamp == old(self).game_start_timestamp,
            final(self).fake_enemy == old(self).fake_enemy,
            final(self).wf(),
            run_timers(old(self).room_ticker, old(self).game_ticker, r@) == Some((final(self).room_ticker, final(self).game_ticker)),
            final(self).game_ticker,
            !final(self).room_ticker,
            r@.len() >= 1,
            r@.last() == Action::StartTurnTimer(old(self).current_turn, delay),
            final(self).current_turn == old(self).current_turn,
            final(self).game_ended == old(self).game_ended,
            final(self).game_phase == old(self).game_phase,
            final(self).in_game == old(self).in_game,
            final(self).settings == old(self).settings,
            final(self).last_buffer_timestamp is None,
            final(self).clients@.len() == old(self).clients@.len(),
            forall|k: int| 0 <= k < old(self).clients@.len() ==> {
                let p = old(self).clients@[k];
                let q = #[trigger] final(self).clients@[k];
                &&& q.client_id == p.client_id
                &&& q.room_player == p.room_player
                &&& q.player.role == p.player.role
                &&& q.player.board == p.player.board
                &&& q.player.init_board == p.player.init_board
                &&& q.player.is_ready == p.player.is_ready
                &&& q.player.play_again == p.player.play_again
                &&& q.player.scene_index == p.player.scene_index
                &&& q.player.current_buffer == (match old(self).last_buffer_timestamp {
                    Some(ts) => if p.player.role != old(self).current_turn {
                        if p.player.current_buffer >= used_secs(ts, now_ms) {
                            (p.player.current_buffer - used_secs(ts, now_ms)) as u64
                        } else {
                            0
                        }
                    } else {
                        p.player.current_buffer
                    },
                    None => p.player.current_buffer,
                })
            },
    {
        let ghost before = self.clients@;
        match self.last_buffer_timestamp {
            Some(ts) => {
                self.last_buffer_timestamp = None;
                let used: u64 = if now_ms <= ts { 0 } else { (now_ms - ts) / 1000 + if (now_ms - ts) % 1000 != 0 { 1 } else { 0 } };
                assert(used == used_secs(ts, now_ms));
                let ghost snap = *self;
                let mut k: usize = 0;
                while k < self.clients.len()
                    invariant
                        k <= self.clients@.len(),
                        self.clients@.len() == before.len(),
                        before.len() <= 2,
                        self.settings.wf(),
                        self.settings == snap.settings,
                        self.game_ended == snap.game_ended,
                        self.game_phase == snap.game_phase,
                        self.in_game == snap.in_game,
                        self.room_ticker == snap.room_ticker,
                        self.game_ticker == snap.game_ticker,
                        self.current_turn == snap.current_turn,
                        self.last_buffer_timestamp == snap.last_buffer_timestamp,
                        self.fake_enemy == snap.fake_enemy,
                        self.game_start_timestamp == snap.game_start_timestamp,
                        self.id == snap.id,
                        self.code == snap.code,
                        forall|m: int, n: int| 0 <= m < before.len() && 0 <= n < before.len() && m != n
                            ==> before[m].client_id != before[n].client_id,
                        used == used_secs(ts, now_ms),
                        forall|m: int| 0 <= m < before.len() ==> {
                            let p = before[m];
                            let q = #[trigger] self.clients@[m];
                            &&& q.client_id == p.client_id
                            &&& q.room_player == p.room_player
                            &&& q.player.role == p.player.role
                            &&& q.player.board == p.player.board
                            &&& q.player.init_board == p.player.init_board
                            &&& q.player.is_ready == p.player.is_ready
                            &&& q.player.play_again == p.player.play_again
                            &&& q.player.scene_index == p.player.scene_index
                            &&& q.player.current_buffer == (if m < k && p.player.role != self.current_turn {
                                if p.player.current_buffer >= used {
                                    (p.player.current_buffer - used) as u64
                                } else {
                                    0
                                }
                            } else {
                                p.player.current_buffer
                            })
                        },
                    decreases self.clients@.len() - k,
                {
                    if self.clients[k].player.role != self.current_turn {
                        let mut p = self.clients.remove(k);
                        p.player.current_buffer = if p.player.current_buffer >= used { p.player.current_buffer - used } else { 0 };
                        self.clients.insert(k, p);
                    }
                    k += 1;
                }
                assert(self.wf());
            },
            None => {},
        }
        let mut acts: Vec<Action> = Vec::new();
        let ghost start = acts@;
        if self.room_ticker {
            acts.push(Action::CancelLobbyTimer);
            self.room_ticker = false;
        }
        let ghost am = acts@;
        if self.game_ticker {
            acts.push(Action::CancelGameTimer);
            self.game_ticker = false;
        }
        let ghost a0 = acts@;
        acts.push(Action::StartTurnTimer(self.current_turn, delay));
        self.game_ticker = true;
        proof {
            reveal_with_fuel(run_timers, 4);
            assert(acts@.drop_last() =~= a0);
            if a0.len() == 2 {
                assert(a0.drop_last() =~= am);
                assert(am.len() == 1);
                assert(am.drop_last() =~= start);
            } else if a0.len() == 1 {
                assert(a0.drop_last() =~= start);
            }
            assert(acts@.drop_last() =~= a0);
        }
        acts
    }

    /// The turn timer's turn began: announce whose turn it is and its deadline.
    pub fn turn_began(&self, now_ms: u64) -> (r: Vec<Action>)
        requires
            now_ms <= MAX_TIME_MS,
        ensures
            r@.len() == 2,
            r@[0] matches Action::Broadcast(ServerPacket::TurnInit(p)) && p.role == role_wire(self.current_turn),
            r@[1] matches Action::Broadcast(ServerPacket::TurnSecondUpdate(p)) && p.role == role_wire(self.current_turn)
                && p.turn_timestamp == now_ms + self.settings.turn_time * 1000 && p.server_now == now_ms && !p.is_buffer,
    {
        let role = self.current_turn.to_wire();
        let mut acts: Vec<Action> = Vec::new();
        acts.push(Action::Broadcast(ServerPacket::TurnInit(TurnInitPacket { role })));
        acts.push(Action::Broadcast(ServerPacket::TurnSecondUpdate(TurnSecondUpdatePacket {
            role,
            turn_timestamp: crate::util::unix_timestamp_to(now_ms, self.settings.turn_time as u64),
            server_now: now_ms as u128,
            is_buffer: false,
        })));
        acts
    }

    /// The active player's own turn time ran out: the buffer starts running.
    pub fn turn_time_elapsed(&mut self, now_ms: u64) -> (r: Vec<Action>)
        requires
            now_ms <= MAX_TIME_MS,
            old(self).clients@.len() <= 2,
        ensures
            final(self).id == old(self).id,
            final(self).code == old(self).code,
            final(self).last_buffer_timestamp == Some(now_ms),
            final(self).clients@ == old(self).clients@,
            final(self).current_turn == old(self).current_turn,
            final(self).game_ended == old(self).game_ended,
            final(self).room_ticker == old(self).room_ticker,
            final(self).game_ticker == old(self).game_ticker,
            final(self).settings == old(self).settings,
            final(self).in_game == old(self).in_game,
            final(self).game_phase == old(self).game_phase,
            r@.len() == 1,
            r@[0] matches Action::Broadcast(ServerPacket::TurnSecondUpdate(p)) && p.role == role_wire(old(self).current_turn)
                && p.server_now == now_ms && p.is_buffer && p.turn_timestamp == now_ms + active_buffer(*old(self)) * 1000,
    {
        let role = self.current_turn.to_wire();
        let buffer = self.active_buffer_secs();
        let mut acts: Vec<Action> = Vec::new();
        acts.push(Action::Broadcast(ServerPacket::TurnSecondUpdate(TurnSecondUpdatePacket {
            role,
            turn_timestamp: now_ms as u128 + buffer as u128 * 1000,
            server_now: now_ms as u128,
            is_buffer: true,
        })));
        self.last_buffer_timestamp = Some(now_ms);
        acts
    }

    /// Remaining buffer, in seconds, of the participant whose turn it is.
    pub fn active_buffer_secs(&self) -> (r: u64)
        requires
            self.clients@.len() <= 2,
        ensures
            r == active_buffer(*self),
    {
        match self.seat_of_role(self.current_turn) {
            Some(k) => self.clients[k].player.current_buffer,
            None => 0,
        }
    }

    /// Milliseconds since the game started (0 before it did).
    pub fn elapsed_ms(&self, now_ms: u64) -> (r: u64)
        ensures
            r == (match self.game_start_timestamp {
                Some(s) => if now_ms >= s { (now_ms - s) as u64 } else { 0 },
                None => 0,
            }),
    {
        match self.game_start_timestamp {
            Some(s) => if now_ms >= s { now_ms - s } else { 0 },
            None => 0,
        }
    }

    /// The active player's buffer ran out: the other side wins on time.
    pub fn buffer_elapsed(&mut self, now_ms: u64) -> (r: Vec<Action>)
        ensures
            final(self).id == old(self).id,
            final(self).code == old(self).code,
            final(self).game_ended,
            !final(self).game_ticker,
            final(self).room_ticker == old(self).room_ticker,
            final(self).clients@ == old(self).clients@,
            final(self).current_turn == old(self).current_turn,
            final(self).settings == old(self).settings,
            r@.len() == 1,
            r@[0] matches Action::Broadcast(ServerPacket::Win(p)) && p.role == role_wire(opp_spec(old(self).current_turn))
                && p.win_type == win_wire(WinType::OutOfTime) && p.immediate,
    {
        self.game_ended = true;
        self.game_ticker = false;
        let mut acts: Vec<Action> = Vec::new();
        acts.push(Action::Broadcast(ServerPacket::Win(WinPacket {
            role: self.current_turn.opp().to_wire(),
            win_type: WinType::OutOfTime.to_wire(),
            elapsed: self.elapsed_ms(now_ms),
            immediate: WinType::OutOfTime.immediate(),
        })));
        acts
    }

    /// The board of the other side for the participant on seat `i`: the other participant's,
    /// or the synthetic opponent's in single-player mode.
    pub open spec fn opponent_board(&self, i: int, cfg: CliConfig) -> Option<Seq<Piece>> {
        if cfg.one_player {
            match self.fake_enemy {
                Some(p) => Some(p.board@),
                None => None,
            }
        } else if self.clients@.len() == 2 {
            Some(self.clients@[1 - i].player.board@)
        } else {
            None
        }
    }

    /// Ends the game: stops the timers, announces the winner and shows each participant the
    /// opponent's initial board.
    pub fn broadcast_win(&mut self, role: PlayerRole, win_type: WinType, immediate: bool, cfg: &CliConfig, now_ms: u64) -> (r: Vec<Action>)
        requires
            old(self).wf(),
        ensures
            final(self).id == old(self).id,
            final(self).code == old(self).code,
            final(self).fake_enemy == old(self).fake_enemy,
            final(self).wf(),
            final(self).game_ended,
            !final(self).room_ticker,
            !final(self).game_ticker,
            run_timers(old(self).room_ticker, old(self).game_ticker, r@) is Some,
            final(self).clients@ == old(self).clients@,
            final(self).current_turn == old(self).current_turn,
            final(self).settings == old(self).settings,
            final(self).in_game == old(self).in_game,
            final(self).game_phase == old(self).game_phase,
            exists|k: int| 0 <= k < r@.len() && (#[trigger] r@[k] matches Action::Broadcast(ServerPacket::Win(p))
                && p.role == role_wire(role) && p.win_type == win_wire(win_type) && p.immediate == immediate),
    {
        let mut acts = self.abort_all_tickers();
        self.game_ended = true;
        let ghost a0 = acts@;
        let win = WinPacket {
            role: role.to_wire(),
            win_type: win_type.to_wire(),
            elapsed: self.elapsed_ms(now_ms),
            immediate,
        };
        acts.push(Action::Broadcast(ServerPacket::Win(win)));
        let ghost wi = acts@.len() - 1;
        proof {
            assert(acts@.drop_last() =~= a0);
            reveal_with_fuel(run_timers, 2);
        }
        let mut k: usize = 0;
        while k < self.clients.len()
            invariant
                k <= self.clients@.len() <= 2,
                0 <= wi < acts@.len(),
                acts@[wi] matches Action::Broadcast(ServerPacket::Win(p)) && p.role == role_wire(role)
                    && p.win_type == win_wire(win_type) && p.immediate == immediate,
                run_timers(old(self).room_ticker, old(self).game_ticker, acts@) == Some((false, false)),
            decreases self.clients@.len() - k,
        {
            let data: Option<Vec<(u8, u8)>> = if cfg.one_player && self.clients.len() == 1 {
                match &self.fake_enemy {
                    Some(p) => Some(piece_data(&p.init_board)),
                    None => None,
                }
            } else if self.clients.len() == 2 {
                Some(piece_data(&self.clients[1 - k].player.init_board))
            } else {
                None
            };
            match data {
                Some(d) => {
                    let ghost prev = acts@;
                    acts.push(Action::Send(self.clients[k].client_id, ServerPacket::EnemyPieceData(EnemyPieceDataPacket { data: d })));
                    proof {
                        assert(acts@.drop_last() =~= prev);
                        reveal_with_fuel(run_timers, 2);
                        assert(acts@[wi] == prev[wi]);
                    }
                },
                None => {},
            }
            k += 1;
        }
        acts
    }
}

/// The room's verdict after the out-of-moves check: `None` while both sides can move.
pub open spec fn stalemate_result(room: GameRoomInner, one: int, two: int) -> Option<PlayerRole> {
    stalemate_spec(
        has_move_spec(room.clients@[one].player.board@),
        has_move_spec(room.clients@[two].player.board@),
    )
}

/// The move request is accepted.
pub open spec fn move_accepted(room: GameRoomInner, id: usize, from: u8, to: u8, cfg: CliConfig) -> bool {
    let i = room.seat(id);
    &&& room.seated(id)
    &&& room.game_phase == 2
    &&& !room.game_ended
    &&& (cfg.ignore_turns || room.clients@[i].player.role == room.current_turn)
    &&& room.opponent_board(i, cfg) is Some
    &&& board_wf(room.clients@[i].player.board@)
    &&& board_wf(room.opponent_board(i, cfg).unwrap())
    &&& move_check(room.clients@[i].player.board@, room.opponent_board(i, cfg).unwrap(), from as int, to as int) is None
}

impl GameRoomInner {
    /// Replaces the live board of seat `k`.
    fn set_board(&mut self, k: usize, b: Board)
        requires
            old(self).wf(),
            k < old(self).clients@.len(),
        ensures
            final(self).id == old(self).id,
            final(self).code == old(self).code,
            final(self).wf(),
            final(self).clients@ == old(self).clients@.update(k as int, Participant {
                player: Player { board: b, ..old(self).clients@[k as int].player },
                ..old(self).clients@[k as int]
            }),
            final(self).settings == old(self).settings,
            final(self).game_ended == old(self).game_ended,
            final(self).game_phase == old(self).game_phase,
            final(self).in_game == old(self).in_game,
            final(self).room_ticker == old(self).room_ticker,
            final(self).game_ticker == old(self).game_ticker,
            final(self).current_turn == old(self).current_turn,
            final(self).fake_enemy == old(self).fake_enemy,
            final(self).last_buffer_timestamp == old(self).last_buffer_timestamp,
            final(self).game_start_timestamp == old(self).game_start_timestamp,
    {
        let mut p = self.clients.remove(k);
        p.player.board = b;
        self.clients.insert(k, p);
        assert(self.clients@ =~= old(self).clients@.update(k as int, Participant {
            player: Player { board: b, ..old(self).clients@[k as int].player },
            ..old(self).clients@[k as int]
        }));
    }

    /// The out-of-moves check, unless turns are off: a side none of whose movable pieces
    /// can step loses; when neither can, the game is a tie.
    pub fn run_operations(&mut self, is_placement: bool, cfg: &CliConfig, now_ms: u64) -> (r: Vec<Action>)
        requires
            old(self).wf(),
        ensures
            final(self).id == old(self).id,
            final(self).code == old(self).code,
            final(self).game_ended && !old(self).game_ended ==> !final(self).room_ticker && !final(self).game_ticker,
            final(self).fake_enemy == old(self).fake_enemy,
            final(self).wf(),
            run_timers(old(self).room_ticker, old(self).game_ticker, r@) is Some,
            run_timers(old(self).room_ticker, old(self).game_ticker, r@) == Some((final(self).room_ticker, final(self).game_ticker))
                || final(self).game_ended,
            final(self).clients@ == old(self).clients@,
            final(self).current_turn == old(self).current_turn,
            final(self).settings == old(self).settings,
            final(self).game_phase == old(self).game_phase,
            final(self).in_game == old(self).in_game,
            cfg.ignore_turns ==> r@.len() == 0 && *final(self) == *old(self),
            !final(self).game_ended ==> r@.len() == 0 && *final(self) == *old(self),
            old(self).game_ended ==> final(self).game_ended,
            forall|one: int, two: int|
                !cfg.ignore_turns && 0 <= one < old(self).clients@.len() && 0 <= two < old(self).clients@.len()
                    && old(self).clients@[one].player.role == PlayerRole::One
                    && old(self).clients@[two].player.role == PlayerRole::Two
                    && #[trigger] stalemate_result(*old(self), one, two) is Some ==> final(self).game_ended
                    && exists|k: int| 0 <= k < r@.len() && (#[trigger] r@[k] matches Action::Broadcast(ServerPacket::Win(p))
                        && p.role == role_wire(stalemate_result(*old(self), one, two).unwrap())
                        && p.win_type == win_wire(WinType::OutOfMoves) && p.immediate == is_placement),
            forall|one: int, two: int|
                0 <= one < old(self).clients@.len() && 0 <= two < old(self).clients@.len()
                    && old(self).clients@[one].player.role == PlayerRole::One
                    && old(self).clients@[two].player.role == PlayerRole::Two
                    && #[trigger] stalemate_result(*old(self), one, two) is None ==> *final(self) == *old(self) && r@.len() == 0,
    {
        if cfg.ignore_turns {
            return Vec::new();
        }
        let one = self.seat_of_role(PlayerRole::One);
        let two = self.seat_of_role(PlayerRole::Two);
        match (one, two) {
            (Some(a), Some(b)) => {
                let w = stalemate_winner(&self.clients[a].player.board, &self.clients[b].player.board);
                proof {
                    assert forall|x: int, y: int|
                        0 <= x < old(self).clients@.len() && 0 <= y < old(self).clients@.len()
                            && old(self).clients@[x].player.role == PlayerRole::One
                            && old(self).clients@[y].player.role == PlayerRole::Two implies x == a && y == b by {
                        if x != a {
                            assert(old(self).clients@.len() == 2);
                            assert(x == b || y == a) by {
                                assert(old(self).clients@[a as int].player.role == PlayerRole::One);
                            }
                        }
                        if y != b {
                            assert(old(self).clients@.len() == 2);
                        }
                    }
                }
                match w {
                    Some(role) => self.broadcast_win(role, WinType::OutOfMoves, is_placement, cfg, now_ms),
                    None => Vec::new(),
                }
            },
            _ => Vec::new(),
        }
    }
}

/// Some action announces that `role` won by `win_type`.
pub open spec fn announces_win(acts: Seq<Action>, role: PlayerRole, win_type: WinType, immediate: bool) -> bool {
    exists|k: int| 0 <= k < acts.len() && (#[trigger] acts[k] matches Action::Broadcast(ServerPacket::Win(p))
        && p.role == role_wire(role) && p.win_type == win_wire(win_type) && p.immediate == immediate)
}

pub open spec fn mover_board(room: GameRoomInner, id: usize) -> Seq<Piece> {
    room.clients@[room.seat(id)].player.board@
}

pub open spec fn mover_role(room: GameRoomInner, id: usize) -> PlayerRole {
    room.clients@[room.seat(id)].player.role
}

pub open spec fn target_board(room: GameRoomInner, id: usize, cfg: CliConfig) -> Seq<Piece> {
    room.opponent_board(room.seat(id), cfg).unwrap()
}

/// What an accepted move comes to: `None` for a step, the combat outcome for an attack.
pub open spec fn move_result(room: GameRoomInner, id: usize, from: u8, to: u8, cfg: CliConfig) -> Option<crate::pig::InteractionResult> {
    move_outcome(mover_board(room, id), target_board(room, id, cfg), from as int, to as int)
}

/// An accepted move attacks the opponent's flag.
pub open spec fn flag_taken(room: GameRoomInner, id: usize, from: u8, to: u8, cfg: CliConfig) -> bool {
    let opp = target_board(room, id, cfg);
    move_result(room, id, from, to, cfg) is Some && opp[crate::engine::index_of(opp, 101 - to)].pig == crate::pig::Pig::Flag
}

impl GameRoomInner {
    /// A move request. Checks phase, turn and the move itself; applies it to both boards;
    /// announces it; ends the game on a flag capture or when a side is out of moves;
    /// otherwise passes the turn and, with turns on, starts the next turn timer (after the
    /// attack animation pause when the move was an attack).
    #[verifier::rlimit(60)]
    pub fn move_received(&mut self, id: usize, from: u8, to: u8, cfg: &CliConfig, now_ms: u64) -> (r: Result<Vec<Action>, StratepigError>)
        requires
            old(self).wf(),
        ensures
            final(self).id == old(self).id,
            final(self).code == old(self).code,
            final(self).wf(),
            r is Ok <==> move_accepted(*old(self), id, from, to, *cfg),
            r is Err ==> *final(self) == *old(self),
            !old(self).seated(id) ==> r matches Err(StratepigError::MissingContext),
            r is Ok ==> final(self).clients@[old(self).seat(id)].player.board@ == local_after(
                mover_board(*old(self), id),
                from as int,
                to as int,
                move_result(*old(self), id, from, to, *cfg),
            ),
            r is Ok ==> final(self).opponent_board(old(self).seat(id), *cfg) == Some(opponent_after(
                target_board(*old(self), id, *cfg),
                to as int,
                move_result(*old(self), id, from, to, *cfg),
            )),
            r is Ok ==> final(self).game_phase == 2 && final(self).settings == old(self).settings,
            r matches Ok(acts) ==> (acts@[0] matches Action::Broadcast(ServerPacket::MoveData(p))
                && move_result(*old(self), id, from, to, *cfg) is None && p.role == role_wire(mover_role(*old(self), id))
                && p.from == from && p.to == to && p.bundle_null) || (acts@[0] matches Action::Broadcast(
                ServerPacket::MoveDataAttack(p),
            ) && move_result(*old(self), id, from, to, *cfg) is Some && p.role == role_wire(mover_role(*old(self), id))
                && p.from == from && p.to == to && !p.bundle_null),
            r matches Ok(acts) ==> (acts@[0] matches Action::Broadcast(ServerPacket::MoveDataAttack(p)) ==> {
                let mb = mover_board(*old(self), id);
                let tb = target_board(*old(self), id, *cfg);
                &&& p.result == interaction_wire(move_result(*old(self), id, from, to, *cfg).unwrap())
                &&& p.init_type == pig_index(mb[crate::engine::index_of(mb, from as int)].pig)
                &&& p.target_type == pig_index(tb[crate::engine::index_of(tb, 101 - to)].pig)
            }),
            r is Ok && !flag_taken(*old(self), id, from, to, *cfg) ==> final(self).current_turn == opp_spec(old(self).current_turn),
            r matches Ok(acts) ==> flag_taken(*old(self), id, from, to, *cfg) ==> final(self).game_ended
                && final(self).current_turn == old(self).current_turn && exists|k: int|
                0 <= k < acts@.len() && (#[trigger] acts@[k] matches Action::Broadcast(ServerPacket::Win(p))
                    && p.role == role_wire(mover_role(*old(self), id)) && p.win_type == win_wire(WinType::FlagCapture)
                    && !p.immediate),
            r matches Ok(acts) ==> !final(self).game_ended ==> final(self).current_turn == opp_spec(old(self).current_turn)
                && run_timers(old(self).room_ticker, old(self).game_ticker, acts@) == Some((final(self).room_ticker, final(self).game_ticker)),
            r matches Ok(acts) ==> !final(self).game_ended && cfg.turns_enabled() ==> acts@.last() == Action::StartTurnTimer(
                final(self).current_turn,
                move_result(*old(self), id, from, to, *cfg) is Some,
            ),
            r is Ok ==> !final(self).game_ended && !cfg.turns_enabled() ==> final(self).game_ticker == old(self).game_ticker,
            r is Ok ==> final(self).game_ended ==> !final(self).game_ticker && !final(self).room_ticker,
    {
        let i = match self.find_client(id) {
            Some(i) => i,
            None => return Err(StratepigError::MissingContext),
        };
        if self.game_phase != 2 || self.game_ended {
            return Err(StratepigError::with("game not in correct state to allow move"));
        }
        let current_turn = self.current_turn;
        let role = self.clients[i].player.role;
        if !cfg.ignore_turns && role != current_turn {
            return Err(StratepigError::with("not at correct turn to allow move"));
        }
        let other = self.other_seat(id);
        let opponent_board: Board = if cfg.one_player {
            match &self.fake_enemy {
                Some(p) => copy_board(&p.board),
                None => return Err(StratepigError::Unspecified),
            }
        } else if self.clients.len() == 2 {
            let j = other.unwrap();
            proof {
                assert(j == 1 - i);
            }
            copy_board(&self.clients[j].player.board)
        } else {
            return Err(StratepigError::Unspecified);
        };
        if !board_is_wf(&self.clients[i].player.board) || !board_is_wf(&opponent_board) {
            return Err(StratepigError::Unspecified);
        }
        let res = match resolve_move(&self.clients[i].player.board, &opponent_board, from, to) {
            Ok(res) => res,
            Err(e) => return Err(StratepigError::Move(e)),
        };
        let ghost old_room = *self;
        let attack = res.attack;
        let flag = res.flag_captured;
        self.set_board(i, res.local);
        if cfg.one_player {
            match &mut self.fake_enemy {
                Some(p) => {
                    p.board = res.opponent;
                },
                None => {},
            }
        } else {
            let j = other.unwrap();
            self.set_board(j, res.opponent);
        }
        proof {
            assert(self.clients@[i as int].player.board@ == res.local@);
        }
        let mut acts: Vec<Action> = Vec::new();
        match attack {
            None => {
                acts.push(Action::Broadcast(ServerPacket::MoveData(MoveDataPacket {
                    role: role.to_wire(),
                    from,
                    to,
                    bundle_null: true,
                })));
            },
            Some(report) => {
                acts.push(Action::Broadcast(ServerPacket::MoveDataAttack(MoveDataAttackPacket {
                    role: role.to_wire(),
                    from,
                    to,
                    bundle_null: false,
                    result: report.result.to_wire(),
                    init_type: report.init_type.index() as u32,
                    target_type: report.target_type.index() as u32,
                })));
            },
        }
        let ghost a0 = acts@;
        proof {
            reveal_with_fuel(run_timers, 2);
        }
        if flag {
            let mut w = self.broadcast_win(role, WinType::FlagCapture, WinType::FlagCapture.immediate(), cfg, now_ms);
            let ghost wa = w@;
            acts.append(&mut w);
            proof {
                let k = choose|k: int| 0 <= k < wa.len() && (#[trigger] wa[k] matches Action::Broadcast(ServerPacket::Win(p))
                    && p.role == role_wire(role) && p.win_type == win_wire(WinType::FlagCapture) && !p.immediate);
                assert(acts@[a0.len() + k] == wa[k]);
            }
            return Ok(acts);
        }
        let mut ops = self.run_operations(false, cfg, now_ms);
        let ghost oa = ops@;
        acts.append(&mut ops);
        proof {
            lemma_run_timers_concat(old_room.room_ticker, old_room.game_ticker, a0, oa, old_room.room_ticker, old_room.game_ticker);
            assert(acts@ =~= a0 + oa);
        }
        self.current_turn = current_turn.opp();
        if !self.game_ended && cfg.turns_enabled_exec() {
            let ghost mid = acts@;
            let mut t = self.turn_start(attack.is_some(), now_ms);
            let ghost ta = t@;
            acts.append(&mut t);
            proof {
                lemma_run_timers_concat(old_room.room_ticker, old_room.game_ticker, mid, ta, old_room.room_ticker, old_room.game_ticker);
                assert(acts@ =~= mid + ta);
                assert(acts@.last() == ta.last());
            }
        }
        Ok(acts)
    }
}

/// Once client `id` has placed, play begins: the other participant has placed already, or a
/// lone participant plays the synthetic opponent in single-player mode.
pub open spec fn other_side_ready(room: GameRoomInner, id: usize, cfg: CliConfig) -> bool {
    if room.clients@.len() == 2 {
        room.clients@[1 - room.seat(id)].player.is_ready
    } else {
        room.clients@.len() == 1 && cfg.one_player
    }
}

/// `a` sends client `to` the tiles of the opponent's board `opp`, kinds withheld.
pub open spec fn opponent_tiles_sent(a: Action, to: usize, opp: Seq<Piece>) -> bool {
    a matches Action::Send(c, ServerPacket::OpponentPigPlacement(p)) && c == to && p.locations@ == locations_spec(opp)
}

/// The room after participant `i` has its in-game ready flag set.
pub open spec fn with_game_ready(room: GameRoomInner, i: int, ready: bool) -> Seq<Participant> {
    room.clients@.update(i, Participant { player: Player { is_ready: ready, ..room.clients@[i].player }, ..room.clients@[i] })
}

impl GameRoomInner {
    fn set_game_ready(&mut self, k: usize, ready: bool)
        requires
            old(self).wf(),
            k < old(self).clients@.len(),
        ensures
            final(self).id == old(self).id,
            final(self).code == old(self).code,
            final(self).wf(),
            final(self).clients@ == with_game_ready(*old(self), k as int, ready),
            final(self).settings == old(self).settings,
            final(self).game_ended == old(self).game_ended,
            final(self).game_phase == old(self).game_phase,
            final(self).in_game == old(self).in_game,
            final(self).room_ticker == old(self).room_ticker,
            final(self).game_ticker == old(self).game_ticker,
            final(self).current_turn == old(self).current_turn,
            final(self).fake_enemy == old(self).fake_enemy,
    {
        let mut p = self.clients.remove(k);
        p.player.is_ready = ready;
        self.clients.insert(k, p);
        assert(self.clients@ =~= with_game_ready(*old(self), k as int, ready));
    }

    /// Both sides placed: reveal each side the tiles (not the kinds) of the other, run the
    /// out-of-moves check, enter play with full buffers and, with turns on, start the first
    /// turn.
    fn register_board_data(&mut self, cfg: &CliConfig, now_ms: u64) -> (r: Vec<Action>)
        requires
            old(self).wf(),
            !old(self).game_ended,
        ensures
            final(self).id == old(self).id,
            final(self).code == old(self).code,
            final(self).wf(),
            final(self).game_phase == 2,
            final(self).game_start_timestamp == Some(now_ms),
            final(self).current_turn == old(self).current_turn,
            final(self).clients@.len() == old(self).clients@.len(),
            final(self).settings == old(self).settings,
            final(self).game_ended ==> !final(self).game_ticker && !final(self).room_ticker,
            !final(self).game_ended ==> run_timers(old(self).room_ticker, old(self).game_ticker, r@) == Some((final(self).room_ticker, final(self).game_ticker)),
            !final(self).game_ended && cfg.turns_enabled() ==> r@.last() == Action::StartTurnTimer(final(self).current_turn, false),
            !cfg.one_player && old(self).clients@.len() == 2 ==> r@.len() >= 2 && forall|m: int| 0 <= m < 2 ==> opponent_tiles_sent(
                #[trigger] r@[m],
                old(self).clients@[m].client_id,
                old(self).clients@[1 - m].player.board@,
            ),
            forall|k: int| 0 <= k < final(self).clients@.len() ==> (#[trigger] final(self).clients@[k]).player.current_buffer == old(self).settings.buffer_time,
            forall|k: int| 0 <= k < final(self).clients@.len() ==> {
                &&& (#[trigger] final(self).clients@[k]).client_id == old(self).clients@[k].client_id
                &&& final(self).clients@[k].player.init_board == old(self).clients@[k].player.init_board
                &&& final(self).clients@[k].player.board == old(self).clients@[k].player.board
                &&& final(self).clients@[k].player.is_ready == old(self).clients@[k].player.is_ready
                &&& final(self).clients@[k].player.role == old(self).clients@[k].player.role
            },
    {
        let mut acts: Vec<Action> = Vec::new();
        let mut k: usize = 0;
        while k < self.clients.len()
            invariant
                k <= self.clients@.len() <= 2,
                acts@.len() == k || acts@.len() < k,
                forall|m: int| 0 <= m < acts@.len() ==> (#[trigger] acts@[m]) is Send,
                !cfg.one_player && self.clients@.len() == 2 ==> acts@.len() == k && forall|m: int| 0 <= m < k ==> opponent_tiles_sent(
                    #[trigger] acts@[m],
                    self.clients@[m].client_id,
                    self.clients@[1 - m].player.board@,
                ),
            decreases self.clients@.len() - k,
        {
            let locs: Option<Vec<u8>> = if cfg.one_player {
                match &self.fake_enemy {
                    Some(p) => Some(locations(&p.board)),
                    None => None,
                }
            } else if self.clients.len() == 2 {
                Some(locations(&self.clients[1 - k].player.board))
            } else {
                None
            };
            match locs {
                Some(l) => {
                    acts.push(Action::Send(self.clients[k].client_id, ServerPacket::OpponentPigPlacement(OpponentPigPlacementPacket { locations: l })));
                },
                None => {},
            }
            k += 1;
        }
        let ghost a0 = acts@;
        let ghost snap0 = *self;
        proof {
            assert(run_timers(self.room_ticker, self.game_ticker, a0) == Some((self.room_ticker, self.game_ticker))) by {
                lemma_run_timers_sends(self.room_ticker, self.game_ticker, a0);
            }
        }
        let ghost before_ops = *self;
        let mut ops = self.run_operations(true, cfg, now_ms);
        let ghost oa = ops@;
        acts.append(&mut ops);
        proof {
            if !self.game_ended {
                lemma_run_timers_concat(before_ops.room_ticker, before_ops.game_ticker, a0, oa, before_ops.room_ticker, before_ops.game_ticker);
                assert(acts@ =~= a0 + oa);
            }
        }
        self.game_phase = 2;
        self.game_start_timestamp = Some(now_ms);
        self.last_buffer_timestamp = None;
        let buffer = self.settings.buffer_time as u64;
        let ghost before = self.clients@;
        let ghost snap = *self;
        let mut k: usize = 0;
        while k < self.clients.len()
            invariant
                k <= self.clients@.len(),
                self.clients@.len() == before.len(),
                before.len() <= 2,
                self.settings == snap.settings,
                self.settings.wf(),
                buffer == self.settings.buffer_time,
                self.game_ended == snap.game_ended,
                self.game_phase == snap.game_phase,
                self.in_game == snap.in_game,
                self.room_ticker == snap.room_ticker,
                self.game_ticker == snap.game_ticker,
                self.current_turn == snap.current_turn,
                self.fake_enemy == snap.fake_enemy,
                self.game_start_timestamp == snap.game_start_timestamp,
                self.id == snap.id,
                self.code == snap.code,
                self.last_buffer_timestamp == snap.last_buffer_timestamp,
                forall|m: int, n: int| 0 <= m < before.len() && 0 <= n < before.len() && m != n
                    ==> before[m].client_id != before[n].client_id,
                forall|m: int| 0 <= m < before.len() ==> {
                    &&& (#[trigger] self.clients@[m]).client_id == before[m].client_id
                    &&& self.clients@[m].player.init_board == before[m].player.init_board
                    &&& self.clients@[m].player.board == before[m].player.board
                    &&& self.clients@[m].player.is_ready == before[m].player.is_ready
                    &&& self.clients@[m].player.role == before[m].player.role
                },
                forall|m: int| 0 <= m < k ==> (#[trigger] self.clients@[m]).player.current_buffer == buffer,
            decreases self.clients@.len() - k,
        {
            let mut p = self.clients.remove(k);
            p.player.current_buffer = buffer;
            self.clients.insert(k, p);
            k += 1;
        }
        if !self.game_ended && cfg.turns_enabled_exec() {
            let ghost mid = acts@;
            let mut t = self.turn_start(false, now_ms);
            let ghost ta = t@;
            acts.append(&mut t);
            proof {
                lemma_run_timers_concat(old(self).room_ticker, old(self).game_ticker, mid, ta, snap.room_ticker, snap.game_ticker);
                assert(acts@ =~= mid + ta);
                assert(acts@.last() == ta.last());
            }
        }
        proof {
            if !cfg.one_player && snap0.clients@.len() == 2 {
                assert(acts@.subrange(0, a0.len() as int) =~= a0) by {
                    assert(acts@.len() >= a0.len());
                }
                assert forall|m: int| 0 <= m < 2 implies opponent_tiles_sent(
                    #[trigger] acts@[m],
                    old(self).clients@[m].client_id,
                    old(self).clients@[1 - m].player.board@,
                ) by {
                    assert(acts@[m] == acts@.subrange(0, a0.len() as int)[m]);
                }
            }
        }
        acts
    }

    /// A participant submits a placement (or withdraws it). A valid placement is recorded
    /// as the live and the initial board; when both sides have placed (or the synthetic
    /// opponent mirrors the host in single-player mode) play begins.
    pub fn handle_game_player_ready(&mut self, id: usize, ready: bool, board: &Vec<(u32, u32)>, cfg: &CliConfig, now_ms: u64) -> (r: Result<Vec<Action>, StratepigError>)
        requires
            old(self).wf(),
        ensures
            final(self).id == old(self).id,
            final(self).code == old(self).code,
            final(self).wf(),
            !old(self).seated(id) ==> (r matches Err(StratepigError::MissingContext) && *final(self) == *old(self)),
            old(self).seated(id) && !(old(self).in_game && old(self).game_phase == 1 && !old(self).game_ended)
                ==> (r matches Err(StratepigError::Default(_)) && *final(self) == *old(self)),
            old(self).seated(id) && old(self).in_game && old(self).game_phase == 1 && !old(self).game_ended && !ready ==> {
                &&& r matches Ok(acts) && acts@.len() == 1 && (acts@[0] matches Action::Broadcast(ServerPacket::GamePlayerUpdatedReadyState(p))
                    && p.id@ == decimal_spec(id as nat) && !p.ready)
                &&& final(self).clients@ == with_game_ready(*old(self), old(self).seat(id), false)
            },
            old(self).seated(id) && old(self).in_game && old(self).game_phase == 1 && !old(self).game_ended && ready ==> {
                match first_pair_error(board@) {
                    Some(e) => r == Err::<Vec<Action>, StratepigError>(StratepigError::Placement(e)) && *final(self) == *old(self),
                    None => if !counts_match(pairs_to_board(board@), old(self).settings.pig_config@) {
                        r == Err::<Vec<Action>, StratepigError>(StratepigError::Placement(PlacementError::ConfigMismatch)) && *final(self) == *old(self)
                    } else {
                        &&& r is Ok
                        &&& final(self).clients@[old(self).seat(id)].player.init_board@ == pairs_to_board(board@)
                        &&& final(self).clients@[old(self).seat(id)].player.board@ == pairs_to_board(board@)
                        &&& final(self).clients@[old(self).seat(id)].player.is_ready
                        &&& r.unwrap()@[0] matches Action::Broadcast(ServerPacket::GamePlayerUpdatedReadyState(p))
                            && p.id@ == decimal_spec(id as nat) && p.ready
                    }
                }
            },
            final(self).current_turn == old(self).current_turn,
            r is Ok && ready && old(self).seated(id) && other_side_ready(*old(self), id, *cfg) ==> {
                &&& final(self).game_phase == 2
                &&& final(self).game_start_timestamp == Some(now_ms)
                &&& forall|k: int| 0 <= k < final(self).clients@.len() ==> (#[trigger] final(self).clients@[k]).player.current_buffer
                    == old(self).settings.buffer_time
                &&& !cfg.one_player ==> r.unwrap()@.len() >= 3 && forall|m: int| 0 <= m < 2 ==> opponent_tiles_sent(
                    #[trigger] r.unwrap()@[1 + m],
                    final(self).clients@[m].client_id,
                    final(self).clients@[1 - m].player.board@,
                )
                &&& !final(self).game_ended && cfg.turns_enabled() ==> r.unwrap()@.last() == Action::StartTurnTimer(final(self).current_turn, false)
            },
            r is Ok && ready && old(self).seated(id) && !other_side_ready(*old(self), id, *cfg) ==> final(self).game_phase == 1,
            r is Ok && final(self).game_phase == 2 && !final(self).game_ended ==> run_timers(old(self).room_ticker, old(self).game_ticker, r.unwrap()@)
                == Some((final(self).room_ticker, final(self).game_ticker)),
    {
        let i = match self.find_client(id) {
            Some(i) => i,
            None => return Err(StratepigError::MissingContext),
        };
        if !(self.in_game && self.game_phase == 1 && !self.game_ended) {
            return Err(StratepigError::with("game not in placement"));
        }
        if !ready {
            self.set_game_ready(i, false);
            let mut acts: Vec<Action> = Vec::new();
            acts.push(Action::Broadcast(ServerPacket::GamePlayerUpdatedReadyState(GamePlayerUpdatedReadyStatePacket { id: id_string(id), ready: false })));
            return Ok(acts);
        }
        let pieces = match validate_placement(board, &self.settings.pig_config) {
            Ok(p) => p,
            Err(e) => return Err(StratepigError::Placement(e)),
        };
        let mut p = self.clients.remove(i);
        p.player.is_ready = true;
        p.player.initialize_setup(copy_board(&pieces));
        self.clients.insert(i, p);
        proof {
            assert(self.clients@[i as int].client_id == id);
            assert forall|m: int, n: int| 0 <= m < self.clients@.len() && 0 <= n < self.clients@.len() && m != n
                implies self.clients@[m].client_id != self.clients@[n].client_id by {
                assert(self.clients@[m].client_id == old(self).clients@[m].client_id);
                assert(self.clients@[n].client_id == old(self).clients@[n].client_id);
            }
            self.lemma_seat(id, i as int);
        }
        let mut acts: Vec<Action> = Vec::new();
        acts.push(Action::Broadcast(ServerPacket::GamePlayerUpdatedReadyState(GamePlayerUpdatedReadyStatePacket { id: id_string(id), ready: true })));
        let ghost mid = *self;
        let both = match self.other_seat(id) {
            Some(j) => self.clients[j].player.is_ready,
            None => {
                if cfg.one_player {
                    let mut fake = Player::new(PlayerRole::Two);
                    fake.is_ready = true;
                    fake.initialize_setup(pieces);
                    self.fake_enemy = Some(fake);
                    true
                } else {
                    false
                }
            },
        };
        proof {
            if old(self).clients@.len() == 2 {
                assert(mid.clients@[1 - i] == old(self).clients@[1 - i]);
            }
            assert(both == other_side_ready(*old(self), id, *cfg));
        }
        if both {
            let ghost a0 = acts@;
            let mut more = self.register_board_data(cfg, now_ms);
            let ghost ma = more@;
            acts.append(&mut more);
            proof {
                reveal_with_fuel(run_timers, 2);
                assert(acts@ =~= a0 + ma);
                assert(acts@[0] == a0[0]);
                if !self.game_ended {
                    lemma_run_timers_concat(old(self).room_ticker, old(self).game_ticker, a0, ma, old(self).room_ticker, old(self).game_ticker);
                }
                if !cfg.one_player {
                    assert forall|m: int| 0 <= m < 2 implies opponent_tiles_sent(
                        #[trigger] acts@[1 + m],
                        self.clients@[m].client_id,
                        self.clients@[1 - m].player.board@,
                    ) by {
                        assert(acts@[1 + m] == ma[m]);
                    }
                }
                if !self.game_ended && cfg.turns_enabled() {
                    assert(acts@.last() == ma.last());
                }
            }
        }
        proof {
            assert(self.clients@[i as int].player.init_board@ == pairs_to_board(board@));
        }
        Ok(acts)
    }
}

/// Sends alone start or stop no timer.
pub proof fn lemma_run_timers_sends(l: bool, g: bool, acts: Seq<Action>)
    requires
        forall|m: int| 0 <= m < acts.len() ==> (#[trigger] acts[m]) is Send,
    ensures
        run_timers(l, g, acts) == Some((l, g)),
    decreases acts.len(),
{
    if acts.len() > 0 {
        lemma_run_timers_sends(l, g, acts.drop_last());
        assert(acts.last() is Send);
    }
}

impl GameRoomInner {
    /// A participant gives up: the other side wins.
    pub fn handle_surrender(&mut self, id: usize, cfg: &CliConfig, now_ms: u64) -> (r: Result<Vec<Action>, StratepigError>)
        requires
            old(self).wf(),
        ensures
            final(self).id == old(self).id,
            final(self).code == old(self).code,
            final(self).wf(),
            !old(self).seated(id) ==> (r matches Err(StratepigError::MissingContext) && *final(self) == *old(self)),
            old(self).seated(id) && (!old(self).in_game || old(self).game_ended) ==> (r matches Err(StratepigError::Default(_))
                && *final(self) == *old(self)),
            old(self).seated(id) && old(self).in_game && !old(self).game_ended ==> r is Ok,
            r matches Ok(acts) ==> announces_win(acts@, opp_spec(mover_role(*old(self), id)), WinType::Surrender, true),
            r is Ok ==> final(self).game_ended && !final(self).room_ticker && !final(self).game_ticker,
            r is Ok ==> final(self).clients@ == old(self).clients@,
    {
        let i = match self.find_client(id) {
            Some(i) => i,
            None => return Err(StratepigError::MissingContext),
        };
        if !self.in_game || self.game_ended {
            return Err(StratepigError::with("game not in correct state to allow surrender"));
        }
        let winner = self.clients[i].player.role.opp();
        proof {
            self.lemma_seat(id, i as int);
        }
        let acts = self.broadcast_win(winner, WinType::Surrender, WinType::Surrender.immediate(), cfg, now_ms);
        proof {
            let k = choose|k: int| 0 <= k < acts@.len() && (#[trigger] acts@[k] matches Action::Broadcast(ServerPacket::Win(p))
                && p.role == role_wire(winner) && p.win_type == win_wire(WinType::Surrender) && p.immediate == immediate_spec(WinType::Surrender));
            assert(acts@[k] matches Action::Broadcast(ServerPacket::Win(p)) && p.immediate);
            assert(old(self).seat(id) == i);
            assert(winner == opp_spec(old(self).clients@[old(self).seat(id)].player.role));
            assert(announces_win(acts@, opp_spec(mover_role(*old(self), id)), WinType::Surrender, true));
        }
        Ok(acts)
    }

    /// Back to the lobby for another game: phase, turn, flags and timers are cleared, and
    /// each participant's ready flags, boards, buffer and play-again request.
    pub fn reset(&mut self) -> (r: Vec<Action>)
        requires
            old(self).wf(),
        ensures
            final(self).id == old(self).id,
            final(self).code == old(self).code,
            final(self).wf(),
            final(self).current_turn == PlayerRole::One,
            final(self).game_phase == 1,
            !final(self).in_game,
            !final(self).game_ended,
            !final(self).room_ticker,
            !final(self).game_ticker,
            final(self).last_buffer_timestamp is None,
            final(self).game_start_timestamp is None,
            run_timers(old(self).room_ticker, old(self).game_ticker, r@) == Some((false, false)),
            final(self).clients@.len() == old(self).clients@.len(),
            forall|k: int| 0 <= k < final(self).clients@.len() ==> {
                let q = #[trigger] final(self).clients@[k];
                let p = old(self).clients@[k];
                &&& q.client_id == p.client_id
                &&& q.player.role == p.player.role
                &&& !q.room_player.ready
                &&& !q.player.is_ready
                &&& !q.player.play_again
                &&& q.player.current_buffer == 0
                &&& q.player.board@.len() == 0
                &&& q.player.init_board@.len() == 0
            },
    {
        self.current_turn = PlayerRole::One;
        self.game_phase = 1;
        self.in_game = false;
        self.game_ended = false;
        self.last_buffer_timestamp = None;
        self.game_start_timestamp = None;
        let acts = self.abort_all_tickers();
        let ghost before = self.clients@;
        let ghost snap = *self;
        let mut k: usize = 0;
        while k < self.clients.len()
            invariant
                k <= self.clients@.len(),
                self.clients@.len() == before.len(),
                before.len() <= 2,
                self.settings == snap.settings,
                self.settings.wf(),
                self.game_ended == snap.game_ended,
                self.game_phase == snap.game_phase,
                self.in_game == snap.in_game,
                self.room_ticker == snap.room_ticker,
                self.game_ticker == snap.game_ticker,
                self.current_turn == snap.current_turn,
                self.last_buffer_timestamp == snap.last_buffer_timestamp,
                self.game_start_timestamp == snap.game_start_timestamp,
                self.id == snap.id,
                self.code == snap.code,
                forall|m: int, n: int| 0 <= m < before.len() && 0 <= n < before.len() && m != n
                    ==> before[m].client_id != before[n].client_id,
                forall|m: int| 0 <= m < before.len() ==> (#[trigger] self.clients@[m]).client_id == before[m].client_id
                    && self.clients@[m].player.role == before[m].player.role,
                forall|m: int| 0 <= m < k ==> {
                    let q = #[trigger] self.clients@[m];
                    &&& !q.room_player.ready
                    &&& !q.player.is_ready
                    &&& !q.player.play_again
                    &&& q.player.current_buffer == 0
                    &&& q.player.board@.len() == 0
                    &&& q.player.init_board@.len() == 0
                },
            decreases self.clients@.len() - k,
        {
            let mut p = self.clients.remove(k);
            p.room_player.reset();
            p.player.reset();
            self.clients.insert(k, p);
            k += 1;
        }
        acts
    }

    /// A participant asks for another game once this one ended; when both have asked, the
    /// room goes back to the lobby.
    pub fn handle_client_play_again(&mut self, id: usize) -> (r: Result<Vec<Action>, StratepigError>)
        requires
            old(self).wf(),
        ensures
            final(self).id == old(self).id,
            final(self).code == old(self).code,
            final(self).wf(),
            !old(self).seated(id) ==> (r matches Err(StratepigError::MissingContext) && *final(self) == *old(self)),
            old(self).seated(id) && (!old(self).game_ended || old(self).clients@[old(self).seat(id)].player.play_again)
                ==> (r matches Err(StratepigError::Default(_)) && *final(self) == *old(self)),
            old(self).seated(id) && old(self).game_ended && !old(self).clients@[old(self).seat(id)].player.play_again ==> {
                &&& r matches Ok(acts) && (acts@[0] matches Action::Broadcast(ServerPacket::ClientPlayAgain(p))
                    && p.id@ == decimal_spec(id as nat))
                &&& run_timers(old(self).room_ticker, old(self).game_ticker, r.unwrap()@) is Some
                &&& (exists|j: int| 0 <= j < old(self).clients@.len() && old(self).clients@[j].client_id != id
                        && #[trigger] old(self).clients@[j].player.play_again) ==> {
                    &&& !final(self).game_ended && final(self).game_phase == 1 && !final(self).in_game
                    &&& final(self).current_turn == PlayerRole::One
                    &&& !final(self).room_ticker && !final(self).game_ticker
                    &&& final(self).clients@.len() == old(self).clients@.len()
                    &&& forall|k: int| 0 <= k < final(self).clients@.len() ==> {
                        let q = #[trigger] final(self).clients@[k];
                        &&& !q.player.play_again
                        &&& !q.room_player.ready
                        &&& !q.player.is_ready
                        &&& q.player.board@.len() == 0
                        &&& q.player.init_board@.len() == 0
                        &&& q.player.current_buffer == 0
                        &&& q.client_id == old(self).clients@[k].client_id
                    }
                }
                &&& !(exists|j: int| 0 <= j < old(self).clients@.len() && old(self).clients@[j].client_id != id
                        && #[trigger] old(self).clients@[j].player.play_again) ==> {
                    &&& final(self).game_ended
                    &&& final(self).clients@[old(self).seat(id)].player.play_again
                }
            },
    {
        let i = match self.find_client(id) {
            Some(i) => i,
            None => return Err(StratepigError::MissingContext),
        };
        if !self.game_ended {
            return Err(StratepigError::with("game not in correct state to allow play again"));
        }
        if self.clients[i].player.play_again {
            return Err(StratepigError::with("client already set to play again"));
        }
        let mut acts: Vec<Action> = Vec::new();
        acts.push(Action::Broadcast(ServerPacket::ClientPlayAgain(ClientPlayAgainPacket { id: id_string(id) })));
        let other = self.other_seat(id);
        let mut p = self.clients.remove(i);
        p.player.play_again = true;
        self.clients.insert(i, p);
        proof {
            assert forall|m: int, n: int| 0 <= m < self.clients@.len() && 0 <= n < self.clients@.len() && m != n
                implies self.clients@[m].client_id != self.clients@[n].client_id by {
                assert(self.clients@[m].client_id == old(self).clients@[m].client_id);
                assert(self.clients@[n].client_id == old(self).clients@[n].client_id);
            }
            assert(self.clients@[i as int].client_id == id);
            self.lemma_seat(id, i as int);
            reveal_with_fuel(run_timers, 2);
        }
        let both = match other {
            Some(j) => self.clients[j].player.play_again,
            None => false,
        };
        proof {
            if exists|j: int| 0 <= j < old(self).clients@.len() && old(self).clients@[j].client_id != id
                && #[trigger] old(self).clients@[j].player.play_again {
                let j = choose|j: int| 0 <= j < old(self).clients@.len() && old(self).clients@[j].client_id != id
                    && #[trigger] old(self).clients@[j].player.play_again;
                assert(j == other.unwrap());
            }
        }
        if both {
            let ghost a0 = acts@;
            let mut more = self.reset();
            let ghost ma = more@;
            acts.append(&mut more);
            proof {
                lemma_run_timers_concat(old(self).room_ticker, old(self).game_ticker, a0, ma, old(self).room_ticker, old(self).game_ticker);
                assert(acts@ =~= a0 + ma);
                assert(acts@[0] == a0[0]);
            }
        }
        Ok(acts)
    }

    /// A participant leaves or drops: the seat is freed, the game stops with every timer, the
    /// rest of the room is told, and a remaining guest becomes the host when the host left.
    pub fn remove_client(&mut self, id: usize) -> (r: Vec<Action>)
        requires
            old(self).wf(),
        ensures
            final(self).id == old(self).id,
            final(self).code == old(self).code,
            final(self).wf(),
            !old(self).seated(id) ==> r@.len() == 0 && *final(self) == *old(self),
            old(self).seated(id) ==> {
                &&& final(self).clients@.len() == old(self).clients@.len() - 1
                &&& !final(self).seated(id)
                &&& !final(self).in_game
                &&& !final(self).room_ticker && !final(self).game_ticker
                &&& run_timers(old(self).room_ticker, old(self).game_ticker, r@) == Some((false, false))
                &&& final(self).clients@.len() >= 1 ==> (r@.last() matches Action::Broadcast(ServerPacket::ClientDisconnect(p))
                    && p.id@ == decimal_spec(id as nat) && p.timestamp == 0)
                &&& (final(self).clients@.len() == 1 && old(self).clients@[old(self).seat(id)].player.role == PlayerRole::One)
                    ==> final(self).clients@[0].player.role == PlayerRole::One
                &&& (final(self).clients@.len() == 1 && old(self).clients@[old(self).seat(id)].player.role != PlayerRole::One)
                    ==> final(self).clients@[0].player.role == old(self).clients@[1 - old(self).seat(id)].player.role
            },
    {
        let i = match self.find_client(id) {
            Some(i) => i,
            None => return Vec::new(),
        };
        let left = self.clients.remove(i);
        proof {
            assert forall|m: int, n: int| 0 <= m < self.clients@.len() && 0 <= n < self.clients@.len() && m != n
                implies self.clients@[m].client_id != self.clients@[n].client_id by {
                let m2 = if m < i { m } else { m + 1 };
                let n2 = if n < i { n } else { n + 1 };
                assert(self.clients@[m] == old(self).clients@[m2]);
                assert(self.clients@[n] == old(self).clients@[n2]);
            }
            assert forall|k: int| 0 <= k < self.clients@.len() implies self.clients@[k].client_id != id by {
                let k2 = if k < i { k } else { k + 1 };
                assert(self.clients@[k] == old(self).clients@[k2]);
            }
        }
        self.in_game = false;
        let mut acts = self.abort_all_tickers();
        if self.clients.len() >= 1 {
            let ghost a0 = acts@;
            acts.push(Action::Broadcast(ServerPacket::ClientDisconnect(ClientDisconnectPacket { id: id_string(id), timestamp: 0 })));
            proof {
                reveal_with_fuel(run_timers, 2);
                assert(acts@.drop_last() =~= a0);
            }
        }
        if self.clients.len() == 1 && left.player.role == PlayerRole::One {
            let mut p = self.clients.remove(0);
            p.player.role = PlayerRole::One;
            self.clients.insert(0, p);
        }
        proof {
            if self.clients@.len() == 1 && old(self).clients@[i as int].player.role != PlayerRole::One {
                assert(self.clients@[0] == old(self).clients@[1 - i]);
            }
        }
        acts
    }

    /// A participant finished loading scene `scene_index` (1 the placement scene, 2 the game;
    /// larger indices are recorded as 2 and trigger nothing): when both have, the lobby data
    /// is sent again, or the game is announced as loaded.
    pub fn handle_client_finish_scene_load(&mut self, id: usize, scene_index: u32, cfg: &CliConfig) -> (r: Result<Vec<Action>, StratepigError>)
        requires
            old(self).wf(),
        ensures
            final(self).id == old(self).id,
            final(self).code == old(self).code,
            final(self).wf(),
            !old(self).seated(id) ==> (r matches Err(StratepigError::MissingContext) && *final(self) == *old(self)),
            old(self).seated(id) ==> r is Ok,
            old(self).seated(id) ==> final(self).clients@[old(self).seat(id)].player.scene_index == (if scene_index <= 2 {
                scene_index as u8
            } else {
                2u8
            }),
            final(self).room_ticker == old(self).room_ticker && final(self).game_ticker == old(self).game_ticker,
            r matches Ok(acts) ==> run_timers(old(self).room_ticker, old(self).game_ticker, acts@) == Some((final(self).room_ticker, final(self).game_ticker)),
            r matches Ok(acts) ==> scene_index == 2 && acts@.len() > 0 ==> acts@ =~= seq![Action::Broadcast(ServerPacket::BothClientsLoadedGame(BothClientsLoadedGamePacket {}))],
            r matches Ok(acts) ==> scene_index == 2 && old(self).clients@.len() == 2
                && old(self).clients@[1 - old(self).seat(id)].player.scene_index == 2 ==> acts@.len() == 1,
            r matches Ok(acts) ==> scene_index == 1 && old(self).clients@.len() == 2
                && old(self).clients@[1 - old(self).seat(id)].player.scene_index == 1 ==> acts@.len() == 3,
            r matches Ok(acts) ==> scene_index != 1 && scene_index != 2 ==> acts@.len() == 0,
    {
        let i = match self.find_client(id) {
            Some(i) => i,
            None => return Err(StratepigError::MissingContext),
        };
        {
            let mut p = self.clients.remove(i);
            p.player.scene_index = if scene_index <= 2 { scene_index as u8 } else { 2 };
            self.clients.insert(i, p);
            proof {
                assert forall|m: int, n: int| 0 <= m < self.clients@.len() && 0 <= n < self.clients@.len() && m != n
                    implies self.clients@[m].client_id != self.clients@[n].client_id by {
                    assert(self.clients@[m].client_id == old(self).clients@[m].client_id);
                    assert(self.clients@[n].client_id == old(self).clients@[n].client_id);
                }
            }
        }
        let mut acts: Vec<Action> = Vec::new();
        let both = match self.other_seat(id) {
            Some(j) => self.clients[j].player.scene_index as u32 == scene_index,
            None => cfg.one_player,
        };
        proof {
            if old(self).clients@.len() == 2 {
                assert(self.clients@.len() == 2);
                assert(self.clients@[i as int].client_id == id);
                self.lemma_seat(id, i as int);
                old(self).lemma_seat(id, i as int);
                assert(self.clients@[1 - i] == old(self).clients@[1 - i]);
            }
        }
        if both && scene_index == 2 {
            acts.push(Action::Broadcast(ServerPacket::BothClientsLoadedGame(BothClientsLoadedGamePacket {})));
        } else if both && scene_index == 1 {
            acts = self.room_player_add();
            acts.push(Action::Broadcast(ServerPacket::GameInfo(self.game_info())));
            proof {
                lemma_run_timers_no_timer(self.room_ticker, self.game_ticker, acts@);
            }
        }
        proof {
            reveal_with_fuel(run_timers, 2);
        }
        Ok(acts)
    }

    /// A participant picks icon `icon` (0 to 12).
    pub fn handle_update_icon(&mut self, id: usize, icon: u32) -> (r: Result<Vec<Action>, StratepigError>)
        requires
            old(self).wf(),
        ensures
            final(self).id == old(self).id,
            final(self).code == old(self).code,
            final(self).wf(),
            !old(self).seated(id) ==> (r matches Err(StratepigError::MissingContext) && *final(self) == *old(self)),
            old(self).seated(id) && icon > 12 ==> (r matches Err(StratepigError::Default(_)) && *final(self) == *old(self)),
            old(self).seated(id) && icon <= 12 ==> {
                &&& r matches Ok(acts) && acts@.len() == 1 && (acts@[0] matches Action::Broadcast(ServerPacket::UpdatedPigIcon(p))
                    && p.id@ == decimal_spec(id as nat) && p.icon == icon as i32)
                &&& final(self).clients@[old(self).seat(id)].room_player.icon == icon
                &&& final(self).room_ticker == old(self).room_ticker && final(self).game_ticker == old(self).game_ticker
            },
    {
        let i = match self.find_client(id) {
            Some(i) => i,
            None => return Err(StratepigError::MissingContext),
        };
        if icon > 12 {
            return Err(StratepigError::with("icon out-of-bounds"));
        }
        let mut p = self.clients.remove(i);
        p.room_player.icon = icon as u8;
        self.clients.insert(i, p);
        proof {
            assert forall|m: int, n: int| 0 <= m < self.clients@.len() && 0 <= n < self.clients@.len() && m != n
                implies self.clients@[m].client_id != self.clients@[n].client_id by {
                assert(self.clients@[m].client_id == old(self).clients@[m].client_id);
                assert(self.clients@[n].client_id == old(self).clients@[n].client_id);
            }
        }
        let mut acts: Vec<Action> = Vec::new();
        acts.push(Action::Broadcast(ServerPacket::UpdatedPigIcon(UpdatedPigIconPacket { id: id_string(id), icon: icon as i32 })));
        Ok(acts)
    }

    /// The host raises or lowers a setting (0 the mode, 1 to 3 the times); a guest's request
    /// changes nothing.
    pub fn handle_settings_value_update(&mut self, id: usize, settings_id: u32, increased: bool) -> (r: Result<Vec<Action>, StratepigError>)
        requires
            old(self).wf(),
        ensures
            final(self).id == old(self).id,
            final(self).code == old(self).code,
            final(self).wf(),
            !old(self).seated(id) ==> (r matches Err(StratepigError::MissingContext) && *final(self) == *old(self)),
            old(self).seated(id) && old(self).clients@[old(self).seat(id)].player.role != PlayerRole::One
                ==> (r matches Ok(acts) && acts@.len() == 0 && *final(self) == *old(self)),
            old(self).seated(id) && old(self).clients@[old(self).seat(id)].player.role == PlayerRole::One ==> {
                let upd = settings_update_spec(old(self).settings, settings_id as int, increased);
                &&& r matches Ok(acts) && (match upd.1 {
                    None => acts@.len() == 0,
                    Some(v) => acts@.len() >= 1 && (acts@[0] matches Action::Broadcast(ServerPacket::SettingsValueChanged(p))
                        && p.id == settings_id && p.value == v),
                })
                &&& final(self).settings.game_mode == upd.0.game_mode
                &&& final(self).settings.placement_time == upd.0.placement_time
                &&& final(self).settings.turn_time == upd.0.turn_time
                &&& final(self).settings.buffer_time == upd.0.buffer_time
                &&& final(self).clients@ == old(self).clients@
            },
    {
        let i = match self.find_client(id) {
            Some(i) => i,
            None => return Err(StratepigError::MissingContext),
        };
        let mut acts: Vec<Action> = Vec::new();
        if self.clients[i].player.role != PlayerRole::One {
            return Ok(acts);
        }
        match self.settings.apply_settings_update(settings_id, increased) {
            None => {},
            Some(v) => {
                acts.push(Action::Broadcast(ServerPacket::SettingsValueChanged(SettingsValueChangedPacket { id: settings_id, value: v })));
                if settings_id == 0 && self.settings.game_mode != GameMode::Custom {
                    acts.push(Action::Broadcast(ServerPacket::PigConfigValueChanged(PigConfigValueChangedPacket {
                        turn_time: self.settings.turn_time,
                        buffer_time: self.settings.buffer_time,
                        pig_config: config_pairs(&self.settings.pig_config),
                    })));
                }
            },
        }
        Ok(acts)
    }

    /// The host adds or removes one piece of a kind, which makes the mode custom.
    pub fn handle_pig_item_update(&mut self, id: usize, pig: u32, increased: bool) -> (r: Result<Vec<Action>, StratepigError>)
        requires
            old(self).wf(),
        ensures
            final(self).id == old(self).id,
            final(self).code == old(self).code,
            final(self).wf(),
            !old(self).seated(id) ==> (r matches Err(StratepigError::MissingContext) && *final(self) == *old(self)),
            old(self).seated(id) && pig >= 13 ==> (r matches Err(StratepigError::Config(ConfigError::InvalidPig)) && *final(self) == *old(self)),
            old(self).seated(id) && pig < 13 && old(self).clients@[old(self).seat(id)].player.role != PlayerRole::One
                ==> (r matches Err(StratepigError::Default(_)) && *final(self) == *old(self)),
            old(self).seated(id) && pig < 13 && old(self).clients@[old(self).seat(id)].player.role == PlayerRole::One ==> r is Ok,
            r matches Ok(acts) ==> (acts@.len() == 0 && final(self).settings == old(self).settings) || (acts@.len() == 2
                && final(self).settings.game_mode == GameMode::Custom
                && (acts@[0] matches Action::Broadcast(ServerPacket::SettingsValueChanged(p)) && p.id == 0 && p.value == 4)
                && (acts@[1] matches Action::Broadcast(ServerPacket::PigItemValueChanged(p)) && p.pig == pig
                    && p.amount == final(self).settings.pig_config@[pig as int] as u32)),
            r is Ok ==> final(self).clients@ == old(self).clients@,
    {
        let i = match self.find_client(id) {
            Some(i) => i,
            None => return Err(StratepigError::MissingContext),
        };
        if pig >= 13 {
            return Err(StratepigError::Config(ConfigError::InvalidPig));
        }
        if self.clients[i].player.role != PlayerRole::One {
            return Err(StratepigError::with("invalid authority"));
        }
        let mut acts: Vec<Action> = Vec::new();
        match self.settings.apply_pig_item_update(pig, increased) {
            Ok(Some(v)) => {
                acts.push(Action::Broadcast(ServerPacket::SettingsValueChanged(SettingsValueChangedPacket { id: 0, value: 4 })));
                acts.push(Action::Broadcast(ServerPacket::PigItemValueChanged(PigItemValueChangedPacket { pig, amount: v as u32 })));
            },
            _ => {},
        }
        Ok(acts)
    }
}

/// Actions that only send start or stop no timer.
pub proof fn lemma_run_timers_no_timer(l: bool, g: bool, acts: Seq<Action>)
    requires
        forall|m: int| 0 <= m < acts.len() ==> (#[trigger] acts[m]) is Send || acts[m] is Broadcast,
    ensures
        run_timers(l, g, acts) == Some((l, g)),
    decreases acts.len(),
{
    if acts.len() > 0 {
        lemma_run_timers_no_timer(l, g, acts.drop_last());
        assert(acts.last() is Send || acts.last() is Broadcast);
    }
}

impl GameRoomInner {
    /// Marks the room active at `now_secs`.
    pub fn store_seen(&mut self, now_secs: u64)
        ensures
            final(self).last_seen_at == now_secs,
            final(self).id == old(self).id,
            final(self).code == old(self).code,
            final(self).clients@ == old(self).clients@,
            final(self).settings == old(self).settings,
            final(self).in_game == old(self).in_game,
            final(self).game_ended == old(self).game_ended,
    {
        self.last_seen_at = now_secs;
    }

    /// Back to the default settings.
    pub fn load_default_settings(&mut self)
        requires
            old(self).wf(),
        ensures
            final(self).wf(),
            final(self).settings.game_mode == GameMode::Original,
            final(self).settings.placement_time == 300,
            final(self).settings.turn_time == 15,
            final(self).settings.buffer_time == 300,
            final(self).clients@ == old(self).clients@,
            final(self).id == old(self).id,
            final(self).code == old(self).code,
    {
        self.settings = GameRoomSettings::default();
    }

    /// The id of the participant other than `id`, if any.
    pub fn other_id(&self, id: usize) -> (r: Option<usize>)
        requires
            self.wf(),
        ensures
            r matches Some(o) ==> o != id && exists|k: int| 0 <= k < self.clients@.len() && self.clients@[k].client_id == o,
            r is None ==> forall|k: int| 0 <= k < self.clients@.len() ==> self.clients@[k].client_id == id,
    {
        match self.other_seat(id) {
            Some(j) => Some(self.clients[j].client_id),
            None => None,
        }
    }

    /// The id of the participant whose turn it is, if seated.
    pub fn get_active_id(&self) -> (r: Option<usize>)
        ensures
            r matches Some(o) ==> exists|k: int| 0 <= k < self.clients@.len() && self.clients@[k].client_id == o
                && self.clients@[k].player.role == self.current_turn,
            r is None ==> forall|k: int| 0 <= k < self.clients@.len() ==> self.clients@[k].player.role != self.current_turn,
    {
        match self.seat_of_role(self.current_turn) {
            Some(k) => Some(self.clients[k].client_id),
            None => None,
        }
    }

    /// Stops the lobby countdown, if it runs.
    pub fn cancel_start(&mut self) -> (r: Vec<Action>)
        ensures
            !final(self).room_ticker,
            run_timers(old(self).room_ticker, old(self).game_ticker, r@) == Some((false, old(self).game_ticker)),
            final(self).game_ticker == old(self).game_ticker,
            final(self).clients@ == old(self).clients@,
            final(self).id == old(self).id,
            final(self).code == old(self).code,
            final(self).settings == old(self).settings,
            final(self).in_game == old(self).in_game,
    {
        let mut acts: Vec<Action> = Vec::new();
        if self.room_ticker {
            acts.push(Action::CancelLobbyTimer);
            self.room_ticker = false;
        }
        proof {
            reveal_with_fuel(run_timers, 2);
        }
        acts
    }
}

/// With turns on, a move accepted after an accepted move that did not end the game (which
/// passed the turn to `opp_spec(turn)`) is made by the side that did not make the first:
/// the turn changed hands exactly once between the two.
pub proof fn lemma_turns_alternate(turn: PlayerRole, after: GameRoomInner, id: usize, from: u8, to: u8, cfg: CliConfig)
    requires
        turn != PlayerRole::Tie,
        after.current_turn == opp_spec(turn),
        !cfg.ignore_turns,
        move_accepted(after, id, from, to, cfg),
    ensures
        mover_role(after, id) == opp_spec(turn),
        mover_role(after, id) != turn,
{
}

} // verus!
