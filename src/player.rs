//! Seats, roles and per-player game data.

use vstd::prelude::*;

use crate::board::Board;

verus! {

/// Which side a participant plays; `Tie` names no side (a drawn result).
#[derive(Clone, Copy, Debug, PartialEq, Eq, Structural)]
pub enum PlayerRole {
    One,
    Two,
    Tie,
}

pub open spec fn opp_spec(r: PlayerRole) -> PlayerRole {
    match r {
        PlayerRole::One => PlayerRole::Two,
        PlayerRole::Two => PlayerRole::One,
        PlayerRole::Tie => PlayerRole::Tie,
    }
}

pub open spec fn role_wire(r: PlayerRole) -> u32 {
    match r {
        PlayerRole::One => 1,
        PlayerRole::Two => 2,
        PlayerRole::Tie => 0xffff_ffff,
    }
}

impl PlayerRole {
    pub fn opp(&self) -> (r: Self)
        ensures
            r == opp_spec(*self),
    {
        match self {
            PlayerRole::One => PlayerRole::Two,
            PlayerRole::Two => PlayerRole::One,
            PlayerRole::Tie => PlayerRole::Tie,
        }
    }

    /// Wire value: one 1, two 2, tie -1 as an unsigned word.
    pub fn to_wire(&self) -> (r: u32)
        ensures
            r == role_wire(*self),
    {
        match self {
            PlayerRole::One => 1,
            PlayerRole::Two => 2,
            PlayerRole::Tie => 0xffff_ffff,
        }
    }
}

/// In-game data of a participant.
#[derive(Debug)]
pub struct Player {
    pub role: PlayerRole,
    pub scene_index: u8,
    pub is_ready: bool,
    pub play_again: bool,
    /// Remaining buffer, in seconds.
    pub current_buffer: u64,
    pub board: Board,
    pub init_board: Board,
}

impl Player {
    pub fn new(role: PlayerRole) -> (r: Self)
        ensures
            r.role == role,
            r.scene_index == 1,
            !r.is_ready,
            !r.play_again,
            r.current_buffer == 0,
            r.board@.len() == 0,
            r.init_board@.len() == 0,
    {
        Player {
            role,
            scene_index: 1,
            is_ready: false,
            play_again: false,
            current_buffer: 0,
            board: Vec::new(),
            init_board: Vec::new(),
        }
    }

    /// Records a placement as both the live and the initial board.
    pub fn initialize_setup(&mut self, setup: Board)
        ensures
            final(self).board@ == setup@,
            final(self).init_board@ == setup@,
            final(self).role == old(self).role,
            final(self).scene_index == old(self).scene_index,
            final(self).is_ready == old(self).is_ready,
            final(self).play_again == old(self).play_again,
            final(self).current_buffer == old(self).current_buffer,
    {
        self.init_board = copy_board(&setup);
        self.board = setup;
    }

    /// Clears the game state of the player, keeping role and scene.
    pub fn reset(&mut self)
        ensures
            !final(self).is_ready,
            !final(self).play_again,
            final(self).current_buffer == 0,
            final(self).board@.len() == 0,
            final(self).init_board@.len() == 0,
            final(self).role == old(self).role,
            final(self).scene_index == old(self).scene_index,
    {
        self.is_ready = false;
        self.board = Vec::new();
        self.init_board = Vec::new();
        self.play_again = false;
        self.current_buffer = 0;
    }
}

/// A copy of a board.
pub fn copy_board(b: &Board) -> (r: Board)
    ensures
        r@ == b@,
{
    let mut result: Board = Vec::new();
    let mut i: usize = 0;
    while i < b.len()
        invariant
            i <= b.len(),
            result@ == b@.subrange(0, i as int),
        decreases b.len() - i,
    {
        result.push(b[i]);
        i += 1;
        assert(result@ =~= b@.subrange(0, i as int));
    }
    assert(b@.subrange(0, b.len() as int) == b@);
    result
}

/// Lobby data of a participant.
#[derive(Debug)]
pub struct RoomPlayer {
    pub username: String,
    pub ready: bool,
    pub icon: u8,
}

/// A connected client, as the session logic sees it.
#[derive(Debug)]
pub struct Client {
    pub id: usize,
    /// Room the client sits in; 0 for none.
    pub game_room_id: usize,
    pub room_player: Option<RoomPlayer>,
    pub player: Option<Player>,
}

impl RoomPlayer {
    /// Seats `client` in the lobby with the given role.
    pub fn new(role: PlayerRole, username: String, icon: u8, client: &mut Client) -> (r: Self)
        ensures
            r.username@ == username@,
            !r.ready,
            r.icon == icon,
            final(client).id == old(client).id,
            final(client).game_room_id == old(client).game_room_id,
            final(client).player matches Some(p) && p.role == role && p.scene_index == 1
                && !p.is_ready && !p.play_again && p.current_buffer == 0 && p.board@.len() == 0
                && p.init_board@.len() == 0,
    {
        client.set_player(Player::new(role));
        RoomPlayer { username, ready: false, icon }
    }

    pub fn reset(&mut self)
        ensures
            !final(self).ready,
            final(self).username@ == old(self).username@,
            final(self).icon == old(self).icon,
    {
        self.ready = false;
    }
}

impl Client {
    pub fn new(id: usize) -> (r: Self)
        ensures
            r.id == id,
            r.game_room_id == 0,
            r.room_player is None,
            r.player is None,
    {
        Client { id, game_room_id: 0, room_player: None, player: None }
    }

    pub fn set_game_room(&mut self, id: usize)
        ensures
            final(self).game_room_id == id,
            final(self).id == old(self).id,
    {
        self.game_room_id = id;
    }

    pub fn set_player(&mut self, player: Player)
        ensures
            final(self).player == Some(player),
            final(self).id == old(self).id,
            final(self).game_room_id == old(self).game_room_id,
    {
        self.player = Some(player);
    }

    /// Clears the lobby ready flag and the game state, when the client has both.
    pub fn reset(&mut self)
        ensures
            final(self).id == old(self).id,
            final(self).game_room_id == old(self).game_room_id,
            final(self).room_player is Some == old(self).room_player is Some,
            final(self).player is Some == old(self).player is Some,
            old(self).room_player is Some && old(self).player is Some ==> {
                &&& !final(self).room_player.unwrap().ready
                &&& !final(self).player.unwrap().is_ready
                &&& !final(self).player.unwrap().play_again
                &&& final(self).player.unwrap().current_buffer == 0
                &&& final(self).player.unwrap().board@.len() == 0
                &&& final(self).player.unwrap().role == old(self).player.unwrap().role
            },
            !(old(self).room_player is Some && old(self).player is Some) ==> *final(self)
                == *old(self),
    {
        if self.player.is_none() || self.room_player.is_none() {
            return;
        }
        match &mut self.room_player {
            Some(rp) => rp.reset(),
            None => {},
        }
        match &mut self.player {
            Some(p) => p.reset(),
            None => {},
        }
    }
}

} // verus!
