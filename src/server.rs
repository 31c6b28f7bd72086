//! The server's tables: client and room ids, the room registry with its codes, the
//! host / join request, request guards, disconnects and the idle reaper.

use std::collections::VecDeque;
use vstd::prelude::*;
use vstd::string::StringSliceAdditionalSpecFns;
use vstd::utf8::encode_utf8;

use crate::codec::{all_encodable, enc_fields, kinds_of, lemma_fields_unique, prefix_at, same_value, Packet};
use crate::packet::{
    client_message_spec, BaseGuardPacket, ClientInfoPacket, ClientMessage, ErrJoinGamePacket,
    FailCreateGamePacket, FinishedSceneLoadPacket, GamePlayerReadyDataDefaultPacket,
    GamePlayerReadyDataFullPacket, GameRequestDefaultPacket, GameRequestFullPacket, KickedPacket,
    MovePacket, UpdatePigIconPacket, UpdatePigItemValuePacket, UpdateReadyStatePacket,
    UpdateSettingsValue, WelcomePacket,
};
use crate::player::{Client, Player, PlayerRole, RoomPlayer};
use crate::room::{run_timers, Action, CliConfig, GameRoomInner, Participant, ServerPacket, StratepigError};
use crate::settings::{request_settings_spec, settings_from_request, GameRoomSettings};
use crate::util::{decimal_spec, gen_game_room_code, id_string, numbered_name, trim, trim_spec};

verus! {

/// Most rooms alive at once.
pub const MAX_ROOMS: usize = 1000;

/// Seconds between two runs of the idle reaper.
pub const PRUNE_INTERVAL_SECS: u64 = 180;

/// Seconds without activity after which an idle room is closed.
pub const MAX_PRUNE_AGE_SECS: u64 = 300;

/// Longest accepted username, in bytes.
pub const MAX_USERNAME_LENGTH: usize = 16;

/// Why joining a room failed.
#[derive(Clone, Copy, Debug, PartialEq, Eq, Structural)]
pub enum GameRoomError {
    NotFound,
    Started,
    Full,
}

/// Ids handed out from a counter, reusing released ones first.
#[derive(Debug)]
pub struct IdAllocator {
    pub next: usize,
    pub free: VecDeque<usize>,
}

impl IdAllocator {
    pub fn new() -> (r: Self)
        ensures
            r.next == 0,
            r.free@.len() == 0,
    {
        IdAllocator { next: 0, free: VecDeque::new() }
    }

    /// The oldest released id, else one above the last new id (the first is 1); `None` once
    /// the counter is exhausted.
    pub fn allocate(&mut self) -> (r: Option<usize>)
        ensures
            old(self).free@.len() > 0 ==> r == Some(old(self).free@[0]) && final(self).free@ == old(self).free@.drop_first()
                && final(self).next == old(self).next,
            old(self).free@.len() == 0 && old(self).next < usize::MAX ==> r == Some((old(self).next + 1) as usize)
                && final(self).next == old(self).next + 1 && final(self).free@.len() == 0,
            old(self).free@.len() == 0 && old(self).next == usize::MAX ==> r is None && final(self).next == old(self).next && final(self).free@.len() == 0,
    {
        match self.free.pop_front() {
            Some(id) => Some(id),
            None => {
                if self.next == usize::MAX {
                    None
                } else {
                    self.next = self.next + 1;
                    Some(self.next)
                }
            },
        }
    }

    /// Gives an id back for reuse.
    pub fn release(&mut self, id: usize)
        ensures
            final(self).free@ == old(self).free@.push(id),
            final(self).next == old(self).next,
    {
        self.free.push_back(id);
    }
}

/// Request guard: the echoed id is the connection's and the client sits in a room.
#[derive(Clone, Copy, Debug)]
pub struct InRoomGuard;

/// Request guard: as [`InRoomGuard`], and the client has in-game data.
#[derive(Clone, Copy, Debug)]
pub struct InGameGuard;

/// Request guard: as [`InGameGuard`], and the room is in play and not over.
#[derive(Clone, Copy, Debug)]
pub struct InGameStrictGuard;

/// The server's tables.
#[derive(Debug)]
pub struct GameServer {
    pub config: CliConfig,
    pub rooms: Vec<GameRoomInner>,
    pub room_ids: IdAllocator,
    pub client_ids: IdAllocator,
    pub clients: Vec<Client>,
}

pub open spec fn codes_unique(rooms: Seq<GameRoomInner>) -> bool {
    forall|i: int, j: int| 0 <= i < rooms.len() && 0 <= j < rooms.len() && i != j ==> rooms[i].code@ != rooms[j].code@
}

pub open spec fn ids_unique(rooms: Seq<GameRoomInner>) -> bool {
    forall|i: int, j: int| 0 <= i < rooms.len() && 0 <= j < rooms.len() && i != j ==> rooms[i].id != rooms[j].id
}

/// A room the reaper closes: not in active play (or over), and idle for too long.
pub open spec fn prunable(room: GameRoomInner, now_secs: u64) -> bool {
    (!room.in_game || room.game_ended) && now_secs > room.last_seen_at + MAX_PRUNE_AGE_SECS
}


/// Ids handed out by an allocator with released list `free` and counter `next` never clash
/// with the ids in `used`: released ids are distinct and within the counter, and each id in
/// use is within the counter and not released.
pub open spec fn fresh(free: Seq<usize>, next: usize, used: Seq<usize>) -> bool {
    &&& free.no_duplicates()
    &&& forall|k: int| 0 <= k < free.len() ==> 1 <= #[trigger] free[k] <= next
    &&& forall|i: int| 0 <= i < used.len() ==> 1 <= #[trigger] used[i] <= next && !free.contains(used[i])
}

/// The id an allocator hands out next: the oldest released one, else one above the counter.
pub open spec fn next_id(free: Seq<usize>, next: usize) -> Option<usize> {
    if free.len() > 0 {
        Some(free[0])
    } else if next < usize::MAX {
        Some((next + 1) as usize)
    } else {
        None
    }
}

pub open spec fn room_ids_of(rooms: Seq<GameRoomInner>) -> Seq<usize> {
    Seq::new(rooms.len(), |i: int| rooms[i].id)
}

pub open spec fn client_ids_of(clients: Seq<Client>) -> Seq<usize> {
    Seq::new(clients.len(), |i: int| clients[i].id)
}

/// An id handed out is not in use, and the allocator stays fresh with it in use.
pub proof fn lemma_allocate_fresh(free: Seq<usize>, next: usize, used: Seq<usize>, free2: Seq<usize>, next2: usize, id: usize)
    requires
        fresh(free, next, used),
        next_id(free, next) == Some(id),
        free.len() > 0 ==> free2 == free.drop_first() && next2 == next,
        free.len() == 0 ==> next2 == next + 1 && free2.len() == 0,
    ensures
        !used.contains(id),
        fresh(free2, next2, used.push(id)),
{
    if free.len() > 0 {
        assert(free.contains(free[0]));
        assert forall|k: int| 0 <= k < free2.len() implies free2[k] != id by {
            assert(free2[k] == free[k + 1]);
        }
        assert forall|x: usize| free2.contains(x) implies free.contains(x) by {
            let k = choose|k: int| 0 <= k < free2.len() && free2[k] == x;
            assert(free[k + 1] == x);
        }
        assert forall|i: int, j: int| 0 <= i < free2.len() && 0 <= j < free2.len() && i != j implies free2[i] != free2[j] by {
            assert(free2[i] == free[i + 1] && free2[j] == free[j + 1]);
        }
    }
    assert forall|i: int| 0 <= i < used.push(id).len() implies 1 <= #[trigger] used.push(id)[i] <= next2
        && !free2.contains(used.push(id)[i]) by {
        if i < used.len() {
            assert(used.push(id)[i] == used[i]);
        }
    }
    if used.contains(id) {
        let i = choose|i: int| 0 <= i < used.len() && used[i] == id;
        assert(1 <= used[i] <= next && !free.contains(used[i]));
    }
}

/// Releasing the id of an entry taken out of use keeps the allocator fresh.
pub proof fn lemma_release_fresh(free: Seq<usize>, next: usize, used: Seq<usize>, i: int)
    requires
        fresh(free, next, used),
        0 <= i < used.len(),
        used.no_duplicates(),
    ensures
        fresh(free.push(used[i]), next, used.remove(i)),
{
    let x = used[i];
    let f2 = free.push(x);
    assert(!free.contains(x));
    assert forall|a: int, b: int| 0 <= a < f2.len() && 0 <= b < f2.len() && a != b implies f2[a] != f2[b] by {
        if a == free.len() {
            assert(free.contains(f2[b]));
        } else if b == free.len() {
            assert(free.contains(f2[a]));
        }
    }
    assert forall|k: int| 0 <= k < used.remove(i).len() implies 1 <= #[trigger] used.remove(i)[k] <= next
        && !f2.contains(used.remove(i)[k]) by {
        let k2 = if k < i { k } else { k + 1 };
        assert(used.remove(i)[k] == used[k2]);
        assert(used[k2] != x);
        if f2.contains(used[k2]) {
            let m = choose|m: int| 0 <= m < f2.len() && f2[m] == used[k2];
            if m < free.len() {
                assert(free.contains(used[k2]));
            }
        }
    }
}

impl GameServer {
    pub open spec fn wf(&self) -> bool {
        &&& self.rooms@.len() <= MAX_ROOMS
        &&& codes_unique(self.rooms@)
        &&& ids_unique(self.rooms@)
        &&& forall|i: int| 0 <= i < self.rooms@.len() ==> (#[trigger] self.rooms@[i]).wf()
        &&& forall|i: int, j: int| 0 <= i < self.clients@.len() && 0 <= j < self.clients@.len() && i != j
            ==> self.clients@[i].id != self.clients@[j].id
        &&& fresh(self.room_ids.free@, self.room_ids.next, room_ids_of(self.rooms@))
        &&& fresh(self.client_ids.free@, self.client_ids.next, client_ids_of(self.clients@))
    }

    pub open spec fn has_code(&self, code: Seq<char>) -> bool {
        exists|i: int| 0 <= i < self.rooms@.len() && (#[trigger] self.rooms@[i]).code@ == code
    }

    pub fn new(config: CliConfig) -> (r: Self)
        ensures
            r.wf(),
            r.config == config,
            r.rooms@.len() == 0,
            r.clients@.len() == 0,
    {
        GameServer { config, rooms: Vec::new(), room_ids: IdAllocator::new(), client_ids: IdAllocator::new(), clients: Vec::new() }
    }

    /// Index of the room with id `id`.
    pub fn get_room(&self, id: usize) -> (r: Option<usize>)
        ensures
            r matches Some(i) ==> i < self.rooms@.len() && self.rooms@[i as int].id == id,
            r is None ==> forall|i: int| 0 <= i < self.rooms@.len() ==> self.rooms@[i].id != id,
    {
        let mut i: usize = 0;
        while i < self.rooms.len()
            invariant
                i <= self.rooms@.len(),
                forall|k: int| 0 <= k < i ==> self.rooms@[k].id != id,
            decreases self.rooms@.len() - i,
        {
            if self.rooms[i].id == id {
                return Some(i);
            }
            i += 1;
        }
        None
    }

    /// Index of the room with code `code`.
    pub fn get_room_by_code(&self, code: &String) -> (r: Option<usize>)
        ensures
            r matches Some(i) ==> i < self.rooms@.len() && self.rooms@[i as int].code@ == code@,
            r is None <==> !self.has_code(code@),
    {
        let mut i: usize = 0;
        while i < self.rooms.len()
            invariant
                i <= self.rooms@.len(),
                forall|k: int| 0 <= k < i ==> self.rooms@[k].code@ != code@,
            decreases self.rooms@.len() - i,
        {
            if self.rooms[i].code == *code {
                return Some(i);
            }
            i += 1;
        }
        None
    }

    /// Index of the client with id `id`.
    pub fn get_client(&self, id: usize) -> (r: Option<usize>)
        ensures
            r matches Some(i) ==> i < self.clients@.len() && self.clients@[i as int].id == id,
            r is None ==> forall|i: int| 0 <= i < self.clients@.len() ==> self.clients@[i].id != id,
    {
        let mut i: usize = 0;
        while i < self.clients.len()
            invariant
                i <= self.clients@.len(),
                forall|k: int| 0 <= k < i ==> self.clients@[k].id != id,
            decreases self.clients@.len() - i,
        {
            if self.clients[i].id == id {
                return Some(i);
            }
            i += 1;
        }
        None
    }

    /// A room that client `id` may join with `code`: it must exist, not have started, and
    /// have a free seat.
    pub fn try_join_room(&self, code: &String) -> (r: Result<usize, GameRoomError>)
        ensures
            !self.has_code(code@) ==> r == Err::<usize, GameRoomError>(GameRoomError::NotFound),
            r matches Ok(i) ==> i < self.rooms@.len() && self.rooms@[i as int].code@ == code@ && !self.rooms@[i as int].in_game
                && self.rooms@[i as int].clients@.len() < 2,
            r == Err::<usize, GameRoomError>(GameRoomError::Started) ==> self.has_code(code@),
            r == Err::<usize, GameRoomError>(GameRoomError::Full) ==> self.has_code(code@),
            self.has_code(code@) && codes_unique(self.rooms@) ==> {
                let i = choose|i: int| 0 <= i < self.rooms@.len() && (#[trigger] self.rooms@[i]).code@ == code@;
                if self.rooms@[i].in_game {
                    r == Err::<usize, GameRoomError>(GameRoomError::Started)
                } else if self.rooms@[i].clients@.len() >= 2 {
                    r == Err::<usize, GameRoomError>(GameRoomError::Full)
                } else {
                    r == Ok::<usize, GameRoomError>(i as usize)
                }
            },
    {
        match self.get_room_by_code(code) {
            None => Err(GameRoomError::NotFound),
            Some(i) => {
                proof {
                    if codes_unique(self.rooms@) {
                        let j = choose|j: int| 0 <= j < self.rooms@.len() && (#[trigger] self.rooms@[j]).code@ == code@;
                        assert(j == i);
                    }
                }
                if self.rooms[i].in_game {
                    Err(GameRoomError::Started)
                } else if self.rooms[i].clients.len() >= 2 {
                    Err(GameRoomError::Full)
                } else {
                    Ok(i)
                }
            },
        }
    }

    /// Whether a live room uses `code`.
    pub fn code_in_use(&self, code: &String) -> (r: bool)
        ensures
            r == self.has_code(code@),
    {
        self.get_room_by_code(code).is_some()
    }

    /// Opens a room with the given code and settings; fails when the server is full or the
    /// code is taken.
    pub fn new_room(&mut self, code: String, settings: GameRoomSettings, now_secs: u64) -> (r: Result<usize, String>)
        requires
            old(self).wf(),
            settings.wf(),
        ensures
            final(self).wf(),
            final(self).clients@ == old(self).clients@,
            old(self).rooms@.len() >= MAX_ROOMS ==> r is Err && final(self).rooms@ == old(self).rooms@,
            old(self).rooms@.len() < MAX_ROOMS && old(self).has_code(code@) ==> r is Err && final(self).rooms@ == old(self).rooms@,
            old(self).rooms@.len() < MAX_ROOMS && !old(self).has_code(code@) ==> (r is Ok <==> next_id(
                old(self).room_ids.free@,
                old(self).room_ids.next,
            ) is Some),
            r matches Err(m) ==> final(self).rooms@ == old(self).rooms@ && (m@.len() == 0 <==> old(self).rooms@.len() < MAX_ROOMS),
            old(self).rooms@.len() >= MAX_ROOMS ==> (r matches Err(m) && m@ == "There are too many rooms at the moment. Try again later."@),
            r matches Ok(i) ==> Some(final(self).rooms@[i as int].id) == next_id(old(self).room_ids.free@, old(self).room_ids.next),
            r matches Ok(i) ==> {
                &&& i == old(self).rooms@.len()
                &&& final(self).rooms@.len() == old(self).rooms@.len() + 1
                &&& final(self).rooms@.subrange(0, i as int) == old(self).rooms@
                &&& final(self).rooms@[i as int].code@ == code@
                &&& final(self).rooms@[i as int].clients@.len() == 0
                &&& final(self).rooms@[i as int].settings == settings
                &&& !final(self).rooms@[i as int].in_game
            },
    {
        proof {
            reveal_strlit("There are too many rooms at the moment. Try again later.");
            reveal_strlit("");
        }
        if self.rooms.len() >= MAX_ROOMS {
            return Err("There are too many rooms at the moment. Try again later.".to_owned());
        }
        if self.code_in_use(&code) {
            return Err("".to_owned());
        }
        let ghost free0 = self.room_ids.free@;
        let ghost next0 = self.room_ids.next;
        let id = match self.room_ids.allocate() {
            None => return Err("".to_owned()),
            Some(id) => id,
        };
        proof {
            lemma_allocate_fresh(free0, next0, room_ids_of(self.rooms@), self.room_ids.free@, self.room_ids.next, id);
            assert forall|k: int| 0 <= k < self.rooms@.len() implies self.rooms@[k].id != id by {
                assert(room_ids_of(self.rooms@)[k] == self.rooms@[k].id);
            }
        }
        let mut room = GameRoomInner::new(id, code, now_secs);
        room.settings = settings;
        let ghost before = self.rooms@;
        self.rooms.push(room);
        proof {
            assert(self.rooms@.subrange(0, before.len() as int) =~= before);
            assert forall|a: int, b: int| 0 <= a < self.rooms@.len() && 0 <= b < self.rooms@.len() && a != b
                implies self.rooms@[a].code@ != self.rooms@[b].code@ by {
                if a == before.len() as int {
                    assert(!(self.rooms@[b].code@ == code@));
                } else if b == before.len() as int {
                    assert(!(self.rooms@[a].code@ == code@));
                }
            }
            assert forall|a: int, b: int| 0 <= a < self.rooms@.len() && 0 <= b < self.rooms@.len() && a != b
                implies self.rooms@[a].id != self.rooms@[b].id by {
                if a == before.len() as int {
                    assert(before[b].id != id);
                } else if b == before.len() as int {
                    assert(before[a].id != id);
                }
            }
            assert(self.rooms@[before.len() as int].wf());
            assert(room_ids_of(self.rooms@) =~= room_ids_of(before).push(id));
        }
        Ok(self.rooms.len() - 1)
    }
}

/// `a` tells a client its room was closed for inactivity.
pub open spec fn is_kick(a: Action) -> bool {
    a matches Action::Send(_, ServerPacket::Kicked(p)) && p.msg@ == "Room closed due to inactivity."@
}

/// `a` is the inactivity notice for client `to`.
pub open spec fn kicks(a: Action, to: usize) -> bool {
    a matches Action::Send(c, ServerPacket::Kicked(p)) && c == to && p.msg@ == "Room closed due to inactivity."@
}

/// Some action of `acts` is the inactivity notice for client `to`.
pub open spec fn kicked(acts: Seq<Action>, to: usize) -> bool {
    exists|q: int| 0 <= q < acts.len() && kicks(acts[q], to)
}

/// What freeing client `id`'s seat in room `a` leaves in `b`: the same room without the seat,
/// out of play with no timer, and a remaining guest promoted to role one when the host left.
pub open spec fn seat_freed(a: GameRoomInner, b: GameRoomInner, id: usize) -> bool {
    &&& b.id == a.id
    &&& b.code@ == a.code@
    &&& b.clients@.len() == a.clients@.len() - 1
    &&& !b.seated(id)
    &&& !b.in_game
    &&& !b.room_ticker
    &&& !b.game_ticker
    &&& (b.clients@.len() == 1 && a.clients@[a.seat(id)].player.role == PlayerRole::One) ==> b.clients@[0].player.role
        == PlayerRole::One
}

/// A name, a space and a number in decimal.
pub open spec fn numbered_spec(base: Seq<char>, n: nat) -> Seq<char> {
    base + seq![' '] + decimal_spec(n)
}

/// `name` is what a joiner asking for `base` is called in `room`: `base` when no participant
/// has it, else `base` numbered with the least number from 1 that no participant has.
pub open spec fn safe_name(room: GameRoomInner, base: Seq<char>, name: Seq<char>) -> bool {
    &&& !name_taken(room, name)
    &&& !name_taken(room, base) ==> name == base
    &&& name_taken(room, base) ==> exists|n: nat|
        1 <= n <= 3 && name == numbered_spec(base, n) && forall|k: nat| 1 <= k < n ==> name_taken(room, #[trigger] numbered_spec(base, k))
}

/// Some participant of `room` goes by `name`.
pub open spec fn name_taken(room: GameRoomInner, name: Seq<char>) -> bool {
    exists|k: int| 0 <= k < room.clients@.len() && (#[trigger] room.clients@[k]).room_player.username@ == name
}

/// A request whose echoed id, client entry, room link, name and icon are all in order.
pub open spec fn request_ok(s: GameServer, id: usize, data: &GameRequestDefaultPacket) -> bool {
    &&& data.my_id@ == decimal_spec(id as nat)
    &&& exists|c: int| 0 <= c < s.clients@.len() && s.clients@[c].id == id
    &&& s.client_room(id) == 0
    &&& username_ok(&data.username)
    &&& 0 <= data.icon < 13
}

/// The host asked for the default settings, or sent settings that are accepted.
pub open spec fn host_settings_ok(data: &GameRequestDefaultPacket, full: Option<&GameRequestFullPacket>) -> bool {
    data.data_null || (full matches Some(f) && request_settings_spec(f.game_mode, f.placement_secs, f.turn_secs, f.buffer_secs,
        f.pig_config@) is Ok)
}

/// A username the request may use: not blank after trimming and at most the length limit.
pub open spec fn username_ok(name: &String) -> bool {
    trim_spec(name@).len() > 0 && encode_utf8(name@).len() <= MAX_USERNAME_LENGTH
}

impl GameRoomInner {
    pub fn username_taken(&self, name: &String) -> (r: bool)
        ensures
            r == name_taken(*self, name@),
    {
        let mut k: usize = 0;
        while k < self.clients.len()
            invariant
                k <= self.clients@.len(),
                forall|m: int| 0 <= m < k ==> self.clients@[m].room_player.username@ != name@,
            decreases self.clients@.len() - k,
        {
            if self.clients[k].room_player.username == *name {
                return true;
            }
            k += 1;
        }
        false
    }

    /// `username`, or, when a participant already has it, `username` followed by a space and
    /// the first number from 1 that makes it unique.
    pub fn generate_safe_username(&self, username: &String) -> (r: String)
        requires
            self.clients@.len() <= 2,
        ensures
            safe_name(*self, username@, r@),
    {
        let mut name = username.clone();
        let mut i: u64 = 0;
        while self.username_taken(&name) && i < 3
            invariant
                i <= 3,
                self.clients@.len() <= 2,
                i == 0 ==> name@ == username@,
                i >= 1 ==> name@ == username@ + seq![' '] + decimal_spec(i as nat),
                i >= 1 ==> name_taken(*self, username@),
                forall|k: nat| 1 <= k < i ==> name_taken(*self, #[trigger] (username@ + seq![' '] + decimal_spec(k))),
            decreases 3 - i,
        {
            let ghost prev = name@;
            proof {
                if i >= 1 {
                    assert(name_taken(*self, username@ + seq![' '] + decimal_spec(i as nat)));
                }
            }
            i = i + 1;
            name = numbered_name(username.as_str(), i);
        }
        proof {
            if i == 3 && name_taken(*self, name@) {
                let base = username@ + seq![' '];
                let n1 = base + decimal_spec(1);
                let n2 = base + decimal_spec(2);
                let n3 = base + decimal_spec(3);
                assert(name_taken(*self, n1));
                assert(name_taken(*self, n2));
                let k1 = choose|k: int| 0 <= k < self.clients@.len() && (#[trigger] self.clients@[k]).room_player.username@ == n1;
                let k2 = choose|k: int| 0 <= k < self.clients@.len() && (#[trigger] self.clients@[k]).room_player.username@ == n2;
                let k3 = choose|k: int| 0 <= k < self.clients@.len() && (#[trigger] self.clients@[k]).room_player.username@ == n3;
                assert(decimal_spec(1) == seq!['1']);
                assert(decimal_spec(2) == seq!['2']);
                assert(decimal_spec(3) == seq!['3']);
                assert(n1[n1.len() - 1] == '1');
                assert(n2[n2.len() - 1] == '2');
                assert(n3[n3.len() - 1] == '3');
                assert(n1 != n2 && n1 != n3 && n2 != n3);
                assert(false);
            }
            if name_taken(*self, username@) {
                assert(i >= 1);
                assert(1 <= (i as nat) <= 3 && name@ == numbered_spec(username@, i as nat) && forall|k: nat|
                    1 <= k < (i as nat) ==> name_taken(*self, #[trigger] numbered_spec(username@, k)));
            }
        }
        name
    }
}

impl InRoomGuard {
    /// The echoed id must be the connection's and the client must sit in a room.
    pub fn guard(&self, id: usize, my_id: &String, server: &GameServer) -> (r: Result<usize, StratepigError>)
        requires
            server.wf(),
        ensures
            my_id@ != decimal_spec(id as nat) ==> r matches Err(StratepigError::AssumeWrongId),
            my_id@ == decimal_spec(id as nat) ==> (r is Ok <==> server.in_room(id)),
            r matches Ok(i) ==> i < server.rooms@.len() && server.rooms@[i as int].seated(id)
                && server.rooms@[i as int].id == server.client_room(id) && i == server.room_index(server.client_room(id)),
            my_id@ == decimal_spec(id as nat) && !server.in_room(id) ==> r matches Err(StratepigError::MissingContext),
    {
        let expected = id_string(id);
        if expected != *my_id {
            return Err(StratepigError::AssumeWrongId);
        }
        server.get_context(id)
    }
}

impl InGameGuard {
    /// As the in-room guard; every seated participant has in-game data.
    pub fn guard(&self, id: usize, my_id: &String, server: &GameServer) -> (r: Result<usize, StratepigError>)
        requires
            server.wf(),
        ensures
            my_id@ != decimal_spec(id as nat) ==> r matches Err(StratepigError::AssumeWrongId),
            my_id@ == decimal_spec(id as nat) ==> (r is Ok <==> server.in_room(id)),
            r matches Ok(i) ==> i < server.rooms@.len() && server.rooms@[i as int].seated(id)
                && server.rooms@[i as int].id == server.client_room(id) && i == server.room_index(server.client_room(id)),
            my_id@ == decimal_spec(id as nat) && !server.in_room(id) ==> r matches Err(StratepigError::MissingContext),
    {
        InRoomGuard.guard(id, my_id, server)
    }
}

impl InGameStrictGuard {
    /// As the in-game guard, and the room must be in play and not over.
    pub fn guard(&self, id: usize, my_id: &String, server: &GameServer) -> (r: Result<usize, StratepigError>)
        requires
            server.wf(),
        ensures
            my_id@ != decimal_spec(id as nat) ==> r matches Err(StratepigError::AssumeWrongId),
            r matches Ok(i) ==> i < server.rooms@.len() && server.rooms@[i as int].seated(id)
                && server.rooms@[i as int].game_phase == 2 && !server.rooms@[i as int].game_ended
                && i == server.room_index(server.client_room(id)),
            my_id@ == decimal_spec(id as nat) && !server.in_room(id) ==> r matches Err(StratepigError::MissingContext),
            my_id@ == decimal_spec(id as nat) && server.in_room(id) ==> (r is Ok <==> {
                let i = server.room_index(server.client_room(id));
                server.rooms@[i].game_phase == 2 && !server.rooms@[i].game_ended
            }),
    {
        let i = InRoomGuard.guard(id, my_id, server)?;
        if server.rooms[i].game_phase != 2 || server.rooms[i].game_ended {
            return Err(StratepigError::with("room not in correct state"));
        }
        Ok(i)
    }
}

impl GameServer {
    /// The room id recorded for client `id` (0: none, or no such client).
    pub open spec fn client_room(&self, id: usize) -> usize {
        if exists|c: int| 0 <= c < self.clients@.len() && self.clients@[c].id == id {
            self.clients@[choose|c: int| 0 <= c < self.clients@.len() && self.clients@[c].id == id].game_room_id
        } else {
            0
        }
    }

    /// Index of the live room with id `rid`.
    pub open spec fn room_index(&self, rid: usize) -> int {
        choose|i: int| 0 <= i < self.rooms@.len() && self.rooms@[i].id == rid
    }

    /// Client `id` is recorded in a live room and sits there.
    pub open spec fn in_room(&self, id: usize) -> bool {
        let rid = self.client_room(id);
        &&& rid != 0
        &&& exists|i: int| 0 <= i < self.rooms@.len() && self.rooms@[i].id == rid
        &&& self.rooms@[self.room_index(rid)].seated(id)
    }

    /// The room client `id` is recorded in and sits in.
    pub fn get_context(&self, id: usize) -> (r: Result<usize, StratepigError>)
        requires
            self.wf(),
        ensures
            r is Ok <==> self.in_room(id),
            r matches Ok(i) ==> i == self.room_index(self.client_room(id)) && i < self.rooms@.len()
                && self.rooms@[i as int].seated(id) && self.rooms@[i as int].id == self.client_room(id),
            r is Err ==> r matches Err(StratepigError::MissingContext),
    {
        let c = match self.get_client(id) {
            Some(c) => c,
            None => return Err(StratepigError::MissingContext),
        };
        proof {
            let k = choose|k: int| 0 <= k < self.clients@.len() && self.clients@[k].id == id;
            assert(k == c);
        }
        let rid = self.clients[c].game_room_id;
        if rid == 0 {
            return Err(StratepigError::MissingContext);
        }
        let i = match self.get_room(rid) {
            Some(i) => i,
            None => return Err(StratepigError::MissingContext),
        };
        proof {
            let k = self.room_index(rid);
            assert(self.rooms@[i as int].id == rid);
            assert(k == i);
        }
        if !self.rooms[i].find_client_any(id) {
            return Err(StratepigError::MissingContext);
        }
        Ok(i)
    }
}

impl GameServer {
    /// A new connection: a fresh client id and the welcome message.
    pub fn handle_connection(&mut self) -> (r: Option<(usize, Vec<Action>)>)
        requires
            old(self).wf(),
        ensures
            final(self).wf(),
            final(self).rooms@ == old(self).rooms@,
            r is None <==> old(self).client_ids.free@.len() == 0 && old(self).client_ids.next == usize::MAX,
            r is None ==> final(self).clients@ == old(self).clients@,
            r matches Some((id, acts)) ==> {
                &&& Some(id) == next_id(old(self).client_ids.free@, old(self).client_ids.next)
                &&& final(self).clients@.len() == old(self).clients@.len() + 1
                &&& final(self).clients@.last().id == id
                &&& forall|k: int| 0 <= k < old(self).clients@.len() ==> old(self).clients@[k].id != id
                &&& acts@.len() == 1
                &&& acts@[0] matches Action::Send(to, ServerPacket::Welcome(p)) && to == id && p.my_id@ == decimal_spec(id as nat)
            },
    {
        let ghost free0 = self.client_ids.free@;
        let ghost next0 = self.client_ids.next;
        let id = match self.client_ids.allocate() {
            None => return None,
            Some(id) => id,
        };
        let ghost before = self.clients@;
        proof {
            lemma_allocate_fresh(free0, next0, client_ids_of(before), self.client_ids.free@, self.client_ids.next, id);
            assert forall|k: int| 0 <= k < before.len() implies before[k].id != id by {
                assert(client_ids_of(before)[k] == before[k].id);
            }
        }
        self.clients.push(Client::new(id));
        proof {
            assert(client_ids_of(self.clients@) =~= client_ids_of(before).push(id));
            assert forall|a: int, b: int| 0 <= a < self.clients@.len() && 0 <= b < self.clients@.len() && a != b
                implies self.clients@[a].id != self.clients@[b].id by {
                if a == before.len() as int {
                    assert(before[b].id != id);
                } else if b == before.len() as int {
                    assert(before[a].id != id);
                }
            }
        }
        let mut acts: Vec<Action> = Vec::new();
        acts.push(Action::Send(id, ServerPacket::Welcome(WelcomePacket { version: "0.1.0".to_owned(), my_id: id_string(id) })));
        Some((id, acts))
    }
}

impl GameServer {
    /// Records room `rid` for the client at index `c`.
    fn set_client_room(&mut self, c: usize, rid: usize)
        requires
            old(self).wf(),
            c < old(self).clients@.len(),
        ensures
            final(self).wf(),
            final(self).rooms@ == old(self).rooms@,
            final(self).clients@.len() == old(self).clients@.len(),
            final(self).clients@[c as int].id == old(self).clients@[c as int].id,
            final(self).clients@[c as int].game_room_id == rid,
            final(self).client_ids == old(self).client_ids,
            final(self).room_ids == old(self).room_ids,
            forall|k: int| 0 <= k < old(self).clients@.len() && k != c ==> final(self).clients@[k] == old(self).clients@[k],
    {
        let mut cl = self.clients.remove(c);
        cl.set_game_room(rid);
        self.clients.insert(c, cl);
        proof {
            assert(client_ids_of(self.clients@) =~= client_ids_of(old(self).clients@));
            assert forall|a: int, b: int| 0 <= a < self.clients@.len() && 0 <= b < self.clients@.len() && a != b
                implies self.clients@[a].id != self.clients@[b].id by {
                assert(self.clients@[a].id == old(self).clients@[a].id);
                assert(self.clients@[b].id == old(self).clients@[b].id);
            }
        }
    }

    /// Seats a participant in the room at index `i`.
    fn seat_client(&mut self, i: usize, p: Participant)
        requires
            old(self).wf(),
            i < old(self).rooms@.len(),
            old(self).rooms@[i as int].clients@.len() < 2,
            !old(self).rooms@[i as int].seated(p.client_id),
        ensures
            final(self).wf(),
            final(self).clients@ == old(self).clients@,
            final(self).rooms@.len() == old(self).rooms@.len(),
            final(self).rooms@[i as int].clients@ == old(self).rooms@[i as int].clients@.push(p),
            final(self).rooms@[i as int].id == old(self).rooms@[i as int].id,
            final(self).rooms@[i as int].code@ == old(self).rooms@[i as int].code@,
            final(self).rooms@[i as int].settings == old(self).rooms@[i as int].settings,
            final(self).client_ids == old(self).client_ids,
            final(self).room_ids == old(self).room_ids,
            forall|k: int| 0 <= k < old(self).rooms@.len() && k != i ==> final(self).rooms@[k] == old(self).rooms@[k],
    {
        let mut room = self.rooms.remove(i);
        let ghost before = room.clients@;
        room.clients.push(p);
        proof {
            assert forall|a: int, b: int| 0 <= a < room.clients@.len() && 0 <= b < room.clients@.len() && a != b
                implies room.clients@[a].client_id != room.clients@[b].client_id by {
                if a == before.len() as int {
                    assert(before[b].client_id != p.client_id);
                } else if b == before.len() as int {
                    assert(before[a].client_id != p.client_id);
                }
            }
        }
        self.rooms.insert(i, room);
        proof {
            assert(room_ids_of(self.rooms@) =~= room_ids_of(old(self).rooms@));
            assert forall|a: int, b: int| 0 <= a < self.rooms@.len() && 0 <= b < self.rooms@.len() && a != b
                implies self.rooms@[a].code@ != self.rooms@[b].code@ && self.rooms@[a].id != self.rooms@[b].id by {
                assert(self.rooms@[a].code@ == old(self).rooms@[a].code@);
                assert(self.rooms@[b].code@ == old(self).rooms@[b].code@);
            }
            assert forall|k: int| 0 <= k < self.rooms@.len() implies (#[trigger] self.rooms@[k]).wf() by {
                if k != i {
                    assert(self.rooms@[k] == old(self).rooms@[k]);
                }
            }
        }
    }

    /// A host or join request. A host opens a room with the requested (or default) settings
    /// and takes role one; a guest joins by code, as role two (one when the room is empty),
    /// under a username made unique in the room. Invalid names and icons are refused with a
    /// bare failure message; join failures are answered with a reason.
    pub fn handle_game_request(
        &mut self,
        id: usize,
        data: &GameRequestDefaultPacket,
        full: Option<&GameRequestFullPacket>,
        code: String,
        now_secs: u64,
    ) -> (r: (Vec<Action>, Result<Option<usize>, StratepigError>))
        requires
            old(self).wf(),
        ensures
            final(self).wf(),
            data.my_id@ != decimal_spec(id as nat) ==> (r.0@.len() == 0 && (r.1 matches Err(StratepigError::AssumeWrongId))
                && final(self).rooms@ == old(self).rooms@),
            data.my_id@ == decimal_spec(id as nat) && old(self).client_room(id) != 0 ==> r.1 is Err
                && final(self).rooms@ == old(self).rooms@,
            data.my_id@ == decimal_spec(id as nat) && (!username_ok(&data.username) || data.icon < 0 || data.icon >= 13)
                ==> r.1 is Err && final(self).rooms@ == old(self).rooms@ && (old(self).client_room(id) == 0
                && (exists|c: int| 0 <= c < old(self).clients@.len() && old(self).clients@[c].id == id) ==> (r.0@.len() == 1
                && (r.0@[0] matches Action::Send(to, ServerPacket::FailCreateGame(_)) && to == id))),
            r.1 matches Ok(Some(rid)) ==> exists|i: int| 0 <= i < final(self).rooms@.len() && final(self).rooms@[i].id == rid
                && final(self).rooms@[i].seated(id)
                && final(self).rooms@[i].clients@.last().client_id == id
                && final(self).rooms@[i].clients@.last().player.role == (if data.is_hosting || final(self).rooms@[i].clients@.len() == 1 {
                    PlayerRole::One
                } else {
                    PlayerRole::Two
                }),
            r.1 matches Ok(Some(rid)) ==> r.0@.len() >= 1 && (r.0@[0] matches Action::Send(to, ServerPacket::ClientInfo(p)) && to == id),
            r.1 matches Ok(None) ==> !data.is_hosting && final(self).rooms@ == old(self).rooms@ && r.0@.len() == 1
                && (r.0@[0] matches Action::Send(to, ServerPacket::ErrJoinGame(_)) && to == id),
            !data.is_hosting && data.my_id@ == decimal_spec(id as nat) && old(self).client_room(id) == 0 && username_ok(&data.username)
                && 0 <= data.icon < 13 && (exists|c: int| 0 <= c < old(self).clients@.len() && old(self).clients@[c].id == id)
                && !old(self).has_code(data.code@) ==> (r.1 == Ok::<Option<usize>, StratepigError>(None) && (r.0@[0] matches Action::Send(_, ServerPacket::ErrJoinGame(p))
                && p.msg@ == "Could not find the game you were looking for."@)),
            request_ok(*old(self), id, data) && data.is_hosting && host_settings_ok(data, full) && old(self).rooms@.len() < MAX_ROOMS
                && !old(self).has_code(code@) && next_id(old(self).room_ids.free@, old(self).room_ids.next) is Some ==> {
                let i = old(self).rooms@.len() as int;
                let room = final(self).rooms@[i];
                &&& r.1 == Ok::<Option<usize>, StratepigError>(Some(room.id))
                &&& Some(room.id) == next_id(old(self).room_ids.free@, old(self).room_ids.next)
                &&& final(self).rooms@.len() == i + 1
                &&& room.code@ == code@
                &&& room.clients@.len() == 1
                &&& room.clients@[0].client_id == id
                &&& room.clients@[0].player.role == PlayerRole::One
                &&& room.clients@[0].room_player.username@ == data.username@
                &&& data.data_null ==> room.settings.game_mode == crate::settings::GameMode::Original
                    && room.settings.placement_time == 300 && room.settings.turn_time == 15 && room.settings.buffer_time == 300
                    && Some(room.settings.pig_config@) == crate::settings::preset_spec(crate::settings::GameMode::Original)
                &&& !data.data_null ==> (full matches Some(f) && request_settings_spec(f.game_mode, f.placement_secs, f.turn_secs,
                    f.buffer_secs, f.pig_config@) == Ok::<_, crate::settings::ConfigError>((room.settings.game_mode,
                    room.settings.placement_time, room.settings.turn_time, room.settings.buffer_time, room.settings.pig_config@)))
                &&& final(self).client_room(id) == room.id
                &&& r.0@.len() == 3
                &&& r.0@[0] matches Action::Send(to, ServerPacket::ClientInfo(p)) && to == id && p.role == 1
                &&& r.0@[1] matches Action::Broadcast(ServerPacket::RoomPlayerAdd(p)) && p.id@ == decimal_spec(id as nat)
                &&& r.0@[2] matches Action::Send(to, ServerPacket::GameInfo(p)) && to == id && p.code@ == code@
            },
            request_ok(*old(self), id, data) && data.is_hosting && !data.data_null && full is None ==> r.1 is Err
                && final(self).rooms@ == old(self).rooms@ && r.0@.len() == 1 && (r.0@[0] matches Action::Send(to, ServerPacket::ErrJoinGame(p))
                && to == id && p.msg@ == "invalid packet"@),
            request_ok(*old(self), id, data) && data.is_hosting && !data.data_null && full is Some && !host_settings_ok(data, full)
                ==> r.1 is Err && final(self).rooms@ == old(self).rooms@ && r.0@.len() == 1 && (r.0@[0] matches Action::Send(to,
                ServerPacket::ErrJoinGame(p)) && to == id && p.msg@ == "invalid config"@),
            request_ok(*old(self), id, data) && data.is_hosting && host_settings_ok(data, full) && old(self).rooms@.len() >= MAX_ROOMS
                ==> r.1 is Err && final(self).rooms@ == old(self).rooms@ && r.0@.len() == 1 && (r.0@[0] matches Action::Send(to,
                ServerPacket::ErrJoinGame(p)) && to == id && p.msg@ == "There are too many rooms at the moment. Try again later."@),
            request_ok(*old(self), id, data) && !data.is_hosting && old(self).has_code(data.code@) ==> {
                let i = choose|i: int| 0 <= i < old(self).rooms@.len() && (#[trigger] old(self).rooms@[i]).code@ == data.code@;
                let a = old(self).rooms@[i];
                &&& a.in_game ==> r.1 == Ok::<Option<usize>, StratepigError>(None) && final(self).rooms@ == old(self).rooms@
                    && (r.0@[0] matches Action::Send(to, ServerPacket::ErrJoinGame(p)) && to == id && p.msg@ == "That game has already started."@)
                &&& !a.in_game && a.clients@.len() >= 2 ==> r.1 == Ok::<Option<usize>, StratepigError>(None) && final(self).rooms@
                    == old(self).rooms@ && (r.0@[0] matches Action::Send(to, ServerPacket::ErrJoinGame(p)) && to == id
                    && p.msg@ == "That game is full."@)
                &&& !a.in_game && a.clients@.len() < 2 && !a.seated(id) ==> {
                    let b = final(self).rooms@[i];
                    &&& r.1 == Ok::<Option<usize>, StratepigError>(Some(a.id))
                    &&& b.id == a.id
                    &&& b.clients@.len() == a.clients@.len() + 1
                    &&& b.clients@.drop_last() == a.clients@
                    &&& b.clients@.last().client_id == id
                    &&& b.clients@.last().player.role == (if a.clients@.len() == 0 { PlayerRole::One } else { PlayerRole::Two })
                    &&& safe_name(a, data.username@, b.clients@.last().room_player.username@)
                    &&& final(self).client_room(id) == a.id
                    &&& r.0@[0] matches Action::Send(to, ServerPacket::ClientInfo(p)) && to == id
                        && p.role == crate::player::role_wire(b.clients@.last().player.role)
                }
            },
    {
        let mut acts: Vec<Action> = Vec::new();
        proof {
            reveal_strlit("There are too many rooms at the moment. Try again later.");
            reveal_strlit("");
        }
        let expected = id_string(id);
        if expected != data.my_id {
            return (acts, Err(StratepigError::AssumeWrongId));
        }
        let c = match self.get_client(id) {
            Some(c) => c,
            None => return (acts, Err(StratepigError::MissingContext)),
        };
        proof {
            let k = choose|k: int| 0 <= k < self.clients@.len() && self.clients@[k].id == id;
            assert(k == c);
        }
        if self.clients[c].game_room_id != 0 {
            return (acts, Err(StratepigError::with("already in a room")));
        }
        let name_str = data.username.as_str();
        let name_bytes = name_str.as_bytes();
        let name_len = name_bytes.len();
        proof {
            assert(name_str@ == data.username@);
            assert(name_len == name_str.spec_bytes().len());
        }
        if trim(name_str).is_empty() || name_len > MAX_USERNAME_LENGTH || data.icon < 0 || data.icon >= 13 {
            acts.push(Action::Send(id, ServerPacket::FailCreateGame(FailCreateGamePacket {})));
            return (acts, Err(StratepigError::with("failed to create game")));
        }
        proof {
            assert(trim_spec(data.username@).len() > 0);
            assert(encode_utf8(data.username@).len() <= MAX_USERNAME_LENGTH);
        }
        if data.is_hosting {
            let settings = if data.data_null {
                GameRoomSettings::default()
            } else {
                match full {
                    None => {
                        acts.push(Action::Send(id, ServerPacket::ErrJoinGame(ErrJoinGamePacket { msg: "invalid packet".to_owned() })));
                        return (acts, Err(StratepigError::with("failed to create game")));
                    },
                    Some(f) => match settings_from_request(f.game_mode, f.placement_secs, f.turn_secs, f.buffer_secs, &f.pig_config) {
                        Ok(s) => s,
                        Err(_) => {
                            acts.push(Action::Send(id, ServerPacket::ErrJoinGame(ErrJoinGamePacket { msg: "invalid config".to_owned() })));
                            return (acts, Err(StratepigError::with("failed to create game")));
                        },
                    },
                }
            };
            let i = match self.new_room(code, settings, now_secs) {
                Ok(i) => i,
                Err(msg) => {
                    if msg.as_str().is_empty() {
                        acts.push(Action::Send(id, ServerPacket::FailCreateGame(FailCreateGamePacket {})));
                    } else {
                        acts.push(Action::Send(id, ServerPacket::ErrJoinGame(ErrJoinGamePacket { msg })));
                    }
                    return (acts, Err(StratepigError::with("failed to create game")));
                },
            };
            let p = Participant {
                client_id: id,
                room_player: RoomPlayer { username: data.username.clone(), ready: false, icon: data.icon as u8 },
                player: Player::new(PlayerRole::One),
            };
            self.seat_client(i, p);
            let rid = self.rooms[i].id;
            self.set_client_room(c, rid);
            acts.push(Action::Send(id, ServerPacket::ClientInfo(ClientInfoPacket { role: 1 })));
            let mut adds = self.rooms[i].room_player_add();
            acts.append(&mut adds);
            acts.push(Action::Send(id, ServerPacket::GameInfo(self.rooms[i].game_info())));
            proof {
                assert(self.rooms@[i as int].clients@.last().client_id == id);
                assert(self.rooms@[i as int].clients@[self.rooms@[i as int].clients@.len() - 1].client_id == id);
            }
            return (acts, Ok(Some(rid)));
        }
        let i = match self.try_join_room(&data.code) {
            Ok(i) => i,
            Err(e) => {
                let msg = match e {
                    crate::server::GameRoomError::NotFound => "Could not find the game you were looking for.",
                    crate::server::GameRoomError::Started => "That game has already started.",
                    crate::server::GameRoomError::Full => "That game is full.",
                };
                acts.push(Action::Send(id, ServerPacket::ErrJoinGame(ErrJoinGamePacket { msg: msg.to_owned() })));
                return (acts, Ok(None));
            },
        };
        let role = if self.rooms[i].clients.len() == 0 { PlayerRole::One } else { PlayerRole::Two };
        let username = self.rooms[i].generate_safe_username(&data.username);
        if self.rooms[i].find_client_any(id) {
            return (acts, Err(StratepigError::with("already in a room")));
        }
        let p = Participant {
            client_id: id,
            room_player: RoomPlayer { username, ready: false, icon: data.icon as u8 },
            player: Player::new(role),
        };
        self.seat_client(i, p);
        let rid = self.rooms[i].id;
        self.set_client_room(c, rid);
        acts.push(Action::Send(id, ServerPacket::ClientInfo(ClientInfoPacket { role: role.to_wire() })));
        let mut adds = self.rooms[i].room_player_add();
        acts.append(&mut adds);
        acts.push(Action::Send(id, ServerPacket::GameInfo(self.rooms[i].game_info())));
        proof {
            assert(self.rooms@[i as int].clients@[self.rooms@[i as int].clients@.len() - 1].client_id == id);
        }
        (acts, Ok(Some(rid)))
    }
}

/// Replacing one room by a room with the same id and code keeps the registry well formed.
pub proof fn lemma_replace_room(old_rooms: Seq<GameRoomInner>, i: int, room: GameRoomInner)
    requires
        0 <= i < old_rooms.len(),
        codes_unique(old_rooms),
        ids_unique(old_rooms),
        forall|k: int| 0 <= k < old_rooms.len() ==> (#[trigger] old_rooms[k]).wf(),
        room.id == old_rooms[i].id,
        room.code@ == old_rooms[i].code@,
        room.wf(),
    ensures
        codes_unique(old_rooms.update(i, room)),
        ids_unique(old_rooms.update(i, room)),
        forall|k: int| 0 <= k < old_rooms.len() ==> (#[trigger] old_rooms.update(i, room)[k]).wf(),
{
    let n = old_rooms.update(i, room);
    assert forall|a: int, b: int| 0 <= a < n.len() && 0 <= b < n.len() && a != b implies n[a].code@ != n[b].code@
        && n[a].id != n[b].id by {
        assert(n[a].code@ == old_rooms[a].code@ && n[a].id == old_rooms[a].id);
        assert(n[b].code@ == old_rooms[b].code@ && n[b].id == old_rooms[b].id);
    }
}

/// Removing rooms keeps codes and ids unique.
pub proof fn lemma_remove_room(rooms: Seq<GameRoomInner>, i: int)
    requires
        0 <= i < rooms.len(),
        codes_unique(rooms),
        ids_unique(rooms),
        forall|k: int| 0 <= k < rooms.len() ==> (#[trigger] rooms[k]).wf(),
    ensures
        codes_unique(rooms.remove(i)),
        ids_unique(rooms.remove(i)),
        forall|k: int| 0 <= k < rooms.remove(i).len() ==> (#[trigger] rooms.remove(i)[k]).wf(),
{
    let n = rooms.remove(i);
    assert forall|a: int, b: int| 0 <= a < n.len() && 0 <= b < n.len() && a != b implies n[a].code@ != n[b].code@
        && n[a].id != n[b].id by {
        let a2 = if a < i { a } else { a + 1 };
        let b2 = if b < i { b } else { b + 1 };
        assert(n[a] == rooms[a2]);
        assert(n[b] == rooms[b2]);
    }
    assert forall|k: int| 0 <= k < n.len() implies (#[trigger] n[k]).wf() by {
        let k2 = if k < i { k } else { k + 1 };
        assert(n[k] == rooms[k2]);
    }
}

impl GameServer {
    /// Client `id` leaves its room (or its connection closed): the seat is freed and an
    /// emptied room is closed, giving its id back; the client's room link is cleared.
    pub fn handle_client_leave(&mut self, id: usize) -> (r: (Option<usize>, Vec<Action>))
        requires
            old(self).wf(),
        ensures
            final(self).wf(),
            final(self).clients@.len() == old(self).clients@.len(),
            client_ids_of(final(self).clients@) == client_ids_of(old(self).clients@),
            final(self).client_ids == old(self).client_ids,
            !old(self).in_room(id) ==> r.0 is None && r.1@.len() == 0 && final(self).rooms@ == old(self).rooms@
                && final(self).clients@ == old(self).clients@ && final(self).room_ids == old(self).room_ids,
            old(self).in_room(id) ==> {
                let i = old(self).room_index(old(self).client_room(id));
                let a = old(self).rooms@[i];
                &&& r.0 == Some(a.id)
                &&& run_timers(a.room_ticker, a.game_ticker, r.1@) == Some((false, false))
                &&& final(self).client_room(id) == 0
                &&& a.clients@.len() == 1 ==> final(self).rooms@ == old(self).rooms@.remove(i)
                    && final(self).room_ids.free@ == old(self).room_ids.free@.push(a.id)
                &&& a.clients@.len() > 1 ==> {
                    &&& final(self).rooms@.len() == old(self).rooms@.len()
                    &&& seat_freed(a, final(self).rooms@[i], id)
                    &&& forall|k: int| 0 <= k < old(self).rooms@.len() && k != i ==> final(self).rooms@[k] == old(self).rooms@[k]
                    &&& r.1@.last() matches Action::Broadcast(ServerPacket::ClientDisconnect(p)) && p.id@ == decimal_spec(id as nat)
                        && p.timestamp == 0
                    &&& final(self).room_ids == old(self).room_ids
                }
            },
    {
        let i = match self.get_context(id) {
            Ok(i) => i,
            Err(_) => {
                return (None, Vec::new());
            },
        };
        let ghost old_rooms = self.rooms@;
        let mut room = self.rooms.remove(i);
        let acts = room.remove_client(id);
        let rid = room.id;
        if room.clients.len() == 0 {
            proof {
                lemma_remove_room(old_rooms, i as int);
                assert(self.rooms@ =~= old_rooms.remove(i as int));
                let ids = room_ids_of(old_rooms);
                assert(ids.no_duplicates()) by {
                    assert forall|x: int, y: int| 0 <= x < ids.len() && 0 <= y < ids.len() && x != y implies ids[x] != ids[y] by {
                        assert(ids[x] == old_rooms[x].id && ids[y] == old_rooms[y].id);
                    }
                }
                lemma_release_fresh(self.room_ids.free@, self.room_ids.next, ids, i as int);
                assert(room_ids_of(self.rooms@) =~= ids.remove(i as int));
                assert(ids[i as int] == rid);
            }
            self.room_ids.release(rid);
        } else {
            self.rooms.insert(i, room);
            proof {
                assert(self.rooms@ =~= old_rooms.update(i as int, room));
                lemma_replace_room(old_rooms, i as int, room);
                assert(room_ids_of(self.rooms@) =~= room_ids_of(old_rooms));
            }
        }
        match self.get_client(id) {
            Some(c) => {
                self.set_client_room(c, 0);
                proof {
                    let k = choose|k: int| 0 <= k < self.clients@.len() && self.clients@[k].id == id;
                    assert(k == c);
                }
            },
            None => {},
        }
        (Some(rid), acts)
    }

    /// The connection of client `id` closed: it leaves its room as
    /// [`GameServer::handle_client_leave`] says, and its entry and id are released.
    pub fn handle_disconnect(&mut self, id: usize) -> (r: (Option<usize>, Vec<Action>))
        requires
            old(self).wf(),
        ensures
            final(self).wf(),
            forall|k: int| 0 <= k < final(self).clients@.len() ==> (#[trigger] final(self).clients@[k]).id != id,
            (exists|c: int| 0 <= c < old(self).clients@.len() && old(self).clients@[c].id == id) ==> final(self).client_ids.free@
                == old(self).client_ids.free@.push(id) && final(self).clients@.len() == old(self).clients@.len() - 1,
            !old(self).in_room(id) ==> r.0 is None && r.1@.len() == 0 && final(self).rooms@ == old(self).rooms@,
            old(self).in_room(id) ==> {
                let i = old(self).room_index(old(self).client_room(id));
                let a = old(self).rooms@[i];
                &&& r.0 == Some(a.id)
                &&& run_timers(a.room_ticker, a.game_ticker, r.1@) == Some((false, false))
                &&& a.clients@.len() == 1 ==> final(self).rooms@ == old(self).rooms@.remove(i)
                    && final(self).room_ids.free@ == old(self).room_ids.free@.push(a.id)
                &&& a.clients@.len() > 1 ==> {
                    &&& final(self).rooms@.len() == old(self).rooms@.len()
                    &&& seat_freed(a, final(self).rooms@[i], id)
                    &&& forall|k: int| 0 <= k < old(self).rooms@.len() && k != i ==> final(self).rooms@[k] == old(self).rooms@[k]
                    &&& r.1@.last() matches Action::Broadcast(ServerPacket::ClientDisconnect(p)) && p.id@ == decimal_spec(id as nat)
                        && p.timestamp == 0
                }
            },
    {
        let res = self.handle_client_leave(id);
        match self.get_client(id) {
            Some(c) => {
                let ghost before = self.clients@;
                self.clients.remove(c);
                proof {
                    assert forall|a: int, b: int| 0 <= a < self.clients@.len() && 0 <= b < self.clients@.len() && a != b
                        implies self.clients@[a].id != self.clients@[b].id by {
                        let a2 = if a < c { a } else { a + 1 };
                        let b2 = if b < c { b } else { b + 1 };
                        assert(self.clients@[a] == before[a2]);
                        assert(self.clients@[b] == before[b2]);
                    }
                    assert forall|k: int| 0 <= k < self.clients@.len() implies (#[trigger] self.clients@[k]).id != id by {
                        let k2 = if k < c { k } else { k + 1 };
                        assert(self.clients@[k] == before[k2]);
                        assert(before[c as int].id == id);
                    }
                    let ids = client_ids_of(before);
                    assert(ids.no_duplicates()) by {
                        assert forall|x: int, y: int| 0 <= x < ids.len() && 0 <= y < ids.len() && x != y implies ids[x] != ids[y] by {
                            assert(ids[x] == before[x].id && ids[y] == before[y].id);
                        }
                    }
                    lemma_release_fresh(self.client_ids.free@, self.client_ids.next, ids, c as int);
                    assert(client_ids_of(self.clients@) =~= ids.remove(c as int));
                    assert(ids[c as int] == id);
                    if exists|k: int| 0 <= k < old(self).clients@.len() && old(self).clients@[k].id == id {
                        assert(before.len() == old(self).clients@.len());
                    }
                }
                self.client_ids.release(id);
            },
            None => {
                proof {
                    assert forall|k: int| 0 <= k < old(self).clients@.len() implies old(self).clients@[k].id != id by {
                        assert(client_ids_of(old(self).clients@)[k] == old(self).clients@[k].id);
                        assert(client_ids_of(self.clients@)[k] == self.clients@[k].id);
                    }
                }
            },
        }
        res
    }

    /// The idle reaper: closes every room that is not in active play (or whose game ended) and
    /// has been idle longer than the limit; each seated client is told, and the ids are given
    /// back. Returns the kick messages to send.
    pub fn prune_rooms(&mut self, now_secs: u64) -> (r: Vec<Action>)
        requires
            old(self).wf(),
        ensures
            final(self).wf(),
            final(self).clients@.len() == old(self).clients@.len(),
            forall|k: int| 0 <= k < final(self).rooms@.len() ==> !prunable(#[trigger] final(self).rooms@[k], now_secs),
            forall|k: int| 0 <= k < old(self).rooms@.len() && !prunable(#[trigger] old(self).rooms@[k], now_secs)
                ==> final(self).rooms@.contains(old(self).rooms@[k]),
            forall|k: int| 0 <= k < final(self).rooms@.len() ==> old(self).rooms@.contains(#[trigger] final(self).rooms@[k]),
            forall|k: int| 0 <= k < r@.len() ==> is_kick(#[trigger] r@[k]),
            forall|k: int, m: int| 0 <= k < old(self).rooms@.len() && prunable(old(self).rooms@[k], now_secs)
                && 0 <= m < old(self).rooms@[k].clients@.len() ==> kicked(r@, (#[trigger] old(self).rooms@[k].clients@[m]).client_id),
            forall|k: int| 0 <= k < old(self).rooms@.len() && prunable(#[trigger] old(self).rooms@[k], now_secs)
                ==> final(self).room_ids.free@.contains(old(self).rooms@[k].id),
    {
        let mut acts: Vec<Action> = Vec::new();
        let ghost mut removed: Seq<GameRoomInner> = Seq::empty();
        let mut i: usize = 0;
        while i < self.rooms.len()
            invariant
                i <= self.rooms@.len(),
                self.wf(),
                self.clients@.len() == old(self).clients@.len(),
                forall|m: int| 0 <= m < self.clients@.len() ==> (#[trigger] self.clients@[m]).id == old(self).clients@[m].id,
                forall|k: int| 0 <= k < i ==> !prunable(#[trigger] self.rooms@[k], now_secs),
                forall|k: int| 0 <= k < self.rooms@.len() ==> old(self).rooms@.contains(#[trigger] self.rooms@[k]),
                forall|k: int| 0 <= k < old(self).rooms@.len() && !prunable(#[trigger] old(self).rooms@[k], now_secs)
                    ==> self.rooms@.contains(old(self).rooms@[k]),
                forall|k: int| 0 <= k < acts@.len() ==> is_kick(#[trigger] acts@[k]),
                forall|k: int| 0 <= k < old(self).rooms@.len() ==> self.rooms@.contains(#[trigger] old(self).rooms@[k])
                    || removed.contains(old(self).rooms@[k]),
                forall|j: int| 0 <= j < removed.len() ==> self.room_ids.free@.contains(#[trigger] removed[j].id),
                forall|j: int, m: int| 0 <= j < removed.len() && 0 <= m < removed[j].clients@.len() ==> kicked(
                    acts@,
                    (#[trigger] removed[j].clients@[m]).client_id,
                ),
            decreases self.rooms@.len() - i,
        {
            let idle = (!self.rooms[i].in_game || self.rooms[i].game_ended)
                && now_secs as u128 > self.rooms[i].last_seen_at as u128 + MAX_PRUNE_AGE_SECS as u128;
            if idle {
                let ghost before = self.rooms@;
                let room = self.rooms.remove(i);
                proof {
                    lemma_remove_room(before, i as int);
                    assert forall|k: int| 0 <= k < self.rooms@.len() implies old(self).rooms@.contains(#[trigger] self.rooms@[k]) by {
                        let k2 = if k < i { k } else { k + 1 };
                        assert(self.rooms@[k] == before[k2]);
                        assert(before.contains(before[k2]));
                    }
                    assert forall|k: int| 0 <= k < old(self).rooms@.len() && !prunable(#[trigger] old(self).rooms@[k], now_secs)
                        implies self.rooms@.contains(old(self).rooms@[k]) by {
                        let x = old(self).rooms@[k];
                        assert(before.contains(x));
                        let m = choose|m: int| 0 <= m < before.len() && before[m] == x;
                        assert(m != i);
                        let m2 = if m < i { m } else { m - 1 };
                        assert(self.rooms@[m2] == x);
                    }
                }
                proof {
                    let ids = room_ids_of(before);
                    assert(ids.no_duplicates()) by {
                        assert forall|x: int, y: int| 0 <= x < ids.len() && 0 <= y < ids.len() && x != y implies ids[x] != ids[y] by {
                            assert(ids[x] == before[x].id && ids[y] == before[y].id);
                        }
                    }
                    lemma_release_fresh(self.room_ids.free@, self.room_ids.next, ids, i as int);
                    assert(room_ids_of(self.rooms@) =~= ids.remove(i as int));
                    assert(ids[i as int] == room.id);
                    assert forall|k: int| 0 <= k < old(self).rooms@.len() implies self.rooms@.contains(#[trigger] old(self).rooms@[k])
                        || removed.push(room).contains(old(self).rooms@[k]) by {
                        let x = old(self).rooms@[k];
                        if removed.contains(x) {
                            let j = choose|j: int| 0 <= j < removed.len() && removed[j] == x;
                            assert(removed.push(room)[j] == x);
                        } else {
                            assert(before.contains(x));
                            let m = choose|m: int| 0 <= m < before.len() && before[m] == x;
                            if m == i {
                                assert(removed.push(room)[removed.len() as int] == x);
                            } else {
                                let m2 = if m < i { m } else { m - 1 };
                                assert(self.rooms@[m2] == x);
                            }
                        }
                    }
                }
                let ghost free_before = self.room_ids.free@;
                self.room_ids.release(room.id);
                proof {
                    assert forall|j: int| 0 <= j < removed.len() implies self.room_ids.free@.contains(#[trigger] removed[j].id) by {
                        let q = choose|q: int| 0 <= q < free_before.len() && free_before[q] == removed[j].id;
                        assert(self.room_ids.free@[q] == removed[j].id);
                    }
                    assert(self.room_ids.free@[free_before.len() as int] == room.id);
                }
                let ghost old_rooms_now = self.rooms@;
                let ghost acts_before = acts@;
                let ghost removed_before = removed;
                proof {
                    assert forall|j: int, m: int| 0 <= j < removed_before.len() && 0 <= m < removed_before[j].clients@.len() implies kicked(
                        acts_before,
                        (#[trigger] removed_before[j].clients@[m]).client_id,
                    ) by {
                        assert(removed[j].clients@[m] == removed_before[j].clients@[m]);
                    }
                }
                let mut k: usize = 0;
                while k < room.clients.len()
                    invariant
                        k <= room.clients@.len(),
                        acts@.len() == acts_before.len() + k,
                        forall|m: int| 0 <= m < acts_before.len() ==> acts@[m] == acts_before[m],
                        forall|m: int| 0 <= m < acts@.len() ==> is_kick(#[trigger] acts@[m]),
                        forall|m: int| 0 <= m < k ==> kicks(#[trigger] acts@[acts_before.len() + m], room.clients@[m].client_id),
                    decreases room.clients@.len() - k,
                {
                    acts.push(Action::Send(room.clients[k].client_id, ServerPacket::Kicked(KickedPacket {
                        msg: "Room closed due to inactivity.".to_owned(),
                    })));
                    k += 1;
                }
                proof {
                    let rm2 = removed.push(room);
                    assert forall|j: int, m: int| 0 <= j < rm2.len() && 0 <= m < rm2[j].clients@.len() implies kicked(
                        acts@,
                        (#[trigger] rm2[j].clients@[m]).client_id,
                    ) by {
                        if j < removed.len() {
                            assert(rm2[j] == removed_before[j]);
                            assert(kicked(acts_before, removed_before[j].clients@[m].client_id));
                            let q = choose|q: int| 0 <= q < acts_before.len() && kicks(acts_before[q], removed_before[j].clients@[m].client_id);
                            assert(acts@[q] == acts_before[q]);
                        } else {
                            assert(rm2[j] == room);
                            assert(kicks(acts@[acts_before.len() + m], room.clients@[m].client_id));
                        }
                    }
                    removed = rm2;
                }
                let ghost free_now = self.room_ids.free@;
                let ghost acts_now = acts@;
                let ghost removed_now = removed;
                let mut c: usize = 0;
                while c < self.clients.len()
                    invariant
                        c <= self.clients@.len(),
                        self.wf(),
                        self.rooms@ == old_rooms_now,
                        self.room_ids.free@ == free_now,
                        acts@ == acts_now,
                        removed == removed_now,
                        self.clients@.len() == old(self).clients@.len(),
                        forall|m: int| 0 <= m < self.clients@.len() ==> (#[trigger] self.clients@[m]).id == old(self).clients@[m].id,
                    decreases self.clients@.len() - c,
                {
                    if self.clients[c].game_room_id == room.id {
                        self.set_client_room(c, 0);
                    }
                    c += 1;
                }
            } else {
                i += 1;
            }
        }
        proof {
            assert forall|k: int| 0 <= k < old(self).rooms@.len() && prunable(#[trigger] old(self).rooms@[k], now_secs)
                implies removed.contains(old(self).rooms@[k]) by {
                let x = old(self).rooms@[k];
                if self.rooms@.contains(x) {
                    let q = choose|q: int| 0 <= q < self.rooms@.len() && self.rooms@[q] == x;
                    assert(!prunable(self.rooms@[q], now_secs));
                }
            }
            assert forall|k: int| 0 <= k < old(self).rooms@.len() && prunable(#[trigger] old(self).rooms@[k], now_secs)
                implies self.room_ids.free@.contains(old(self).rooms@[k].id) by {
                let x = old(self).rooms@[k];
                assert(removed.contains(x));
            }
            assert forall|k: int, m: int| 0 <= k < old(self).rooms@.len() && prunable(old(self).rooms@[k], now_secs)
                && 0 <= m < old(self).rooms@[k].clients@.len() implies kicked(acts@, (#[trigger] old(self).rooms@[k].clients@[m]).client_id) by {
                let x = old(self).rooms@[k];
                assert(removed.contains(x));
                let j = choose|j: int| 0 <= j < removed.len() && removed[j] == x;
                assert(removed[j].clients@[m] == x.clients@[m]);
            }
            assert forall|k: int| 0 <= k < old(self).rooms@.len() && prunable(#[trigger] old(self).rooms@[k], now_secs)
                implies self.room_ids.free@.contains(old(self).rooms@[k].id) by {
                let x = old(self).rooms@[k];
                assert(removed.contains(x));
                let j = choose|j: int| 0 <= j < removed.len() && removed[j] == x;
                assert(self.room_ids.free@.contains(removed[j].id));
            }
        }
        acts
    }
}

/// What a request came to: the room whose participants `Broadcast` actions go to, the
/// actions, and the outcome.
#[derive(Debug)]
pub struct Reply {
    pub room: Option<usize>,
    pub actions: Vec<Action>,
    pub result: Result<(), StratepigError>,
}

impl GameServer {
    /// A reply with nothing to do.
    fn fail(e: StratepigError) -> (r: Reply)
        ensures
            r.room is None,
            r.actions@.len() == 0,
            r.result == Err::<(), StratepigError>(e),
    {
        Reply { room: None, actions: Vec::new(), result: Err(e) }
    }

    /// Puts a room taken out at index `i` back in place.
    fn put_room(&mut self, i: usize, room: GameRoomInner, Ghost(old_rooms): Ghost<Seq<GameRoomInner>>)
        requires
            old(self).rooms@ == old_rooms.remove(i as int),
            0 <= i < old_rooms.len(),
            codes_unique(old_rooms),
            ids_unique(old_rooms),
            old_rooms.len() <= MAX_ROOMS,
            forall|k: int| 0 <= k < old_rooms.len() ==> (#[trigger] old_rooms[k]).wf(),
            forall|a: int, b: int| 0 <= a < old(self).clients@.len() && 0 <= b < old(self).clients@.len() && a != b
                ==> old(self).clients@[a].id != old(self).clients@[b].id,
            room.id == old_rooms[i as int].id,
            room.code@ == old_rooms[i as int].code@,
            room.wf(),
            fresh(old(self).room_ids.free@, old(self).room_ids.next, room_ids_of(old_rooms)),
            fresh(old(self).client_ids.free@, old(self).client_ids.next, client_ids_of(old(self).clients@)),
        ensures
            final(self).wf(),
            final(self).rooms@ == old_rooms.update(i as int, room),
            final(self).clients@ == old(self).clients@,
    {
        self.rooms.insert(i, room);
        proof {
            assert(self.rooms@ =~= old_rooms.update(i as int, room));
            lemma_replace_room(old_rooms, i as int, room);
            assert(room_ids_of(self.rooms@) =~= room_ids_of(old_rooms));
        }
    }

    /// A framed request from client `id`: the message is decoded, its guard checked, and its
    /// handler run on the client's room, which is then marked active.
    #[verifier::rlimit(100)]
    pub fn handle_data(&mut self, id: usize, packet: &Packet, now_ms: u64, now_secs: u64) -> (r: Reply)
        requires
            old(self).wf(),
            now_ms <= crate::room::MAX_TIME_MS,
        ensures
            final(self).wf(),
            client_message_spec(packet.header.id) == ClientMessage::Null ==> r.actions@.len() == 0 && r.result is Ok
                && final(self).rooms@ == old(self).rooms@,
            forall|g: BaseGuardPacket|
                client_message_spec(packet.header.id) != ClientMessage::Null && client_message_spec(packet.header.id)
                    != ClientMessage::GameRequestSent && all_encodable(g.field_values()) && #[trigger] prefix_at(
                    packet.body@,
                    0,
                    enc_fields(g.field_values()),
                ) && g.my_id@ != decimal_spec(id as nat) ==> (r.result matches Err(StratepigError::AssumeWrongId))
                    && r.actions@.len() == 0 && final(self).rooms@ == old(self).rooms@,
            forall|g: BaseGuardPacket|
                client_message_spec(packet.header.id) != ClientMessage::Null && client_message_spec(packet.header.id)
                    != ClientMessage::GameRequestSent && all_encodable(g.field_values()) && #[trigger] prefix_at(
                    packet.body@,
                    0,
                    enc_fields(g.field_values()),
                ) && g.my_id@ == decimal_spec(id as nat) && !old(self).in_room(id) ==> (r.result matches Err(StratepigError::MissingContext))
                    && r.actions@.len() == 0 && final(self).rooms@ == old(self).rooms@,
            forall|d: GameRequestDefaultPacket|
                client_message_spec(packet.header.id) == ClientMessage::GameRequestSent && all_encodable(d.field_values())
                    && #[trigger] prefix_at(packet.body@, 0, enc_fields(d.field_values())) && request_ok(*old(self), id, &d)
                    && d.is_hosting && d.data_null && old(self).rooms@.len() < MAX_ROOMS && next_id(
                    old(self).room_ids.free@,
                    old(self).room_ids.next,
                ) is Some ==> r.result is Ok && r.room is Some && final(self).rooms@.len() == old(self).rooms@.len() + 1,
            forall|u: UpdateReadyStatePacket|
                client_message_spec(packet.header.id) == ClientMessage::UpdateReadyState && all_encodable(u.field_values())
                    && #[trigger] prefix_at(packet.body@, 0, enc_fields(u.field_values())) && u.my_id@ == decimal_spec(id as nat)
                    && old(self).in_room(id) ==> (r.result is Ok <==> !old(self).rooms@[old(self).room_index(old(self).client_room(id))].in_game),
            forall|u: UpdatePigIconPacket|
                client_message_spec(packet.header.id) == ClientMessage::UpdatePigIcon && all_encodable(u.field_values())
                    && #[trigger] prefix_at(packet.body@, 0, enc_fields(u.field_values())) && u.my_id@ == decimal_spec(id as nat)
                    && old(self).in_room(id) ==> (r.result is Ok <==> u.icon <= 12),
            forall|g: BaseGuardPacket|
                client_message_spec(packet.header.id) == ClientMessage::Surrender && all_encodable(g.field_values())
                    && #[trigger] prefix_at(packet.body@, 0, enc_fields(g.field_values())) && g.my_id@ == decimal_spec(id as nat)
                    && old(self).in_room(id) ==> {
                    let a = old(self).rooms@[old(self).room_index(old(self).client_room(id))];
                    r.result is Ok <==> a.in_game && !a.game_ended
                },
            forall|g: BaseGuardPacket|
                client_message_spec(packet.header.id) == ClientMessage::PlayAgain && all_encodable(g.field_values())
                    && #[trigger] prefix_at(packet.body@, 0, enc_fields(g.field_values())) && g.my_id@ == decimal_spec(id as nat)
                    && old(self).in_room(id) ==> {
                    let a = old(self).rooms@[old(self).room_index(old(self).client_room(id))];
                    r.result is Ok <==> a.game_ended && !a.clients@[a.seat(id)].player.play_again
                },
            forall|g: BaseGuardPacket|
                client_message_spec(packet.header.id) == ClientMessage::LeaveGame && all_encodable(g.field_values())
                    && #[trigger] prefix_at(packet.body@, 0, enc_fields(g.field_values())) && g.my_id@ == decimal_spec(id as nat)
                    && old(self).in_room(id) ==> r.result is Ok && r.room == Some(old(self).client_room(id))
                    && !final(self).in_room(id),
            forall|u: FinishedSceneLoadPacket|
                client_message_spec(packet.header.id) == ClientMessage::FinishedSceneLoad && all_encodable(u.field_values())
                    && #[trigger] prefix_at(packet.body@, 0, enc_fields(u.field_values())) && u.my_id@ == decimal_spec(id as nat)
                    && old(self).in_room(id) ==> r.result is Ok,
            forall|u: UpdateSettingsValue|
                client_message_spec(packet.header.id) == ClientMessage::UpdateSettingsValue && all_encodable(u.field_values())
                    && #[trigger] prefix_at(packet.body@, 0, enc_fields(u.field_values())) && u.my_id@ == decimal_spec(id as nat)
                    && old(self).in_room(id) ==> r.result is Ok,
            forall|u: UpdatePigItemValuePacket|
                client_message_spec(packet.header.id) == ClientMessage::UpdatePigItemValue && all_encodable(u.field_values())
                    && #[trigger] prefix_at(packet.body@, 0, enc_fields(u.field_values())) && u.my_id@ == decimal_spec(id as nat)
                    && old(self).in_room(id) ==> {
                    let a = old(self).rooms@[old(self).room_index(old(self).client_room(id))];
                    r.result is Ok <==> u.pig < 13 && a.clients@[a.seat(id)].player.role == PlayerRole::One
                },
            forall|m: MovePacket|
                client_message_spec(packet.header.id) == ClientMessage::Move && all_encodable(m.field_values()) && #[trigger] prefix_at(
                    packet.body@,
                    0,
                    enc_fields(m.field_values()),
                ) && m.my_id@ == decimal_spec(id as nat) && old(self).in_room(id) ==> {
                    let a = old(self).rooms@[old(self).room_index(old(self).client_room(id))];
                    r.result is Ok <==> (a.game_phase == 2 && !a.game_ended && crate::room::move_accepted(
                        a,
                        id,
                        m.from_location,
                        m.to_location,
                        old(self).config,
                    ))
                },
    {
        let body = packet.body.as_slice();
        let kind = ClientMessage::from(packet.header.id);
        if kind == ClientMessage::Null {
            return Reply { room: None, actions: Vec::new(), result: Ok(()) };
        }
        if kind == ClientMessage::GameRequestSent {
            let data = match GameRequestDefaultPacket::deserialize(body) {
                Ok(d) => d,
                Err(e) => return Self::fail(StratepigError::Core(e)),
            };
            proof {
                assert forall|d: GameRequestDefaultPacket| all_encodable(d.field_values()) && #[trigger] prefix_at(
                    packet.body@,
                    0,
                    enc_fields(d.field_values()),
                ) implies d.my_id@ == data.my_id@ && d.is_hosting == data.is_hosting && d.username@ == data.username@
                    && d.icon == data.icon && d.data_null == data.data_null by {
                    assert(kinds_of(d.field_values()) =~= kinds_of(data.field_values()));
                    lemma_fields_unique(packet.body@, d.field_values(), data.field_values());
                    assert(same_value(d.field_values()[0], data.field_values()[0]));
                    assert(same_value(d.field_values()[1], data.field_values()[1]));
                    assert(same_value(d.field_values()[2], data.field_values()[2]));
                    assert(same_value(d.field_values()[3], data.field_values()[3]));
                    assert(same_value(d.field_values()[5], data.field_values()[5]));
                }
            }
            let full = if data.is_hosting && !data.data_null {
                match GameRequestFullPacket::deserialize(body) {
                    Ok(f) => Some(f),
                    Err(_) => None,
                }
            } else {
                None
            };
            let code = self.pick_code();
            let (actions, res) = match &full {
                Some(f) => self.handle_game_request(id, &data, Some(f), code, now_secs),
                None => self.handle_game_request(id, &data, None, code, now_secs),
            };
            return match res {
                Ok(Some(rid)) => Reply { room: Some(rid), actions, result: Ok(()) },
                Ok(None) => Reply { room: None, actions, result: Ok(()) },
                Err(e) => Reply { room: None, actions, result: Err(e) },
            };
        }
        proof {
            assert forall|u: UpdateReadyStatePacket| all_encodable(u.field_values()) && #[trigger] prefix_at(packet.body@, 0, enc_fields(u.field_values()))
                implies prefix_at(packet.body@, 0, enc_fields(BaseGuardPacket { my_id: u.my_id }.field_values()))
                && all_encodable(BaseGuardPacket { my_id: u.my_id }.field_values()) by {
                crate::codec::lemma_enc_fields_prefix(u.field_values(), 1, packet.body@, 0);
                assert(u.field_values().subrange(0, 1) =~= BaseGuardPacket { my_id: u.my_id }.field_values());
                assert(u.field_values()[0] == BaseGuardPacket { my_id: u.my_id }.field_values()[0]);
            }
            assert forall|u: FinishedSceneLoadPacket| all_encodable(u.field_values()) && #[trigger] prefix_at(packet.body@, 0, enc_fields(u.field_values()))
                implies prefix_at(packet.body@, 0, enc_fields(BaseGuardPacket { my_id: u.my_id }.field_values()))
                && all_encodable(BaseGuardPacket { my_id: u.my_id }.field_values()) by {
                crate::codec::lemma_enc_fields_prefix(u.field_values(), 1, packet.body@, 0);
                assert(u.field_values().subrange(0, 1) =~= BaseGuardPacket { my_id: u.my_id }.field_values());
                assert(u.field_values()[0] == BaseGuardPacket { my_id: u.my_id }.field_values()[0]);
            }
            assert forall|u: UpdateSettingsValue| all_encodable(u.field_values()) && #[trigger] prefix_at(packet.body@, 0, enc_fields(u.field_values()))
                implies prefix_at(packet.body@, 0, enc_fields(BaseGuardPacket { my_id: u.my_id }.field_values()))
                && all_encodable(BaseGuardPacket { my_id: u.my_id }.field_values()) by {
                crate::codec::lemma_enc_fields_prefix(u.field_values(), 1, packet.body@, 0);
                assert(u.field_values().subrange(0, 1) =~= BaseGuardPacket { my_id: u.my_id }.field_values());
                assert(u.field_values()[0] == BaseGuardPacket { my_id: u.my_id }.field_values()[0]);
            }
            assert forall|u: UpdatePigItemValuePacket| all_encodable(u.field_values()) && #[trigger] prefix_at(packet.body@, 0, enc_fields(u.field_values()))
                implies prefix_at(packet.body@, 0, enc_fields(BaseGuardPacket { my_id: u.my_id }.field_values()))
                && all_encodable(BaseGuardPacket { my_id: u.my_id }.field_values()) by {
                crate::codec::lemma_enc_fields_prefix(u.field_values(), 1, packet.body@, 0);
                assert(u.field_values().subrange(0, 1) =~= BaseGuardPacket { my_id: u.my_id }.field_values());
                assert(u.field_values()[0] == BaseGuardPacket { my_id: u.my_id }.field_values()[0]);
            }
            assert forall|u: UpdatePigIconPacket| all_encodable(u.field_values()) && #[trigger] prefix_at(packet.body@, 0, enc_fields(u.field_values()))
                implies prefix_at(packet.body@, 0, enc_fields(BaseGuardPacket { my_id: u.my_id }.field_values()))
                && all_encodable(BaseGuardPacket { my_id: u.my_id }.field_values()) by {
                crate::codec::lemma_enc_fields_prefix(u.field_values(), 1, packet.body@, 0);
                assert(u.field_values().subrange(0, 1) =~= BaseGuardPacket { my_id: u.my_id }.field_values());
                assert(u.field_values()[0] == BaseGuardPacket { my_id: u.my_id }.field_values()[0]);
            }
            assert forall|m: MovePacket| all_encodable(m.field_values()) && #[trigger] prefix_at(packet.body@, 0, enc_fields(m.field_values()))
                implies prefix_at(packet.body@, 0, enc_fields(BaseGuardPacket { my_id: m.my_id }.field_values()))
                && all_encodable(BaseGuardPacket { my_id: m.my_id }.field_values()) by {
                crate::codec::lemma_enc_fields_prefix(m.field_values(), 1, packet.body@, 0);
                assert(m.field_values().subrange(0, 1) =~= BaseGuardPacket { my_id: m.my_id }.field_values());
                assert(m.field_values()[0] == BaseGuardPacket { my_id: m.my_id }.field_values()[0]);
            }
        }
        let guard = match BaseGuardPacket::deserialize(body) {
            Ok(g) => g,
            Err(e) => return Self::fail(StratepigError::Core(e)),
        };
        proof {
            assert forall|g: BaseGuardPacket|
                all_encodable(g.field_values()) && #[trigger] prefix_at(packet.body@, 0, enc_fields(g.field_values()))
                implies g.my_id@ == guard.my_id@ by {
                assert(kinds_of(g.field_values()) =~= kinds_of(guard.field_values()));
                lemma_fields_unique(packet.body@, g.field_values(), guard.field_values());
                assert(same_value(g.field_values()[0], guard.field_values()[0]));
            }
        }
        let i = if kind == ClientMessage::Move {
            match InGameStrictGuard.guard(id, &guard.my_id, self) {
                Ok(i) => i,
                Err(e) => return Self::fail(e),
            }
        } else if kind == ClientMessage::GamePlayerReadyData || kind == ClientMessage::Surrender
            || kind == ClientMessage::LeaveGame || kind == ClientMessage::PlayAgain {
            match InGameGuard.guard(id, &guard.my_id, self) {
                Ok(i) => i,
                Err(e) => return Self::fail(e),
            }
        } else {
            match InRoomGuard.guard(id, &guard.my_id, self) {
                Ok(i) => i,
                Err(e) => return Self::fail(e),
            }
        };
        if kind == ClientMessage::LeaveGame {
            let (room, actions) = self.handle_client_leave(id);
            return Reply { room, actions, result: Ok(()) };
        }
        let config = self.config;
        let ghost old_rooms = self.rooms@;
        let mut room = self.rooms.remove(i);
        let rid = room.id;
        let res: Result<Vec<Action>, StratepigError> = match kind {
            ClientMessage::UpdateReadyState => match UpdateReadyStatePacket::deserialize(body) {
                Ok(d) => {
                    proof {
                        assert(room.seated(id));
                    }
                    room.handle_ready_state_change(id, d.ready, &config, now_ms)
                },
                Err(e) => Err(StratepigError::Core(e)),
            },
            ClientMessage::UpdatePigIcon => match UpdatePigIconPacket::deserialize(body) {
                Ok(d) => {
                    proof {
                        assert forall|u: UpdatePigIconPacket| all_encodable(u.field_values()) && #[trigger] prefix_at(
                            packet.body@,
                            0,
                            enc_fields(u.field_values()),
                        ) implies u.icon == d.icon by {
                            assert(kinds_of(u.field_values()) =~= kinds_of(d.field_values()));
                            lemma_fields_unique(packet.body@, u.field_values(), d.field_values());
                            assert(same_value(u.field_values()[1], d.field_values()[1]));
                        }
                    }
                    room.handle_update_icon(id, d.icon)
                },
                Err(e) => Err(StratepigError::Core(e)),
            },
            ClientMessage::UpdateSettingsValue => match UpdateSettingsValue::deserialize(body) {
                Ok(d) => room.handle_settings_value_update(id, d.settings_id, d.increased),
                Err(e) => Err(StratepigError::Core(e)),
            },
            ClientMessage::UpdatePigItemValue => match UpdatePigItemValuePacket::deserialize(body) {
                Ok(d) => {
                    proof {
                        assert forall|u: UpdatePigItemValuePacket| all_encodable(u.field_values()) && #[trigger] prefix_at(
                            packet.body@,
                            0,
                            enc_fields(u.field_values()),
                        ) implies u.pig == d.pig by {
                            assert(kinds_of(u.field_values()) =~= kinds_of(d.field_values()));
                            lemma_fields_unique(packet.body@, u.field_values(), d.field_values());
                            assert(same_value(u.field_values()[1], d.field_values()[1]));
                        }
                    }
                    room.handle_pig_item_update(id, d.pig, d.increased)
                },
                Err(e) => Err(StratepigError::Core(e)),
            },
            ClientMessage::FinishedSceneLoad => match FinishedSceneLoadPacket::deserialize(body) {
                Ok(d) => room.handle_client_finish_scene_load(id, d.scene_index, &config),
                Err(e) => Err(StratepigError::Core(e)),
            },
            ClientMessage::GamePlayerReadyData => match GamePlayerReadyDataDefaultPacket::deserialize(body) {
                Ok(d) => {
                    if d.ready {
                        match GamePlayerReadyDataFullPacket::deserialize(body) {
                            Ok(f) => room.handle_game_player_ready(id, true, &f.board, &config, now_ms),
                            Err(e) => Err(StratepigError::Core(e)),
                        }
                    } else {
                        room.handle_game_player_ready(id, false, &Vec::new(), &config, now_ms)
                    }
                },
                Err(e) => Err(StratepigError::Core(e)),
            },
            ClientMessage::Surrender => room.handle_surrender(id, &config, now_ms),
            ClientMessage::PlayAgain => room.handle_client_play_again(id),
            ClientMessage::Move => match MovePacket::deserialize(body) {
                Ok(d) => {
                    proof {
                        assert forall|m: MovePacket| all_encodable(m.field_values()) && #[trigger] prefix_at(
                            packet.body@,
                            0,
                            enc_fields(m.field_values()),
                        ) implies m.from_location == d.from_location && m.to_location == d.to_location by {
                            assert(kinds_of(m.field_values()) =~= kinds_of(d.field_values()));
                            lemma_fields_unique(packet.body@, m.field_values(), d.field_values());
                            assert(same_value(m.field_values()[1], d.field_values()[1]));
                            assert(same_value(m.field_values()[2], d.field_values()[2]));
                        }
                    }
                    room.move_received(id, d.from_location, d.to_location, &config, now_ms)
                },
                Err(e) => Err(StratepigError::Core(e)),
            },
            _ => Ok(Vec::new()),
        };
        room.last_seen_at = now_secs;
        self.put_room(i, room, Ghost(old_rooms));
        match res {
            Ok(actions) => Reply { room: Some(rid), actions, result: Ok(()) },
            Err(e) => Reply { room: Some(rid), actions: Vec::new(), result: Err(e) },
        }
    }

    /// A timer of room `rid` fired: the lobby countdown ran out (`Lobby`), a turn began
    /// (`TurnBegan`), its turn time ran out (`TurnTime`), or its buffer ran out (`Buffer`).
    pub fn handle_timer(&mut self, rid: usize, event: TimerEvent, now_ms: u64) -> (r: Vec<Action>)
        requires
            old(self).wf(),
            now_ms <= crate::room::MAX_TIME_MS,
        ensures
            final(self).wf(),
            final(self).rooms@.len() == old(self).rooms@.len(),
            final(self).clients@ == old(self).clients@,
            (forall|k: int| 0 <= k < old(self).rooms@.len() ==> old(self).rooms@[k].id != rid) ==> r@.len() == 0
                && final(self).rooms@ == old(self).rooms@,
            forall|i: int| 0 <= i < old(self).rooms@.len() && #[trigger] old(self).rooms@[i].id == rid ==> {
                let a = old(self).rooms@[i];
                let b = final(self).rooms@[i];
                &&& b.id == a.id && b.clients@ == a.clients@ && b.settings == a.settings
                &&& forall|k: int| 0 <= k < old(self).rooms@.len() && k != i ==> final(self).rooms@[k] == old(self).rooms@[k]
                &&& match event {
                    TimerEvent::Lobby => r@.len() == 0 && (a.room_ticker ==> !b.room_ticker && b.in_game && b.game_phase == 1)
                        && (!a.room_ticker ==> b.in_game == a.in_game && b.room_ticker == a.room_ticker),
                    TimerEvent::TurnBegan => r@.len() == 2 && (r@[0] matches Action::Broadcast(ServerPacket::TurnInit(p))
                        && p.role == crate::player::role_wire(a.current_turn)) && (r@[1] matches Action::Broadcast(
                        ServerPacket::TurnSecondUpdate(p),
                    ) && p.turn_timestamp == now_ms + a.settings.turn_time * 1000 && p.server_now == now_ms && !p.is_buffer),
                    TimerEvent::TurnTime => r@.len() == 1 && b.last_buffer_timestamp == Some(now_ms)
                        && (r@[0] matches Action::Broadcast(ServerPacket::TurnSecondUpdate(p)) && p.is_buffer && p.server_now == now_ms
                        && p.turn_timestamp == now_ms + crate::room::active_buffer(a) * 1000),
                    TimerEvent::Buffer => r@.len() == 1 && b.game_ended && !b.game_ticker && (r@[0] matches Action::Broadcast(
                        ServerPacket::Win(p),
                    ) && p.role == crate::player::role_wire(crate::player::opp_spec(a.current_turn))
                        && p.win_type == crate::room::win_wire(crate::room::WinType::OutOfTime) && p.immediate),
                }
            },
    {
        let i = match self.get_room(rid) {
            Some(i) => i,
            None => return Vec::new(),
        };
        let ghost old_rooms = self.rooms@;
        let mut room = self.rooms.remove(i);
        let acts = match event {
            TimerEvent::Lobby => {
                room.lobby_timer_fired();
                Vec::new()
            },
            TimerEvent::TurnBegan => room.turn_began(now_ms),
            TimerEvent::TurnTime => room.turn_time_elapsed(now_ms),
            TimerEvent::Buffer => room.buffer_elapsed(now_ms),
        };
        proof {
            assert forall|j: int| 0 <= j < old_rooms.len() && old_rooms[j].id == rid implies j == i by {}
            assert(room.clients@ == old_rooms[i as int].clients@);
            assert(room.wf()) by {
                assert(room.clients@ == old_rooms[i as int].clients@);
                assert(room.settings == old_rooms[i as int].settings);
            }
        }
        self.put_room(i, room, Ghost(old_rooms));
        acts
    }

    /// How long the turn timer of room `rid` waits after `event`: the turn time after the turn
    /// began, the active player's remaining buffer once the turn time ran out; `None` for other
    /// events or an unknown room.
    pub fn timer_wait_secs(&self, rid: usize, event: TimerEvent) -> (r: Option<u64>)
        requires
            self.wf(),
        ensures
            forall|i: int| 0 <= i < self.rooms@.len() && #[trigger] self.rooms@[i].id == rid ==> r == (match event {
                TimerEvent::TurnBegan => Some(self.rooms@[i].settings.turn_time as u64),
                TimerEvent::TurnTime => Some(crate::room::active_buffer(self.rooms@[i])),
                _ => None,
            }),
            (forall|i: int| 0 <= i < self.rooms@.len() ==> self.rooms@[i].id != rid) ==> r is None,
    {
        match self.get_room(rid) {
            Some(i) => {
                proof {
                    assert forall|j: int| 0 <= j < self.rooms@.len() && self.rooms@[j].id == rid implies j == i by {}
                    assert(self.rooms@[i as int].wf());
                }
                match event {
                    TimerEvent::TurnBegan => Some(self.rooms[i].settings.turn_time as u64),
                    TimerEvent::TurnTime => Some(self.rooms[i].active_buffer_secs()),
                    _ => None,
                }
            },
            None => None,
        }
    }

    /// The ids of the participants of room `rid`, for delivering its broadcasts.
    pub fn room_clients(&self, rid: usize) -> (r: Vec<usize>)
        ensures
            forall|i: int| 0 <= i < self.rooms@.len() && self.rooms@[i].id == rid && ids_unique(self.rooms@) ==> r@.len() == self.rooms@[i].clients@.len(),
    {
        match self.get_room(rid) {
            Some(i) => {
                proof {
                    assert forall|j: int| 0 <= j < self.rooms@.len() && self.rooms@[j].id == rid && ids_unique(self.rooms@) implies j == i by {}
                }
                self.rooms[i].client_ids()
            },
            None => Vec::new(),
        }
    }
}

/// A timer of a room that went off.
#[derive(Clone, Copy, Debug, PartialEq, Eq, Structural)]
pub enum TimerEvent {
    Lobby,
    TurnBegan,
    TurnTime,
    Buffer,
}

/// Letter number `d` (0 is `A`).
pub open spec fn letter(d: int) -> char {
    ((65 + d) as u8) as char
}

/// The `j`-th code of the fallback order: `A` then `j` as three base-26 letters.
pub open spec fn candidate_code(j: int) -> Seq<char> {
    seq!['A', letter(j / 676), letter((j % 676) / 26), letter((j % 676) % 26)]
}

proof fn lemma_candidate_injective(a: int, b: int)
    requires
        0 <= a < 1000,
        0 <= b < 1000,
        candidate_code(a) == candidate_code(b),
    ensures
        a == b,
{
    assert(candidate_code(a)[1] == candidate_code(b)[1]);
    assert(candidate_code(a)[2] == candidate_code(b)[2]);
    assert(candidate_code(a)[3] == candidate_code(b)[3]);
    assert(((65 + a / 676) as u8) == ((65 + b / 676) as u8));
    assert(((65 + (a % 676) / 26) as u8) == ((65 + (b % 676) / 26) as u8));
    assert(((65 + (a % 676) % 26) as u8) == ((65 + (b % 676) % 26) as u8));
}

impl GameServer {
    /// A code no live room uses, found by trying the fallback order; with fewer than
    /// `MAX_ROOMS` rooms one of the first `MAX_ROOMS` codes of that order is free.
    pub fn fresh_code(&self) -> (r: String)
        requires
            self.wf(),
        ensures
            r@.len() == 4,
            forall|i: int| 0 <= i < 4 ==> 'A' <= #[trigger] r@[i] <= 'Z',
            self.rooms@.len() < MAX_ROOMS ==> !self.has_code(r@),
    {
        let n = self.rooms.len();
        let mut j: usize = 0;
        while j < n + 1 && j < MAX_ROOMS
            invariant
                j <= n + 1,
                j <= MAX_ROOMS,
                n == self.rooms@.len(),
                n <= MAX_ROOMS,
                forall|k: int| 0 <= k < j ==> self.has_code(#[trigger] candidate_code(k)),
            decreases MAX_ROOMS - j,
        {
            let code = self.candidate(j);
            if !self.code_in_use(&code) {
                return code;
            }
            j += 1;
        }
        proof {
            if n < MAX_ROOMS {
                assert(j == n + 1);
                let x = vstd::set_lib::set_int_range(0, n + 1);
                let f = |k: int| choose|i: int| 0 <= i < self.rooms@.len() && (#[trigger] self.rooms@[i]).code@ == candidate_code(k);
                vstd::set_lib::lemma_int_range(0, n + 1);
                vstd::set_lib::lemma_int_range(0, n as int);
                assert forall|k: int| x.contains(k) implies 0 <= #[trigger] f(k) < n && self.rooms@[f(k)].code@ == candidate_code(k) by {
                    assert(self.has_code(candidate_code(k)));
                }
                assert(vstd::relations::injective_on(f, x)) by {
                    assert forall|a: int, b: int| x.contains(a) && x.contains(b) && #[trigger] f(a) == #[trigger] f(b) implies a == b by {
                        assert(self.rooms@[f(a)].code@ == candidate_code(a));
                        assert(self.rooms@[f(b)].code@ == candidate_code(b));
                        lemma_candidate_injective(a, b);
                    }
                }
                let y = x.map(f);
                vstd::set_lib::lemma_map_size(x, y, f);
                assert(y.subset_of(vstd::set_lib::set_int_range(0, n as int))) by {
                    assert forall|v: int| y.contains(v) implies vstd::set_lib::set_int_range(0, n as int).contains(v) by {
                        let k = choose|k: int| x.contains(k) && f(k) == v;
                    }
                }
                vstd::set_lib::lemma_len_subset(y, vstd::set_lib::set_int_range(0, n as int));
                assert(false);
            }
        }
        self.candidate(0)
    }

    /// The `j`-th code of the fallback order.
    fn candidate(&self, j: usize) -> (r: String)
        requires
            j < 1000,
        ensures
            r@ == candidate_code(j as int),
            r@.len() == 4,
            forall|i: int| 0 <= i < 4 ==> 'A' <= #[trigger] r@[i] <= 'Z',
    {
        let rest = j % 676;
        let mut bytes: Vec<u8> = Vec::new();
        bytes.push(65);
        bytes.push(65 + (j / 676) as u8);
        bytes.push(65 + (rest / 26) as u8);
        bytes.push(65 + (rest % 26) as u8);
        let ghost b = bytes@;
        proof {
            crate::util::lemma_ascii_utf8(b);
        }
        let s = crate::codec::string_from_utf8(bytes).unwrap();
        proof {
            assert(s@ =~= candidate_code(j as int));
        }
        s
    }

    /// A room code for a new room: random draws first, then the fallback order, so that
    /// below `MAX_ROOMS` rooms the code is always free.
    pub fn pick_code(&self) -> (r: String)
        requires
            self.wf(),
        ensures
            r@.len() == 4,
            forall|i: int| 0 <= i < 4 ==> 'A' <= #[trigger] r@[i] <= 'Z',
            self.rooms@.len() < MAX_ROOMS ==> !self.has_code(r@),
    {
        let mut tries: u32 = 0;
        while tries < 64
            invariant
                tries <= 64,
            decreases 64 - tries,
        {
            let code = gen_game_room_code();
            if !self.code_in_use(&code) {
                return code;
            }
            tries += 1;
        }
        self.fresh_code()
    }
}

} // verus!
