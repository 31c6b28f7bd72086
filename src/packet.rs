//! The messages of the protocol and their body layouts.

use vstd::prelude::*;

use crate::codec::{
    all_encodable, decode_fields, enc_fields, kind_of, kinds_of, prefix_at, same_value, Error, Field,
    FieldKind,
};

verus! {

/// Two field sequences carry the same values, position by position.
pub open spec fn same_values(a: Seq<Field>, b: Seq<Field>) -> bool {
    a.len() == b.len() && forall|i: int| 0 <= i < a.len() ==> same_value(#[trigger] a[i], b[i])
}

/// A copy of a sequence of plain values.
pub fn copy_vec<T: Copy>(v: &Vec<T>) -> (r: Vec<T>)
    ensures
        r@ == v@,
{
    let mut result: Vec<T> = Vec::new();
    let mut i: usize = 0;
    while i < v.len()
        invariant
            i <= v@.len(),
            result@ == v@.subrange(0, i as int),
        decreases v@.len() - i,
    {
        result.push(v[i]);
        i += 1;
        assert(result@ =~= v@.subrange(0, i as int));
    }
    assert(v@.subrange(0, v@.len() as int) =~= v@);
    result
}

/// Keeps an idle connection open.
#[derive(Debug)]
pub struct KeepAlivePacket {}

impl KeepAlivePacket {
    pub const ID: u8 = 0;

    /// The body, field by field.
    pub open spec fn field_values(&self) -> Seq<Field> {
        Seq::empty()
    }

    pub fn fields(&self) -> (r: Vec<Field>)
        ensures
            same_values(r@, self.field_values()),
    {
        let mut v: Vec<Field> = Vec::new();
        v
    }
}

/// Greets a new connection with the server version and the client's id.
#[derive(Debug)]
pub struct WelcomePacket {
    pub version: String,
    pub my_id: String,
}

impl WelcomePacket {
    pub const ID: u8 = 1;

    /// The body, field by field.
    pub open spec fn field_values(&self) -> Seq<Field> {
        seq![Field::Str(self.version), Field::Str(self.my_id)]
    }

    pub fn fields(&self) -> (r: Vec<Field>)
        ensures
            same_values(r@, self.field_values()),
    {
        let mut v: Vec<Field> = Vec::new();
        v.push(Field::Str(self.version.clone()));
        v.push(Field::Str(self.my_id.clone()));
        proof {
            assert(v@.len() == self.field_values().len());
        }
        v
    }
}

/// Tells a client it was removed from its room.
#[derive(Debug)]
pub struct KickedPacket {
    pub msg: String,
}

impl KickedPacket {
    pub const ID: u8 = 2;

    /// The body, field by field.
    pub open spec fn field_values(&self) -> Seq<Field> {
        seq![Field::Str(self.msg)]
    }

    pub fn fields(&self) -> (r: Vec<Field>)
        ensures
            same_values(r@, self.field_values()),
    {
        let mut v: Vec<Field> = Vec::new();
        v.push(Field::Str(self.msg.clone()));
        proof {
            assert(v@.len() == self.field_values().len());
        }
        v
    }
}

/// Tells the room a participant left.
#[derive(Debug)]
pub struct ClientDisconnectPacket {
    pub id: String,
    pub timestamp: u64,
}

impl ClientDisconnectPacket {
    pub const ID: u8 = 3;

    /// The body, field by field.
    pub open spec fn field_values(&self) -> Seq<Field> {
        seq![Field::Str(self.id), Field::U64(self.timestamp)]
    }

    pub fn fields(&self) -> (r: Vec<Field>)
        ensures
            same_values(r@, self.field_values()),
    {
        let mut v: Vec<Field> = Vec::new();
        v.push(Field::Str(self.id.clone()));
        v.push(Field::U64(self.timestamp));
        proof {
            assert(v@.len() == self.field_values().len());
        }
        v
    }
}

/// Announces a participant of the lobby.
#[derive(Debug)]
pub struct RoomPlayerAddPacket {
    pub id: String,
    pub client_count: i32,
    pub username: String,
    pub ready: bool,
    pub icon: i32,
}

impl RoomPlayerAddPacket {
    pub const ID: u8 = 4;

    /// The body, field by field.
    pub open spec fn field_values(&self) -> Seq<Field> {
        seq![Field::Str(self.id), Field::I32(self.client_count), Field::Str(self.username), Field::Bool(self.ready), Field::I32(self.icon)]
    }

    pub fn fields(&self) -> (r: Vec<Field>)
        ensures
            same_values(r@, self.field_values()),
    {
        let mut v: Vec<Field> = Vec::new();
        v.push(Field::Str(self.id.clone()));
        v.push(Field::I32(self.client_count));
        v.push(Field::Str(self.username.clone()));
        v.push(Field::Bool(self.ready));
        v.push(Field::I32(self.icon));
        proof {
            assert(v@.len() == self.field_values().len());
        }
        v
    }
}

/// A participant's lobby ready flag changed.
#[derive(Debug)]
pub struct RoomPlayerUpdatedReadyStatePacket {
    pub id: String,
    pub ready: bool,
}

impl RoomPlayerUpdatedReadyStatePacket {
    pub const ID: u8 = 5;

    /// The body, field by field.
    pub open spec fn field_values(&self) -> Seq<Field> {
        seq![Field::Str(self.id), Field::Bool(self.ready)]
    }

    pub fn fields(&self) -> (r: Vec<Field>)
        ensures
            same_values(r@, self.field_values()),
    {
        let mut v: Vec<Field> = Vec::new();
        v.push(Field::Str(self.id.clone()));
        v.push(Field::Bool(self.ready));
        proof {
            assert(v@.len() == self.field_values().len());
        }
        v
    }
}

/// A host request failed for an unknown reason.
#[derive(Debug)]
pub struct FailCreateGamePacket {}

impl FailCreateGamePacket {
    pub const ID: u8 = 6;

    /// The body, field by field.
    pub open spec fn field_values(&self) -> Seq<Field> {
        Seq::empty()
    }

    pub fn fields(&self) -> (r: Vec<Field>)
        ensures
            same_values(r@, self.field_values()),
    {
        let mut v: Vec<Field> = Vec::new();
        v
    }
}

/// A host or join request failed with a reason to show.
#[derive(Debug)]
pub struct ErrJoinGamePacket {
    pub msg: String,
}

impl ErrJoinGamePacket {
    pub const ID: u8 = 7;

    /// The body, field by field.
    pub open spec fn field_values(&self) -> Seq<Field> {
        seq![Field::Str(self.msg)]
    }

    pub fn fields(&self) -> (r: Vec<Field>)
        ensures
            same_values(r@, self.field_values()),
    {
        let mut v: Vec<Field> = Vec::new();
        v.push(Field::Str(self.msg.clone()));
        proof {
            assert(v@.len() == self.field_values().len());
        }
        v
    }
}

/// The role a client was given.
#[derive(Debug)]
pub struct ClientInfoPacket {
    pub role: u32,
}

impl ClientInfoPacket {
    pub const ID: u8 = 8;

    /// The body, field by field.
    pub open spec fn field_values(&self) -> Seq<Field> {
        seq![Field::U32(self.role)]
    }

    pub fn fields(&self) -> (r: Vec<Field>)
        ensures
            same_values(r@, self.field_values()),
    {
        let mut v: Vec<Field> = Vec::new();
        v.push(Field::U32(self.role));
        proof {
            assert(v@.len() == self.field_values().len());
        }
        v
    }
}

/// The room code and settings.
#[derive(Debug)]
pub struct GameInfoPacket {
    pub code: String,
    pub game_mode: i32,
    pub placement_time: u32,
    pub turn_time: u32,
    pub buffer_time: u32,
    pub pig_config: Vec<(u32, u32)>,
}

impl GameInfoPacket {
    pub const ID: u8 = 9;

    /// The body, field by field.
    pub open spec fn field_values(&self) -> Seq<Field> {
        seq![Field::Str(self.code), Field::I32(self.game_mode), Field::U32(self.placement_time), Field::U32(self.turn_time), Field::U32(self.buffer_time), Field::PairsU32(self.pig_config)]
    }

    pub fn fields(&self) -> (r: Vec<Field>)
        ensures
            same_values(r@, self.field_values()),
    {
        let mut v: Vec<Field> = Vec::new();
        v.push(Field::Str(self.code.clone()));
        v.push(Field::I32(self.game_mode));
        v.push(Field::U32(self.placement_time));
        v.push(Field::U32(self.turn_time));
        v.push(Field::U32(self.buffer_time));
        v.push(Field::PairsU32(copy_vec(&self.pig_config)));
        proof {
            assert(v@.len() == self.field_values().len());
        }
        v
    }
}

/// A participant's icon changed.
#[derive(Debug)]
pub struct UpdatedPigIconPacket {
    pub id: String,
    pub icon: i32,
}

impl UpdatedPigIconPacket {
    pub const ID: u8 = 10;

    /// The body, field by field.
    pub open spec fn field_values(&self) -> Seq<Field> {
        seq![Field::Str(self.id), Field::I32(self.icon)]
    }

    pub fn fields(&self) -> (r: Vec<Field>)
        ensures
            same_values(r@, self.field_values()),
    {
        let mut v: Vec<Field> = Vec::new();
        v.push(Field::Str(self.id.clone()));
        v.push(Field::I32(self.icon));
        proof {
            assert(v@.len() == self.field_values().len());
        }
        v
    }
}

/// A room setting changed.
#[derive(Debug)]
pub struct SettingsValueChangedPacket {
    pub id: u32,
    pub value: u32,
}

impl SettingsValueChangedPacket {
    pub const ID: u8 = 11;

    /// The body, field by field.
    pub open spec fn field_values(&self) -> Seq<Field> {
        seq![Field::U32(self.id), Field::U32(self.value)]
    }

    pub fn fields(&self) -> (r: Vec<Field>)
        ensures
            same_values(r@, self.field_values()),
    {
        let mut v: Vec<Field> = Vec::new();
        v.push(Field::U32(self.id));
        v.push(Field::U32(self.value));
        proof {
            assert(v@.len() == self.field_values().len());
        }
        v
    }
}

/// The count of one piece kind changed.
#[derive(Debug)]
pub struct PigItemValueChangedPacket {
    pub pig: u32,
    pub amount: u32,
}

impl PigItemValueChangedPacket {
    pub const ID: u8 = 12;

    /// The body, field by field.
    pub open spec fn field_values(&self) -> Seq<Field> {
        seq![Field::U32(self.pig), Field::U32(self.amount)]
    }

    pub fn fields(&self) -> (r: Vec<Field>)
        ensures
            same_values(r@, self.field_values()),
    {
        let mut v: Vec<Field> = Vec::new();
        v.push(Field::U32(self.pig));
        v.push(Field::U32(self.amount));
        proof {
            assert(v@.len() == self.field_values().len());
        }
        v
    }
}

/// A preset replaced the times and piece counts.
#[derive(Debug)]
pub struct PigConfigValueChangedPacket {
    pub turn_time: u32,
    pub buffer_time: u32,
    pub pig_config: Vec<(u32, u32)>,
}

impl PigConfigValueChangedPacket {
    pub const ID: u8 = 13;

    /// The body, field by field.
    pub open spec fn field_values(&self) -> Seq<Field> {
        seq![Field::U32(self.turn_time), Field::U32(self.buffer_time), Field::PairsU32(self.pig_config)]
    }

    pub fn fields(&self) -> (r: Vec<Field>)
        ensures
            same_values(r@, self.field_values()),
    {
        let mut v: Vec<Field> = Vec::new();
        v.push(Field::U32(self.turn_time));
        v.push(Field::U32(self.buffer_time));
        v.push(Field::PairsU32(copy_vec(&self.pig_config)));
        proof {
            assert(v@.len() == self.field_values().len());
        }
        v
    }
}

/// The lobby countdown's deadline in milliseconds, or -1 to clear it.
#[derive(Debug)]
pub struct RoomTimerUpdatePacket {
    pub timestamp: i128,
    pub server_now: u128,
}

impl RoomTimerUpdatePacket {
    pub const ID: u8 = 14;

    /// The body, field by field.
    pub open spec fn field_values(&self) -> Seq<Field> {
        seq![Field::I128(self.timestamp), Field::U128(self.server_now)]
    }

    pub fn fields(&self) -> (r: Vec<Field>)
        ensures
            same_values(r@, self.field_values()),
    {
        let mut v: Vec<Field> = Vec::new();
        v.push(Field::I128(self.timestamp));
        v.push(Field::U128(self.server_now));
        proof {
            assert(v@.len() == self.field_values().len());
        }
        v
    }
}

/// Both sides loaded the game scene.
#[derive(Debug)]
pub struct BothClientsLoadedGamePacket {}

impl BothClientsLoadedGamePacket {
    pub const ID: u8 = 15;

    /// The body, field by field.
    pub open spec fn field_values(&self) -> Seq<Field> {
        Seq::empty()
    }

    pub fn fields(&self) -> (r: Vec<Field>)
        ensures
            same_values(r@, self.field_values()),
    {
        let mut v: Vec<Field> = Vec::new();
        v
    }
}

/// A participant's placement ready flag changed.
#[derive(Debug)]
pub struct GamePlayerUpdatedReadyStatePacket {
    pub id: String,
    pub ready: bool,
}

impl GamePlayerUpdatedReadyStatePacket {
    pub const ID: u8 = 17;

    /// The body, field by field.
    pub open spec fn field_values(&self) -> Seq<Field> {
        seq![Field::Str(self.id), Field::Bool(self.ready)]
    }

    pub fn fields(&self) -> (r: Vec<Field>)
        ensures
            same_values(r@, self.field_values()),
    {
        let mut v: Vec<Field> = Vec::new();
        v.push(Field::Str(self.id.clone()));
        v.push(Field::Bool(self.ready));
        proof {
            assert(v@.len() == self.field_values().len());
        }
        v
    }
}

/// The tiles of the opponent's pieces, kinds withheld.
#[derive(Debug)]
pub struct OpponentPigPlacementPacket {
    pub locations: Vec<u8>,
}

impl OpponentPigPlacementPacket {
    pub const ID: u8 = 18;

    /// The body, field by field.
    pub open spec fn field_values(&self) -> Seq<Field> {
        seq![Field::Bytes(self.locations)]
    }

    pub fn fields(&self) -> (r: Vec<Field>)
        ensures
            same_values(r@, self.field_values()),
    {
        let mut v: Vec<Field> = Vec::new();
        v.push(Field::Bytes(copy_vec(&self.locations)));
        proof {
            assert(v@.len() == self.field_values().len());
        }
        v
    }
}

/// A move onto an empty tile.
#[derive(Debug)]
pub struct MoveDataPacket {
    pub role: u32,
    pub from: u8,
    pub to: u8,
    pub bundle_null: bool,
}

impl MoveDataPacket {
    pub const ID: u8 = 19;

    /// The body, field by field.
    pub open spec fn field_values(&self) -> Seq<Field> {
        seq![Field::U32(self.role), Field::U8(self.from), Field::U8(self.to), Field::Bool(self.bundle_null)]
    }

    pub fn fields(&self) -> (r: Vec<Field>)
        ensures
            same_values(r@, self.field_values()),
    {
        let mut v: Vec<Field> = Vec::new();
        v.push(Field::U32(self.role));
        v.push(Field::U8(self.from));
        v.push(Field::U8(self.to));
        v.push(Field::Bool(self.bundle_null));
        proof {
            assert(v@.len() == self.field_values().len());
        }
        v
    }
}

/// A move that attacked.
#[derive(Debug)]
pub struct MoveDataAttackPacket {
    pub role: u32,
    pub from: u8,
    pub to: u8,
    pub bundle_null: bool,
    pub result: i32,
    pub init_type: u32,
    pub target_type: u32,
}

impl MoveDataAttackPacket {
    pub const ID: u8 = 19;

    /// The body, field by field.
    pub open spec fn field_values(&self) -> Seq<Field> {
        seq![Field::U32(self.role), Field::U8(self.from), Field::U8(self.to), Field::Bool(self.bundle_null), Field::I32(self.result), Field::U32(self.init_type), Field::U32(self.target_type)]
    }

    pub fn fields(&self) -> (r: Vec<Field>)
        ensures
            same_values(r@, self.field_values()),
    {
        let mut v: Vec<Field> = Vec::new();
        v.push(Field::U32(self.role));
        v.push(Field::U8(self.from));
        v.push(Field::U8(self.to));
        v.push(Field::Bool(self.bundle_null));
        v.push(Field::I32(self.result));
        v.push(Field::U32(self.init_type));
        v.push(Field::U32(self.target_type));
        proof {
            assert(v@.len() == self.field_values().len());
        }
        v
    }
}

/// A turn starts.
#[derive(Debug)]
pub struct TurnInitPacket {
    pub role: u32,
}

impl TurnInitPacket {
    pub const ID: u8 = 20;

    /// The body, field by field.
    pub open spec fn field_values(&self) -> Seq<Field> {
        seq![Field::U32(self.role)]
    }

    pub fn fields(&self) -> (r: Vec<Field>)
        ensures
            same_values(r@, self.field_values()),
    {
        let mut v: Vec<Field> = Vec::new();
        v.push(Field::U32(self.role));
        proof {
            assert(v@.len() == self.field_values().len());
        }
        v
    }
}

/// Deadline of the running turn or buffer, in milliseconds.
#[derive(Debug)]
pub struct TurnSecondUpdatePacket {
    pub role: u32,
    pub turn_timestamp: u128,
    pub server_now: u128,
    pub is_buffer: bool,
}

impl TurnSecondUpdatePacket {
    pub const ID: u8 = 21;

    /// The body, field by field.
    pub open spec fn field_values(&self) -> Seq<Field> {
        seq![Field::U32(self.role), Field::U128(self.turn_timestamp), Field::U128(self.server_now), Field::Bool(self.is_buffer)]
    }

    pub fn fields(&self) -> (r: Vec<Field>)
        ensures
            same_values(r@, self.field_values()),
    {
        let mut v: Vec<Field> = Vec::new();
        v.push(Field::U32(self.role));
        v.push(Field::U128(self.turn_timestamp));
        v.push(Field::U128(self.server_now));
        v.push(Field::Bool(self.is_buffer));
        proof {
            assert(v@.len() == self.field_values().len());
        }
        v
    }
}

/// The game ended.
#[derive(Debug)]
pub struct WinPacket {
    pub role: u32,
    pub win_type: u32,
    pub elapsed: u64,
    pub immediate: bool,
}

impl WinPacket {
    pub const ID: u8 = 22;

    /// The body, field by field.
    pub open spec fn field_values(&self) -> Seq<Field> {
        seq![Field::U32(self.role), Field::U32(self.win_type), Field::U64(self.elapsed), Field::Bool(self.immediate)]
    }

    pub fn fields(&self) -> (r: Vec<Field>)
        ensures
            same_values(r@, self.field_values()),
    {
        let mut v: Vec<Field> = Vec::new();
        v.push(Field::U32(self.role));
        v.push(Field::U32(self.win_type));
        v.push(Field::U64(self.elapsed));
        v.push(Field::Bool(self.immediate));
        proof {
            assert(v@.len() == self.field_values().len());
        }
        v
    }
}

/// The opponent's initial board as (stable id, kind) pairs.
#[derive(Debug)]
pub struct EnemyPieceDataPacket {
    pub data: Vec<(u8, u8)>,
}

impl EnemyPieceDataPacket {
    pub const ID: u8 = 23;

    /// The body, field by field.
    pub open spec fn field_values(&self) -> Seq<Field> {
        seq![Field::PairsU8(self.data)]
    }

    pub fn fields(&self) -> (r: Vec<Field>)
        ensures
            same_values(r@, self.field_values()),
    {
        let mut v: Vec<Field> = Vec::new();
        v.push(Field::PairsU8(copy_vec(&self.data)));
        proof {
            assert(v@.len() == self.field_values().len());
        }
        v
    }
}

/// A participant asked to play again.
#[derive(Debug)]
pub struct ClientPlayAgainPacket {
    pub id: String,
}

impl ClientPlayAgainPacket {
    pub const ID: u8 = 24;

    /// The body, field by field.
    pub open spec fn field_values(&self) -> Seq<Field> {
        seq![Field::Str(self.id)]
    }

    pub fn fields(&self) -> (r: Vec<Field>)
        ensures
            same_values(r@, self.field_values()),
    {
        let mut v: Vec<Field> = Vec::new();
        v.push(Field::Str(self.id.clone()));
        proof {
            assert(v@.len() == self.field_values().len());
        }
        v
    }
}

/// The client id every guarded request starts with.
#[derive(Debug)]
pub struct BaseGuardPacket {
    pub my_id: String,
}

impl BaseGuardPacket {
    pub const ID: u8 = 0;

    /// The body, field by field.
    pub open spec fn field_values(&self) -> Seq<Field> {
        seq![Field::Str(self.my_id)]
    }

    pub fn fields(&self) -> (r: Vec<Field>)
        ensures
            same_values(r@, self.field_values()),
    {
        let mut v: Vec<Field> = Vec::new();
        v.push(Field::Str(self.my_id.clone()));
        proof {
            assert(v@.len() == self.field_values().len());
        }
        v
    }

    pub open spec fn schema() -> Seq<FieldKind> {
        seq![FieldKind::Str]
    }

    /// Reads the packet from the start of a body; fails exactly when no such packet is
    /// encoded there.
    pub fn deserialize(body: &[u8]) -> (r: Result<Self, Error>)
        ensures
            r matches Ok(p) ==> all_encodable(p.field_values()) && prefix_at(body@, 0, enc_fields(p.field_values())),
            r is Err ==> forall|p: Self|
                all_encodable(p.field_values()) ==> !prefix_at(body@, 0, #[trigger] enc_fields(p.field_values())),
    {
        let mut schema: Vec<FieldKind> = Vec::new();
        schema.push(FieldKind::Str);
        assert(schema@ =~= Self::schema());
        let mut fs = match decode_fields(&schema, body) {
            Ok(fs) => fs,
            Err(e) => {
                proof {
                    assert forall|p: Self| all_encodable(p.field_values()) implies !prefix_at(body@, 0, #[trigger] enc_fields(p.field_values())) by {
                        assert(kinds_of(p.field_values()) =~= Self::schema());
                    }
                }
                return Err(e);
            },
        };
        let ghost all = fs@;
        proof {
            assert(kinds_of(all)[0] == kind_of(all[0]));
        }
        let f0 = fs.pop().unwrap();
        assert(f0 == all[0]);
        match (f0,) {
            (Field::Str(my_id),) => {
                let p = BaseGuardPacket { my_id };
                assert(p.field_values() =~= all);
                Ok(p)
            },
            _ => Err(Error::InvalidData("malformed packet body".to_owned())),
        }
    }
}

/// A host or join request without settings.
#[derive(Debug)]
pub struct GameRequestDefaultPacket {
    pub my_id: String,
    pub is_hosting: bool,
    pub username: String,
    pub icon: i32,
    pub code: String,
    pub data_null: bool,
}

impl GameRequestDefaultPacket {
    pub const ID: u8 = 1;

    /// The body, field by field.
    pub open spec fn field_values(&self) -> Seq<Field> {
        seq![Field::Str(self.my_id), Field::Bool(self.is_hosting), Field::Str(self.username), Field::I32(self.icon), Field::Str(self.code), Field::Bool(self.data_null)]
    }

    pub fn fields(&self) -> (r: Vec<Field>)
        ensures
            same_values(r@, self.field_values()),
    {
        let mut v: Vec<Field> = Vec::new();
        v.push(Field::Str(self.my_id.clone()));
        v.push(Field::Bool(self.is_hosting));
        v.push(Field::Str(self.username.clone()));
        v.push(Field::I32(self.icon));
        v.push(Field::Str(self.code.clone()));
        v.push(Field::Bool(self.data_null));
        proof {
            assert(v@.len() == self.field_values().len());
        }
        v
    }

    pub open spec fn schema() -> Seq<FieldKind> {
        seq![FieldKind::Str, FieldKind::Bool, FieldKind::Str, FieldKind::I32, FieldKind::Str, FieldKind::Bool]
    }

    /// Reads the packet from the start of a body; fails exactly when no such packet is
    /// encoded there.
    pub fn deserialize(body: &[u8]) -> (r: Result<Self, Error>)
        ensures
            r matches Ok(p) ==> all_encodable(p.field_values()) && prefix_at(body@, 0, enc_fields(p.field_values())),
            r is Err ==> forall|p: Self|
                all_encodable(p.field_values()) ==> !prefix_at(body@, 0, #[trigger] enc_fields(p.field_values())),
    {
        let mut schema: Vec<FieldKind> = Vec::new();
        schema.push(FieldKind::Str);
        schema.push(FieldKind::Bool);
        schema.push(FieldKind::Str);
        schema.push(FieldKind::I32);
        schema.push(FieldKind::Str);
        schema.push(FieldKind::Bool);
        assert(schema@ =~= Self::schema());
        let mut fs = match decode_fields(&schema, body) {
            Ok(fs) => fs,
            Err(e) => {
                proof {
                    assert forall|p: Self| all_encodable(p.field_values()) implies !prefix_at(body@, 0, #[trigger] enc_fields(p.field_values())) by {
                        assert(kinds_of(p.field_values()) =~= Self::schema());
                    }
                }
                return Err(e);
            },
        };
        let ghost all = fs@;
        proof {
            assert(kinds_of(all)[0] == kind_of(all[0]));
            assert(kinds_of(all)[1] == kind_of(all[1]));
            assert(kinds_of(all)[2] == kind_of(all[2]));
            assert(kinds_of(all)[3] == kind_of(all[3]));
            assert(kinds_of(all)[4] == kind_of(all[4]));
            assert(kinds_of(all)[5] == kind_of(all[5]));
        }
        let f5 = fs.pop().unwrap();
        assert(f5 == all[5]);
        let f4 = fs.pop().unwrap();
        assert(f4 == all[4]);
        let f3 = fs.pop().unwrap();
        assert(f3 == all[3]);
        let f2 = fs.pop().unwrap();
        assert(f2 == all[2]);
        let f1 = fs.pop().unwrap();
        assert(f1 == all[1]);
        let f0 = fs.pop().unwrap();
        assert(f0 == all[0]);
        match (f0, f1, f2, f3, f4, f5) {
            (Field::Str(my_id), Field::Bool(is_hosting), Field::Str(username), Field::I32(icon), Field::Str(code), Field::Bool(data_null)) => {
                let p = GameRequestDefaultPacket { my_id, is_hosting, username, icon, code, data_null };
                assert(p.field_values() =~= all);
                Ok(p)
            },
            _ => Err(Error::InvalidData("malformed packet body".to_owned())),
        }
    }
}

/// A host request with settings.
#[derive(Debug)]
pub struct GameRequestFullPacket {
    pub my_id: String,
    pub is_hosting: bool,
    pub username: String,
    pub icon: i32,
    pub code: String,
    pub data_null: bool,
    pub game_mode: i32,
    pub placement_secs: i32,
    pub turn_secs: i32,
    pub buffer_secs: i32,
    pub pig_config: Vec<(i32, i32)>,
}

impl GameRequestFullPacket {
    pub const ID: u8 = 1;

    /// The body, field by field.
    pub open spec fn field_values(&self) -> Seq<Field> {
        seq![Field::Str(self.my_id), Field::Bool(self.is_hosting), Field::Str(self.username), Field::I32(self.icon), Field::Str(self.code), Field::Bool(self.data_null), Field::I32(self.game_mode), Field::I32(self.placement_secs), Field::I32(self.turn_secs), Field::I32(self.buffer_secs), Field::PairsI32(self.pig_config)]
    }

    pub fn fields(&self) -> (r: Vec<Field>)
        ensures
            same_values(r@, self.field_values()),
    {
        let mut v: Vec<Field> = Vec::new();
        v.push(Field::Str(self.my_id.clone()));
        v.push(Field::Bool(self.is_hosting));
        v.push(Field::Str(self.username.clone()));
        v.push(Field::I32(self.icon));
        v.push(Field::Str(self.code.clone()));
        v.push(Field::Bool(self.data_null));
        v.push(Field::I32(self.game_mode));
        v.push(Field::I32(self.placement_secs));
        v.push(Field::I32(self.turn_secs));
        v.push(Field::I32(self.buffer_secs));
        v.push(Field::PairsI32(copy_vec(&self.pig_config)));
        proof {
            assert(v@.len() == self.field_values().len());
        }
        v
    }

    pub open spec fn schema() -> Seq<FieldKind> {
        seq![FieldKind::Str, FieldKind::Bool, FieldKind::Str, FieldKind::I32, FieldKind::Str, FieldKind::Bool, FieldKind::I32, FieldKind::I32, FieldKind::I32, FieldKind::I32, FieldKind::PairsI32]
    }

    /// Reads the packet from the start of a body; fails exactly when no such packet is
    /// encoded there.
    pub fn deserialize(body: &[u8]) -> (r: Result<Self, Error>)
        ensures
            r matches Ok(p) ==> all_encodable(p.field_values()) && prefix_at(body@, 0, enc_fields(p.field_values())),
            r is Err ==> forall|p: Self|
                all_encodable(p.field_values()) ==> !prefix_at(body@, 0, #[trigger] enc_fields(p.field_values())),
    {
        let mut schema: Vec<FieldKind> = Vec::new();
        schema.push(FieldKind::Str);
        schema.push(FieldKind::Bool);
        schema.push(FieldKind::Str);
        schema.push(FieldKind::I32);
        schema.push(FieldKind::Str);
        schema.push(FieldKind::Bool);
        schema.push(FieldKind::I32);
        schema.push(FieldKind::I32);
        schema.push(FieldKind::I32);
        schema.push(FieldKind::I32);
        schema.push(FieldKind::PairsI32);
        assert(schema@ =~= Self::schema());
        let mut fs = match decode_fields(&schema, body) {
            Ok(fs) => fs,
            Err(e) => {
                proof {
                    assert forall|p: Self| all_encodable(p.field_values()) implies !prefix_at(body@, 0, #[trigger] enc_fields(p.field_values())) by {
                        assert(kinds_of(p.field_values()) =~= Self::schema());
                    }
                }
                return Err(e);
            },
        };
        let ghost all = fs@;
        proof {
            assert(kinds_of(all)[0] == kind_of(all[0]));
            assert(kinds_of(all)[1] == kind_of(all[1]));
            assert(kinds_of(all)[2] == kind_of(all[2]));
            assert(kinds_of(all)[3] == kind_of(all[3]));
            assert(kinds_of(all)[4] == kind_of(all[4]));
            assert(kinds_of(all)[5] == kind_of(all[5]));
            assert(kinds_of(all)[6] == kind_of(all[6]));
            assert(kinds_of(all)[7] == kind_of(all[7]));
            assert(kinds_of(all)[8] == kind_of(all[8]));
            assert(kinds_of(all)[9] == kind_of(all[9]));
            assert(kinds_of(all)[10] == kind_of(all[10]));
        }
        let f10 = fs.pop().unwrap();
        assert(f10 == all[10]);
        let f9 = fs.pop().unwrap();
        assert(f9 == all[9]);
        let f8 = fs.pop().unwrap();
        assert(f8 == all[8]);
        let f7 = fs.pop().unwrap();
        assert(f7 == all[7]);
        let f6 = fs.pop().unwrap();
        assert(f6 == all[6]);
        let f5 = fs.pop().unwrap();
        assert(f5 == all[5]);
        let f4 = fs.pop().unwrap();
        assert(f4 == all[4]);
        let f3 = fs.pop().unwrap();
        assert(f3 == all[3]);
        let f2 = fs.pop().unwrap();
        assert(f2 == all[2]);
        let f1 = fs.pop().unwrap();
        assert(f1 == all[1]);
        let f0 = fs.pop().unwrap();
        assert(f0 == all[0]);
        match (f0, f1, f2, f3, f4, f5, f6, f7, f8, f9, f10) {
            (Field::Str(my_id), Field::Bool(is_hosting), Field::Str(username), Field::I32(icon), Field::Str(code), Field::Bool(data_null), Field::I32(game_mode), Field::I32(placement_secs), Field::I32(turn_secs), Field::I32(buffer_secs), Field::PairsI32(pig_config)) => {
                let p = GameRequestFullPacket { my_id, is_hosting, username, icon, code, data_null, game_mode, placement_secs, turn_secs, buffer_secs, pig_config };
                assert(p.field_values() =~= all);
                Ok(p)
            },
            _ => Err(Error::InvalidData("malformed packet body".to_owned())),
        }
    }
}

/// Lobby ready toggle.
#[derive(Debug)]
pub struct UpdateReadyStatePacket {
    pub my_id: String,
    pub ready: bool,
}

impl UpdateReadyStatePacket {
    pub const ID: u8 = 2;

    /// The body, field by field.
    pub open spec fn field_values(&self) -> Seq<Field> {
        seq![Field::Str(self.my_id), Field::Bool(self.ready)]
    }

    pub fn fields(&self) -> (r: Vec<Field>)
        ensures
            same_values(r@, self.field_values()),
    {
        let mut v: Vec<Field> = Vec::new();
        v.push(Field::Str(self.my_id.clone()));
        v.push(Field::Bool(self.ready));
        proof {
            assert(v@.len() == self.field_values().len());
        }
        v
    }

    pub open spec fn schema() -> Seq<FieldKind> {
        seq![FieldKind::Str, FieldKind::Bool]
    }

    /// Reads the packet from the start of a body; fails exactly when no such packet is
    /// encoded there.
    pub fn deserialize(body: &[u8]) -> (r: Result<Self, Error>)
        ensures
            r matches Ok(p) ==> all_encodable(p.field_values()) && prefix_at(body@, 0, enc_fields(p.field_values())),
            r is Err ==> forall|p: Self|
                all_encodable(p.field_values()) ==> !prefix_at(body@, 0, #[trigger] enc_fields(p.field_values())),
    {
        let mut schema: Vec<FieldKind> = Vec::new();
        schema.push(FieldKind::Str);
        schema.push(FieldKind::Bool);
        assert(schema@ =~= Self::schema());
        let mut fs = match decode_fields(&schema, body) {
            Ok(fs) => fs,
            Err(e) => {
                proof {
                    assert forall|p: Self| all_encodable(p.field_values()) implies !prefix_at(body@, 0, #[trigger] enc_fields(p.field_values())) by {
                        assert(kinds_of(p.field_values()) =~= Self::schema());
                    }
                }
                return Err(e);
            },
        };
        let ghost all = fs@;
        proof {
            assert(kinds_of(all)[0] == kind_of(all[0]));
            assert(kinds_of(all)[1] == kind_of(all[1]));
        }
        let f1 = fs.pop().unwrap();
        assert(f1 == all[1]);
        let f0 = fs.pop().unwrap();
        assert(f0 == all[0]);
        match (f0, f1) {
            (Field::Str(my_id), Field::Bool(ready)) => {
                let p = UpdateReadyStatePacket { my_id, ready };
                assert(p.field_values() =~= all);
                Ok(p)
            },
            _ => Err(Error::InvalidData("malformed packet body".to_owned())),
        }
    }
}

/// Icon change.
#[derive(Debug)]
pub struct UpdatePigIconPacket {
    pub my_id: String,
    pub icon: u32,
}

impl UpdatePigIconPacket {
    pub const ID: u8 = 3;

    /// The body, field by field.
    pub open spec fn field_values(&self) -> Seq<Field> {
        seq![Field::Str(self.my_id), Field::U32(self.icon)]
    }

    pub fn fields(&self) -> (r: Vec<Field>)
        ensures
            same_values(r@, self.field_values()),
    {
        let mut v: Vec<Field> = Vec::new();
        v.push(Field::Str(self.my_id.clone()));
        v.push(Field::U32(self.icon));
        proof {
            assert(v@.len() == self.field_values().len());
        }
        v
    }

    pub open spec fn schema() -> Seq<FieldKind> {
        seq![FieldKind::Str, FieldKind::U32]
    }

    /// Reads the packet from the start of a body; fails exactly when no such packet is
    /// encoded there.
    pub fn deserialize(body: &[u8]) -> (r: Result<Self, Error>)
        ensures
            r matches Ok(p) ==> all_encodable(p.field_values()) && prefix_at(body@, 0, enc_fields(p.field_values())),
            r is Err ==> forall|p: Self|
                all_encodable(p.field_values()) ==> !prefix_at(body@, 0, #[trigger] enc_fields(p.field_values())),
    {
        let mut schema: Vec<FieldKind> = Vec::new();
        schema.push(FieldKind::Str);
        schema.push(FieldKind::U32);
        assert(schema@ =~= Self::schema());
        let mut fs = match decode_fields(&schema, body) {
            Ok(fs) => fs,
            Err(e) => {
                proof {
                    assert forall|p: Self| all_encodable(p.field_values()) implies !prefix_at(body@, 0, #[trigger] enc_fields(p.field_values())) by {
                        assert(kinds_of(p.field_values()) =~= Self::schema());
                    }
                }
                return Err(e);
            },
        };
        let ghost all = fs@;
        proof {
            assert(kinds_of(all)[0] == kind_of(all[0]));
            assert(kinds_of(all)[1] == kind_of(all[1]));
        }
        let f1 = fs.pop().unwrap();
        assert(f1 == all[1]);
        let f0 = fs.pop().unwrap();
        assert(f0 == all[0]);
        match (f0, f1) {
            (Field::Str(my_id), Field::U32(icon)) => {
                let p = UpdatePigIconPacket { my_id, icon };
                assert(p.field_values() =~= all);
                Ok(p)
            },
            _ => Err(Error::InvalidData("malformed packet body".to_owned())),
        }
    }
}

/// The host raises or lowers a setting.
#[derive(Debug)]
pub struct UpdateSettingsValue {
    pub my_id: String,
    pub settings_id: u32,
    pub increased: bool,
}

impl UpdateSettingsValue {
    pub const ID: u8 = 4;

    /// The body, field by field.
    pub open spec fn field_values(&self) -> Seq<Field> {
        seq![Field::Str(self.my_id), Field::U32(self.settings_id), Field::Bool(self.increased)]
    }

    pub fn fields(&self) -> (r: Vec<Field>)
        ensures
            same_values(r@, self.field_values()),
    {
        let mut v: Vec<Field> = Vec::new();
        v.push(Field::Str(self.my_id.clone()));
        v.push(Field::U32(self.settings_id));
        v.push(Field::Bool(self.increased));
        proof {
            assert(v@.len() == self.field_values().len());
        }
        v
    }

    pub open spec fn schema() -> Seq<FieldKind> {
        seq![FieldKind::Str, FieldKind::U32, FieldKind::Bool]
    }

    /// Reads the packet from the start of a body; fails exactly when no such packet is
    /// encoded there.
    pub fn deserialize(body: &[u8]) -> (r: Result<Self, Error>)
        ensures
            r matches Ok(p) ==> all_encodable(p.field_values()) && prefix_at(body@, 0, enc_fields(p.field_values())),
            r is Err ==> forall|p: Self|
                all_encodable(p.field_values()) ==> !prefix_at(body@, 0, #[trigger] enc_fields(p.field_values())),
    {
        let mut schema: Vec<FieldKind> = Vec::new();
        schema.push(FieldKind::Str);
        schema.push(FieldKind::U32);
        schema.push(FieldKind::Bool);
        assert(schema@ =~= Self::schema());
        let mut fs = match decode_fields(&schema, body) {
            Ok(fs) => fs,
            Err(e) => {
                proof {
                    assert forall|p: Self| all_encodable(p.field_values()) implies !prefix_at(body@, 0, #[trigger] enc_fields(p.field_values())) by {
                        assert(kinds_of(p.field_values()) =~= Self::schema());
                    }
                }
                return Err(e);
            },
        };
        let ghost all = fs@;
        proof {
            assert(kinds_of(all)[0] == kind_of(all[0]));
            assert(kinds_of(all)[1] == kind_of(all[1]));
            assert(kinds_of(all)[2] == kind_of(all[2]));
        }
        let f2 = fs.pop().unwrap();
        assert(f2 == all[2]);
        let f1 = fs.pop().unwrap();
        assert(f1 == all[1]);
        let f0 = fs.pop().unwrap();
        assert(f0 == all[0]);
        match (f0, f1, f2) {
            (Field::Str(my_id), Field::U32(settings_id), Field::Bool(increased)) => {
                let p = UpdateSettingsValue { my_id, settings_id, increased };
                assert(p.field_values() =~= all);
                Ok(p)
            },
            _ => Err(Error::InvalidData("malformed packet body".to_owned())),
        }
    }
}

/// The host changes one piece count.
#[derive(Debug)]
pub struct UpdatePigItemValuePacket {
    pub my_id: String,
    pub pig: u32,
    pub increased: bool,
}

impl UpdatePigItemValuePacket {
    pub const ID: u8 = 5;

    /// The body, field by field.
    pub open spec fn field_values(&self) -> Seq<Field> {
        seq![Field::Str(self.my_id), Field::U32(self.pig), Field::Bool(self.increased)]
    }

    pub fn fields(&self) -> (r: Vec<Field>)
        ensures
            same_values(r@, self.field_values()),
    {
        let mut v: Vec<Field> = Vec::new();
        v.push(Field::Str(self.my_id.clone()));
        v.push(Field::U32(self.pig));
        v.push(Field::Bool(self.increased));
        proof {
            assert(v@.len() == self.field_values().len());
        }
        v
    }

    pub open spec fn schema() -> Seq<FieldKind> {
        seq![FieldKind::Str, FieldKind::U32, FieldKind::Bool]
    }

    /// Reads the packet from the start of a body; fails exactly when no such packet is
    /// encoded there.
    pub fn deserialize(body: &[u8]) -> (r: Result<Self, Error>)
        ensures
            r matches Ok(p) ==> all_encodable(p.field_values()) && prefix_at(body@, 0, enc_fields(p.field_values())),
            r is Err ==> forall|p: Self|
                all_encodable(p.field_values()) ==> !prefix_at(body@, 0, #[trigger] enc_fields(p.field_values())),
    {
        let mut schema: Vec<FieldKind> = Vec::new();
        schema.push(FieldKind::Str);
        schema.push(FieldKind::U32);
        schema.push(FieldKind::Bool);
        assert(schema@ =~= Self::schema());
        let mut fs = match decode_fields(&schema, body) {
            Ok(fs) => fs,
            Err(e) => {
                proof {
                    assert forall|p: Self| all_encodable(p.field_values()) implies !prefix_at(body@, 0, #[trigger] enc_fields(p.field_values())) by {
                        assert(kinds_of(p.field_values()) =~= Self::schema());
                    }
                }
                return Err(e);
            },
        };
        let ghost all = fs@;
        proof {
            assert(kinds_of(all)[0] == kind_of(all[0]));
            assert(kinds_of(all)[1] == kind_of(all[1]));
            assert(kinds_of(all)[2] == kind_of(all[2]));
        }
        let f2 = fs.pop().unwrap();
        assert(f2 == all[2]);
        let f1 = fs.pop().unwrap();
        assert(f1 == all[1]);
        let f0 = fs.pop().unwrap();
        assert(f0 == all[0]);
        match (f0, f1, f2) {
            (Field::Str(my_id), Field::U32(pig), Field::Bool(increased)) => {
                let p = UpdatePigItemValuePacket { my_id, pig, increased };
                assert(p.field_values() =~= all);
                Ok(p)
            },
            _ => Err(Error::InvalidData("malformed packet body".to_owned())),
        }
    }
}

/// A client finished loading a scene.
#[derive(Debug)]
pub struct FinishedSceneLoadPacket {
    pub my_id: String,
    pub scene_index: u32,
}

impl FinishedSceneLoadPacket {
    pub const ID: u8 = 6;

    /// The body, field by field.
    pub open spec fn field_values(&self) -> Seq<Field> {
        seq![Field::Str(self.my_id), Field::U32(self.scene_index)]
    }

    pub fn fields(&self) -> (r: Vec<Field>)
        ensures
            same_values(r@, self.field_values()),
    {
        let mut v: Vec<Field> = Vec::new();
        v.push(Field::Str(self.my_id.clone()));
        v.push(Field::U32(self.scene_index));
        proof {
            assert(v@.len() == self.field_values().len());
        }
        v
    }

    pub open spec fn schema() -> Seq<FieldKind> {
        seq![FieldKind::Str, FieldKind::U32]
    }

    /// Reads the packet from the start of a body; fails exactly when no such packet is
    /// encoded there.
    pub fn deserialize(body: &[u8]) -> (r: Result<Self, Error>)
        ensures
            r matches Ok(p) ==> all_encodable(p.field_values()) && prefix_at(body@, 0, enc_fields(p.field_values())),
            r is Err ==> forall|p: Self|
                all_encodable(p.field_values()) ==> !prefix_at(body@, 0, #[trigger] enc_fields(p.field_values())),
    {
        let mut schema: Vec<FieldKind> = Vec::new();
        schema.push(FieldKind::Str);
        schema.push(FieldKind::U32);
        assert(schema@ =~= Self::schema());
        let mut fs = match decode_fields(&schema, body) {
            Ok(fs) => fs,
            Err(e) => {
                proof {
                    assert forall|p: Self| all_encodable(p.field_values()) implies !prefix_at(body@, 0, #[trigger] enc_fields(p.field_values())) by {
                        assert(kinds_of(p.field_values()) =~= Self::schema());
                    }
                }
                return Err(e);
            },
        };
        let ghost all = fs@;
        proof {
            assert(kinds_of(all)[0] == kind_of(all[0]));
            assert(kinds_of(all)[1] == kind_of(all[1]));
        }
        let f1 = fs.pop().unwrap();
        assert(f1 == all[1]);
        let f0 = fs.pop().unwrap();
        assert(f0 == all[0]);
        match (f0, f1) {
            (Field::Str(my_id), Field::U32(scene_index)) => {
                let p = FinishedSceneLoadPacket { my_id, scene_index };
                assert(p.field_values() =~= all);
                Ok(p)
            },
            _ => Err(Error::InvalidData("malformed packet body".to_owned())),
        }
    }
}

/// Placement ready toggle without a board.
#[derive(Debug)]
pub struct GamePlayerReadyDataDefaultPacket {
    pub my_id: String,
    pub ready: bool,
}

impl GamePlayerReadyDataDefaultPacket {
    pub const ID: u8 = 7;

    /// The body, field by field.
    pub open spec fn field_values(&self) -> Seq<Field> {
        seq![Field::Str(self.my_id), Field::Bool(self.ready)]
    }

    pub fn fields(&self) -> (r: Vec<Field>)
        ensures
            same_values(r@, self.field_values()),
    {
        let mut v: Vec<Field> = Vec::new();
        v.push(Field::Str(self.my_id.clone()));
        v.push(Field::Bool(self.ready));
        proof {
            assert(v@.len() == self.field_values().len());
        }
        v
    }

    pub open spec fn schema() -> Seq<FieldKind> {
        seq![FieldKind::Str, FieldKind::Bool]
    }

    /// Reads the packet from the start of a body; fails exactly when no such packet is
    /// encoded there.
    pub fn deserialize(body: &[u8]) -> (r: Result<Self, Error>)
        ensures
            r matches Ok(p) ==> all_encodable(p.field_values()) && prefix_at(body@, 0, enc_fields(p.field_values())),
            r is Err ==> forall|p: Self|
                all_encodable(p.field_values()) ==> !prefix_at(body@, 0, #[trigger] enc_fields(p.field_values())),
    {
        let mut schema: Vec<FieldKind> = Vec::new();
        schema.push(FieldKind::Str);
        schema.push(FieldKind::Bool);
        assert(schema@ =~= Self::schema());
        let mut fs = match decode_fields(&schema, body) {
            Ok(fs) => fs,
            Err(e) => {
                proof {
                    assert forall|p: Self| all_encodable(p.field_values()) implies !prefix_at(body@, 0, #[trigger] enc_fields(p.field_values())) by {
                        assert(kinds_of(p.field_values()) =~= Self::schema());
                    }
                }
                return Err(e);
            },
        };
        let ghost all = fs@;
        proof {
            assert(kinds_of(all)[0] == kind_of(all[0]));
            assert(kinds_of(all)[1] == kind_of(all[1]));
        }
        let f1 = fs.pop().unwrap();
        assert(f1 == all[1]);
        let f0 = fs.pop().unwrap();
        assert(f0 == all[0]);
        match (f0, f1) {
            (Field::Str(my_id), Field::Bool(ready)) => {
                let p = GamePlayerReadyDataDefaultPacket { my_id, ready };
                assert(p.field_values() =~= all);
                Ok(p)
            },
            _ => Err(Error::InvalidData("malformed packet body".to_owned())),
        }
    }
}

/// Placement ready with the board as (kind, tile) pairs.
#[derive(Debug)]
pub struct GamePlayerReadyDataFullPacket {
    pub my_id: String,
    pub ready: bool,
    pub board: Vec<(u32, u32)>,
}

impl GamePlayerReadyDataFullPacket {
    pub const ID: u8 = 7;

    /// The body, field by field.
    pub open spec fn field_values(&self) -> Seq<Field> {
        seq![Field::Str(self.my_id), Field::Bool(self.ready), Field::PairsU32(self.board)]
    }

    pub fn fields(&self) -> (r: Vec<Field>)
        ensures
            same_values(r@, self.field_values()),
    {
        let mut v: Vec<Field> = Vec::new();
        v.push(Field::Str(self.my_id.clone()));
        v.push(Field::Bool(self.ready));
        v.push(Field::PairsU32(copy_vec(&self.board)));
        proof {
            assert(v@.len() == self.field_values().len());
        }
        v
    }

    pub open spec fn schema() -> Seq<FieldKind> {
        seq![FieldKind::Str, FieldKind::Bool, FieldKind::PairsU32]
    }

    /// Reads the packet from the start of a body; fails exactly when no such packet is
    /// encoded there.
    pub fn deserialize(body: &[u8]) -> (r: Result<Self, Error>)
        ensures
            r matches Ok(p) ==> all_encodable(p.field_values()) && prefix_at(body@, 0, enc_fields(p.field_values())),
            r is Err ==> forall|p: Self|
                all_encodable(p.field_values()) ==> !prefix_at(body@, 0, #[trigger] enc_fields(p.field_values())),
    {
        let mut schema: Vec<FieldKind> = Vec::new();
        schema.push(FieldKind::Str);
        schema.push(FieldKind::Bool);
        schema.push(FieldKind::PairsU32);
        assert(schema@ =~= Self::schema());
        let mut fs = match decode_fields(&schema, body) {
            Ok(fs) => fs,
            Err(e) => {
                proof {
                    assert forall|p: Self| all_encodable(p.field_values()) implies !prefix_at(body@, 0, #[trigger] enc_fields(p.field_values())) by {
                        assert(kinds_of(p.field_values()) =~= Self::schema());
                    }
                }
                return Err(e);
            },
        };
        let ghost all = fs@;
        proof {
            assert(kinds_of(all)[0] == kind_of(all[0]));
            assert(kinds_of(all)[1] == kind_of(all[1]));
            assert(kinds_of(all)[2] == kind_of(all[2]));
        }
        let f2 = fs.pop().unwrap();
        assert(f2 == all[2]);
        let f1 = fs.pop().unwrap();
        assert(f1 == all[1]);
        let f0 = fs.pop().unwrap();
        assert(f0 == all[0]);
        match (f0, f1, f2) {
            (Field::Str(my_id), Field::Bool(ready), Field::PairsU32(board)) => {
                let p = GamePlayerReadyDataFullPacket { my_id, ready, board };
                assert(p.field_values() =~= all);
                Ok(p)
            },
            _ => Err(Error::InvalidData("malformed packet body".to_owned())),
        }
    }
}

/// A move.
#[derive(Debug)]
pub struct MovePacket {
    pub my_id: String,
    pub from_location: u8,
    pub to_location: u8,
}

impl MovePacket {
    pub const ID: u8 = 8;

    /// The body, field by field.
    pub open spec fn field_values(&self) -> Seq<Field> {
        seq![Field::Str(self.my_id), Field::U8(self.from_location), Field::U8(self.to_location)]
    }

    pub fn fields(&self) -> (r: Vec<Field>)
        ensures
            same_values(r@, self.field_values()),
    {
        let mut v: Vec<Field> = Vec::new();
        v.push(Field::Str(self.my_id.clone()));
        v.push(Field::U8(self.from_location));
        v.push(Field::U8(self.to_location));
        proof {
            assert(v@.len() == self.field_values().len());
        }
        v
    }

    pub open spec fn schema() -> Seq<FieldKind> {
        seq![FieldKind::Str, FieldKind::U8, FieldKind::U8]
    }

    /// Reads the packet from the start of a body; fails exactly when no such packet is
    /// encoded there.
    pub fn deserialize(body: &[u8]) -> (r: Result<Self, Error>)
        ensures
            r matches Ok(p) ==> all_encodable(p.field_values()) && prefix_at(body@, 0, enc_fields(p.field_values())),
            r is Err ==> forall|p: Self|
                all_encodable(p.field_values()) ==> !prefix_at(body@, 0, #[trigger] enc_fields(p.field_values())),
    {
        let mut schema: Vec<FieldKind> = Vec::new();
        schema.push(FieldKind::Str);
        schema.push(FieldKind::U8);
        schema.push(FieldKind::U8);
        assert(schema@ =~= Self::schema());
        let mut fs = match decode_fields(&schema, body) {
            Ok(fs) => fs,
            Err(e) => {
                proof {
                    assert forall|p: Self| all_encodable(p.field_values()) implies !prefix_at(body@, 0, #[trigger] enc_fields(p.field_values())) by {
                        assert(kinds_of(p.field_values()) =~= Self::schema());
                    }
                }
                return Err(e);
            },
        };
        let ghost all = fs@;
        proof {
            assert(kinds_of(all)[0] == kind_of(all[0]));
            assert(kinds_of(all)[1] == kind_of(all[1]));
            assert(kinds_of(all)[2] == kind_of(all[2]));
        }
        let f2 = fs.pop().unwrap();
        assert(f2 == all[2]);
        let f1 = fs.pop().unwrap();
        assert(f1 == all[1]);
        let f0 = fs.pop().unwrap();
        assert(f0 == all[0]);
        match (f0, f1, f2) {
            (Field::Str(my_id), Field::U8(from_location), Field::U8(to_location)) => {
                let p = MovePacket { my_id, from_location, to_location };
                assert(p.field_values() =~= all);
                Ok(p)
            },
            _ => Err(Error::InvalidData("malformed packet body".to_owned())),
        }
    }
}

/// Give up the game.
#[derive(Debug)]
pub struct SurrenderPacket {}

impl SurrenderPacket {
    pub const ID: u8 = 9;

    /// The body, field by field.
    pub open spec fn field_values(&self) -> Seq<Field> {
        Seq::empty()
    }

    pub fn fields(&self) -> (r: Vec<Field>)
        ensures
            same_values(r@, self.field_values()),
    {
        let mut v: Vec<Field> = Vec::new();
        v
    }

    pub open spec fn schema() -> Seq<FieldKind> {
        Seq::empty()
    }

    /// Reads the packet from the start of a body; fails exactly when no such packet is
    /// encoded there.
    pub fn deserialize(body: &[u8]) -> (r: Result<Self, Error>)
        ensures
            r matches Ok(p) ==> all_encodable(p.field_values()) && prefix_at(body@, 0, enc_fields(p.field_values())),
            r is Err ==> forall|p: Self|
                all_encodable(p.field_values()) ==> !prefix_at(body@, 0, #[trigger] enc_fields(p.field_values())),
    {
        let mut schema: Vec<FieldKind> = Vec::new();
        assert(schema@ =~= Self::schema());
        let mut fs = match decode_fields(&schema, body) {
            Ok(fs) => fs,
            Err(e) => {
                proof {
                    assert forall|p: Self| all_encodable(p.field_values()) implies !prefix_at(body@, 0, #[trigger] enc_fields(p.field_values())) by {
                        assert(kinds_of(p.field_values()) =~= Self::schema());
                    }
                }
                return Err(e);
            },
        };
        let ghost all = fs@;
        proof {
        }
        match () {
            () => {
                let p = SurrenderPacket {};
                assert(p.field_values() =~= all);
                Ok(p)
            },
        }
    }
}

/// Leave the room.
#[derive(Debug)]
pub struct LeaveGamePacket {}

impl LeaveGamePacket {
    pub const ID: u8 = 10;

    /// The body, field by field.
    pub open spec fn field_values(&self) -> Seq<Field> {
        Seq::empty()
    }

    pub fn fields(&self) -> (r: Vec<Field>)
        ensures
            same_values(r@, self.field_values()),
    {
        let mut v: Vec<Field> = Vec::new();
        v
    }

    pub open spec fn schema() -> Seq<FieldKind> {
        Seq::empty()
    }

    /// Reads the packet from the start of a body; fails exactly when no such packet is
    /// encoded there.
    pub fn deserialize(body: &[u8]) -> (r: Result<Self, Error>)
        ensures
            r matches Ok(p) ==> all_encodable(p.field_values()) && prefix_at(body@, 0, enc_fields(p.field_values())),
            r is Err ==> forall|p: Self|
                all_encodable(p.field_values()) ==> !prefix_at(body@, 0, #[trigger] enc_fields(p.field_values())),
    {
        let mut schema: Vec<FieldKind> = Vec::new();
        assert(schema@ =~= Self::schema());
        let mut fs = match decode_fields(&schema, body) {
            Ok(fs) => fs,
            Err(e) => {
                proof {
                    assert forall|p: Self| all_encodable(p.field_values()) implies !prefix_at(body@, 0, #[trigger] enc_fields(p.field_values())) by {
                        assert(kinds_of(p.field_values()) =~= Self::schema());
                    }
                }
                return Err(e);
            },
        };
        let ghost all = fs@;
        proof {
        }
        match () {
            () => {
                let p = LeaveGamePacket {};
                assert(p.field_values() =~= all);
                Ok(p)
            },
        }
    }
}

/// Ask for another game.
#[derive(Debug)]
pub struct PlayAgainPacket {}

impl PlayAgainPacket {
    pub const ID: u8 = 11;

    /// The body, field by field.
    pub open spec fn field_values(&self) -> Seq<Field> {
        Seq::empty()
    }

    pub fn fields(&self) -> (r: Vec<Field>)
        ensures
            same_values(r@, self.field_values()),
    {
        let mut v: Vec<Field> = Vec::new();
        v
    }

    pub open spec fn schema() -> Seq<FieldKind> {
        Seq::empty()
    }

    /// Reads the packet from the start of a body; fails exactly when no such packet is
    /// encoded there.
    pub fn deserialize(body: &[u8]) -> (r: Result<Self, Error>)
        ensures
            r matches Ok(p) ==> all_encodable(p.field_values()) && prefix_at(body@, 0, enc_fields(p.field_values())),
            r is Err ==> forall|p: Self|
                all_encodable(p.field_values()) ==> !prefix_at(body@, 0, #[trigger] enc_fields(p.field_values())),
    {
        let mut schema: Vec<FieldKind> = Vec::new();
        assert(schema@ =~= Self::schema());
        let mut fs = match decode_fields(&schema, body) {
            Ok(fs) => fs,
            Err(e) => {
                proof {
                    assert forall|p: Self| all_encodable(p.field_values()) implies !prefix_at(body@, 0, #[trigger] enc_fields(p.field_values())) by {
                        assert(kinds_of(p.field_values()) =~= Self::schema());
                    }
                }
                return Err(e);
            },
        };
        let ghost all = fs@;
        proof {
        }
        match () {
            () => {
                let p = PlayAgainPacket {};
                assert(p.field_values() =~= all);
                Ok(p)
            },
        }
    }
}

/// Messages the server sends.
#[derive(Clone, Copy, Debug, PartialEq, Eq, Structural)]
pub enum ServerMessage {
    KeepAlive,
    Welcome,
    Kicked,
    ClientDisconnect,
    RoomPlayerAdd,
    RoomPlayerUpdatedReadyState,
    FailCreateGame,
    ErrorJoinGame,
    ClientInfo,
    GameInfo,
    UpdatedPigIcon,
    SettingsValueChanged,
    PigItemValueChanged,
    PigConfigValueChanged,
    RoomTimerUpdate,
    BothClientsLoadedGame,
    GameTimerUpdate,
    GamePlayerUpdatedReadyState,
    OpponentPigPlacement,
    MoveData,
    TurnInit,
    TurnSecondUpdate,
    Win,
    EnemyPieceData,
    ClientPlayAgain,
    Null,
}

pub open spec fn server_message_spec(id: u8) -> ServerMessage {
    if id == 0 {
        ServerMessage::KeepAlive
    } else if id == 1 {
        ServerMessage::Welcome
    } else if id == 2 {
        ServerMessage::Kicked
    } else if id == 3 {
        ServerMessage::ClientDisconnect
    } else if id == 4 {
        ServerMessage::RoomPlayerAdd
    } else if id == 5 {
        ServerMessage::RoomPlayerUpdatedReadyState
    } else if id == 6 {
        ServerMessage::FailCreateGame
    } else if id == 7 {
        ServerMessage::ErrorJoinGame
    } else if id == 8 {
        ServerMessage::ClientInfo
    } else if id == 9 {
        ServerMessage::GameInfo
    } else if id == 10 {
        ServerMessage::UpdatedPigIcon
    } else if id == 11 {
        ServerMessage::SettingsValueChanged
    } else if id == 12 {
        ServerMessage::PigItemValueChanged
    } else if id == 13 {
        ServerMessage::PigConfigValueChanged
    } else if id == 14 {
        ServerMessage::RoomTimerUpdate
    } else if id == 15 {
        ServerMessage::BothClientsLoadedGame
    } else if id == 16 {
        ServerMessage::GameTimerUpdate
    } else if id == 17 {
        ServerMessage::GamePlayerUpdatedReadyState
    } else if id == 18 {
        ServerMessage::OpponentPigPlacement
    } else if id == 19 {
        ServerMessage::MoveData
    } else if id == 20 {
        ServerMessage::TurnInit
    } else if id == 21 {
        ServerMessage::TurnSecondUpdate
    } else if id == 22 {
        ServerMessage::Win
    } else if id == 23 {
        ServerMessage::EnemyPieceData
    } else if id == 24 {
        ServerMessage::ClientPlayAgain
    } else {
        ServerMessage::Null
    }
}

impl ServerMessage {
    /// The message with wire id `id`; unknown ids give `Null`.
    pub fn from(id: u8) -> (r: Self)
        ensures
            r == server_message_spec(id),
    {
        match id {
            0 => ServerMessage::KeepAlive,
            1 => ServerMessage::Welcome,
            2 => ServerMessage::Kicked,
            3 => ServerMessage::ClientDisconnect,
            4 => ServerMessage::RoomPlayerAdd,
            5 => ServerMessage::RoomPlayerUpdatedReadyState,
            6 => ServerMessage::FailCreateGame,
            7 => ServerMessage::ErrorJoinGame,
            8 => ServerMessage::ClientInfo,
            9 => ServerMessage::GameInfo,
            10 => ServerMessage::UpdatedPigIcon,
            11 => ServerMessage::SettingsValueChanged,
            12 => ServerMessage::PigItemValueChanged,
            13 => ServerMessage::PigConfigValueChanged,
            14 => ServerMessage::RoomTimerUpdate,
            15 => ServerMessage::BothClientsLoadedGame,
            16 => ServerMessage::GameTimerUpdate,
            17 => ServerMessage::GamePlayerUpdatedReadyState,
            18 => ServerMessage::OpponentPigPlacement,
            19 => ServerMessage::MoveData,
            20 => ServerMessage::TurnInit,
            21 => ServerMessage::TurnSecondUpdate,
            22 => ServerMessage::Win,
            23 => ServerMessage::EnemyPieceData,
            24 => ServerMessage::ClientPlayAgain,
            _ => ServerMessage::Null,
        }
    }
}

/// Messages clients send.
#[derive(Clone, Copy, Debug, PartialEq, Eq, Structural)]
pub enum ClientMessage {
    GameRequestSent,
    UpdateReadyState,
    UpdatePigIcon,
    UpdateSettingsValue,
    UpdatePigItemValue,
    FinishedSceneLoad,
    GamePlayerReadyData,
    Move,
    Surrender,
    LeaveGame,
    PlayAgain,
    Null,
}

pub open spec fn client_message_spec(id: u8) -> ClientMessage {
    if id == 1 {
        ClientMessage::GameRequestSent
    } else if id == 2 {
        ClientMessage::UpdateReadyState
    } else if id == 3 {
        ClientMessage::UpdatePigIcon
    } else if id == 4 {
        ClientMessage::UpdateSettingsValue
    } else if id == 5 {
        ClientMessage::UpdatePigItemValue
    } else if id == 6 {
        ClientMessage::FinishedSceneLoad
    } else if id == 7 {
        ClientMessage::GamePlayerReadyData
    } else if id == 8 {
        ClientMessage::Move
    } else if id == 9 {
        ClientMessage::Surrender
    } else if id == 10 {
        ClientMessage::LeaveGame
    } else if id == 11 {
        ClientMessage::PlayAgain
    } else {
        ClientMessage::Null
    }
}

impl ClientMessage {
    /// The message with wire id `id`; unknown ids give `Null`.
    pub fn from(id: u8) -> (r: Self)
        ensures
            r == client_message_spec(id),
    {
        match id {
            1 => ClientMessage::GameRequestSent,
            2 => ClientMessage::UpdateReadyState,
            3 => ClientMessage::UpdatePigIcon,
            4 => ClientMessage::UpdateSettingsValue,
            5 => ClientMessage::UpdatePigItemValue,
            6 => ClientMessage::FinishedSceneLoad,
            7 => ClientMessage::GamePlayerReadyData,
            8 => ClientMessage::Move,
            9 => ClientMessage::Surrender,
            10 => ClientMessage::LeaveGame,
            11 => ClientMessage::PlayAgain,
            _ => ClientMessage::Null,
        }
    }
}

} // verus!
