//! Room settings: game modes, piece-count presets, time settings and placement checks.

use vstd::prelude::*;

use crate::board::{Board, Piece};
use crate::pig::{pig_from_spec, pig_index, Pig, PIG_KINDS};

verus! {

/// Largest number of pieces a side may field.
pub const MAX_PIGS: usize = 40;

#[derive(Clone, Copy, Debug, PartialEq, Eq, Hash, Structural)]
pub enum GameMode {
    Original,
    Infiltrator,
    Duel,
    Custom,
}

pub open spec fn mode_wire(m: GameMode) -> u8 {
    match m {
        GameMode::Original => 1,
        GameMode::Infiltrator => 2,
        GameMode::Duel => 3,
        GameMode::Custom => 4,
    }
}

pub open spec fn mode_from_spec(v: int) -> GameMode {
    if v == 1 {
        GameMode::Original
    } else if v == 2 {
        GameMode::Infiltrator
    } else if v == 3 {
        GameMode::Duel
    } else {
        GameMode::Custom
    }
}

impl GameMode {
    pub const MAX: u8 = 4;

    /// Mode from its number; every unknown number is `Custom`.
    pub fn from(val: u8) -> (r: Self)
        ensures
            r == mode_from_spec(val as int),
    {
        match val {
            1 => GameMode::Original,
            2 => GameMode::Infiltrator,
            3 => GameMode::Duel,
            _ => GameMode::Custom,
        }
    }

    pub fn to_wire(&self) -> (r: u8)
        ensures
            r == mode_wire(*self),
            1 <= r <= 4,
    {
        match self {
            GameMode::Original => 1,
            GameMode::Infiltrator => 2,
            GameMode::Duel => 3,
            GameMode::Custom => 4,
        }
    }
}

/// Per-kind counts of a preset, indexed by kind number.
pub open spec fn preset_spec(mode: GameMode) -> Option<Seq<u8>> {
    match mode {
        GameMode::Original => Some(seq![6u8, 1, 0, 1, 8, 5, 4, 4, 4, 3, 2, 1, 1]),
        GameMode::Infiltrator => Some(seq![6u8, 1, 1, 1, 7, 5, 4, 4, 4, 3, 2, 1, 1]),
        GameMode::Duel => Some(seq![2u8, 1, 0, 1, 2, 2, 0, 0, 0, 0, 0, 1, 1]),
        GameMode::Custom => None,
    }
}

/// The piece counts of a preset mode; `Custom` has none.
pub fn get_pig_config_for_mode(mode: GameMode) -> (r: Option<Vec<u8>>)
    ensures
        match preset_spec(mode) {
            Some(s) => r matches Some(v) && v@ == s,
            None => r is None,
        },
{
    match mode {
        GameMode::Original => Some(vec![6, 1, 0, 1, 8, 5, 4, 4, 4, 3, 2, 1, 1]),
        GameMode::Infiltrator => Some(vec![6, 1, 1, 1, 7, 5, 4, 4, 4, 3, 2, 1, 1]),
        GameMode::Duel => Some(vec![2, 1, 0, 1, 2, 2, 0, 0, 0, 0, 0, 1, 1]),
        GameMode::Custom => None,
    }
}

/// Turn and buffer seconds a preset brings with it.
pub struct SettingsVars {
    pub turn_time: u32,
    pub buffer_time: u32,
}

impl Default for SettingsVars {
    fn default() -> (r: Self)
        ensures
            r.turn_time == 15,
            r.buffer_time == 300,
    {
        SettingsVars { turn_time: 15, buffer_time: 300 }
    }
}

pub fn get_settings_vars(mode: GameMode) -> (r: SettingsVars)
    ensures
        r.turn_time == 15,
        r.buffer_time == (if mode == GameMode::Duel {
            180u32
        } else {
            300u32
        }),
{
    if mode == GameMode::Duel {
        return SettingsVars { turn_time: 15, buffer_time: 180 };
    }
    SettingsVars::default()
}

/// Range and step of one adjustable time setting.
#[derive(Clone, Copy, Debug)]
pub struct SettingsGroup {
    pub loopable: bool,
    pub min_val: i32,
    pub max_val: i32,
    pub interval: u32,
    pub default: i32,
}

pub open spec fn group_spec(id: int) -> Option<SettingsGroup> {
    if id == 1 {
        Some(SettingsGroup { loopable: false, min_val: 30, max_val: 600, interval: 30, default: 300 })
    } else if id == 2 {
        Some(SettingsGroup { loopable: true, min_val: 0, max_val: 30, interval: 1, default: 15 })
    } else if id == 3 {
        Some(SettingsGroup { loopable: false, min_val: 0, max_val: 900, interval: 30, default: 300 })
    } else {
        None
    }
}

/// The time settings: 1 placement, 2 turn, 3 buffer seconds.
pub fn settings_group(id: u32) -> (r: Option<SettingsGroup>)
    ensures
        r == group_spec(id as int),
{
    if id == 1 {
        Some(SettingsGroup { loopable: false, min_val: 30, max_val: 600, interval: 30, default: 300 })
    } else if id == 2 {
        Some(SettingsGroup { loopable: true, min_val: 0, max_val: 30, interval: 1, default: 15 })
    } else if id == 3 {
        Some(SettingsGroup { loopable: false, min_val: 0, max_val: 900, interval: 30, default: 300 })
    } else {
        None
    }
}

pub open spec fn group_wf(g: SettingsGroup) -> bool {
    &&& 0 <= g.min_val <= g.default <= g.max_val
    &&& g.max_val <= 100_000
    &&& 1 <= g.interval <= 100_000
}

pub open spec fn sanitize_spec(provided: u32, g: SettingsGroup) -> u32 {
    if provided > g.max_val as u32 || provided < g.min_val as u32 || provided % g.interval != 0 {
        g.default as u32
    } else {
        provided
    }
}

/// A submitted time value, or the group's default where it is off range or off step.
pub fn sanitize_setting(provided: u32, setting: &SettingsGroup) -> (r: u32)
    requires
        group_wf(*setting),
    ensures
        r == sanitize_spec(provided, *setting),
{
    if provided > setting.max_val as u32 || provided < setting.min_val as u32 || provided
        % setting.interval != 0 {
        setting.default as u32
    } else {
        provided
    }
}

/// One step of a time setting up or down; `None` where a non-looping setting would leave
/// its range.
pub open spec fn step_spec(current: int, g: SettingsGroup, increased: bool) -> Option<int> {
    if increased {
        let v = current + g.interval;
        if v > g.max_val {
            if g.loopable {
                Some(g.min_val as int)
            } else {
                None
            }
        } else {
            Some(v)
        }
    } else {
        let v = current - g.interval;
        if v < g.min_val {
            if g.loopable {
                Some(g.max_val as int)
            } else {
                None
            }
        } else {
            Some(v)
        }
    }
}

pub fn step_setting(current: u32, group: &SettingsGroup, increased: bool) -> (r: Option<u32>)
    requires
        group_wf(*group),
        current <= 100_000,
    ensures
        match step_spec(current as int, *group, increased) {
            Some(v) => r == Some(v as u32),
            None => r is None,
        },
{
    let cur = current as i64;
    if increased {
        let v = cur + group.interval as i64;
        if v > group.max_val as i64 {
            if group.loopable {
                Some(group.min_val as u32)
            } else {
                None
            }
        } else {
            Some(v as u32)
        }
    } else {
        let v = cur - group.interval as i64;
        if v < group.min_val as i64 {
            if group.loopable {
                Some(group.max_val as u32)
            } else {
                None
            }
        } else {
            Some(v as u32)
        }
    }
}

/// Settings of a room. `pig_config` holds one count per kind, indexed by kind number.
#[derive(Debug)]
pub struct GameRoomSettings {
    pub game_mode: GameMode,
    pub placement_time: u32,
    pub turn_time: u32,
    pub buffer_time: u32,
    pub pig_config: Vec<u8>,
}

pub open spec fn config_total(c: Seq<u8>) -> int
    decreases c.len(),
{
    if c.len() == 0 {
        0
    } else {
        config_total(c.drop_last()) + c.last() as int
    }
}

impl GameRoomSettings {
    /// One count per kind, each time setting within its range, and at most forty pieces.
    pub open spec fn wf(&self) -> bool {
        &&& self.pig_config@.len() == PIG_KINDS
        &&& config_total(self.pig_config@) <= MAX_PIGS
        &&& self.placement_time <= 600
        &&& self.turn_time <= 30
        &&& self.buffer_time <= 900
    }

    /// Settings with the given mode and times and no pieces.
    pub fn new(game_mode: GameMode, placement_time: u32, turn_time: u32, buffer_time: u32) -> (r: Self)
        ensures
            r.game_mode == game_mode,
            r.placement_time == placement_time,
            r.turn_time == turn_time,
            r.buffer_time == buffer_time,
            r.pig_config@ == Seq::new(13, |i: int| 0u8),
    {
        let pig_config = vec![0u8; 13];
        assert(pig_config@ =~= Seq::new(13, |i: int| 0u8));
        GameRoomSettings { game_mode, placement_time, turn_time, buffer_time, pig_config }
    }

    pub fn new_with_pigs(
        game_mode: GameMode,
        placement_time: u32,
        turn_time: u32,
        buffer_time: u32,
        pig_config: Vec<u8>,
    ) -> (r: Self)
        ensures
            r.game_mode == game_mode,
            r.placement_time == placement_time,
            r.turn_time == turn_time,
            r.buffer_time == buffer_time,
            r.pig_config@ == pig_config@,
    {
        GameRoomSettings { game_mode, placement_time, turn_time, buffer_time, pig_config }
    }

    /// The `Original` preset with 300 / 15 / 300 seconds.
    pub fn default() -> (r: Self)
        ensures
            r.game_mode == GameMode::Original,
            r.placement_time == 300,
            r.turn_time == 15,
            r.buffer_time == 300,
            Some(r.pig_config@) == preset_spec(GameMode::Original),
            r.wf(),
    {
        let pig_config = vec![6, 1, 0, 1, 8, 5, 4, 4, 4, 3, 2, 1, 1];
        assert(config_total(pig_config@) == 40) by {
            reveal_with_fuel(config_total, 14);
        }
        GameRoomSettings {
            game_mode: GameMode::Original,
            placement_time: 300,
            turn_time: 15,
            buffer_time: 300,
            pig_config,
        }
    }
}

/// Why a placement was refused.
#[derive(Clone, Copy, Debug, PartialEq, Eq, Structural)]
pub enum PlacementError {
    InvalidPig,
    OutOfBounds,
    Duplicate,
    ConfigMismatch,
}

/// The refusal a submitted `(kind, tile)` pair earns after the pairs `prev`, if any.
pub open spec fn pair_error(prev: Seq<(u32, u32)>, p: (u32, u32)) -> Option<PlacementError> {
    if p.0 >= 13 {
        Some(PlacementError::InvalidPig)
    } else if !(1 <= p.1 <= 40) {
        Some(PlacementError::OutOfBounds)
    } else if exists|j: int| 0 <= j < prev.len() && (#[trigger] prev[j]).1 == p.1 {
        Some(PlacementError::Duplicate)
    } else {
        None
    }
}

/// The first refusal among the pairs, in submission order.
pub open spec fn first_pair_error(pairs: Seq<(u32, u32)>) -> Option<PlacementError>
    decreases pairs.len(),
{
    if pairs.len() == 0 {
        None
    } else {
        match first_pair_error(pairs.drop_last()) {
            Some(e) => Some(e),
            None => pair_error(pairs.drop_last(), pairs.last()),
        }
    }
}

pub open spec fn pair_piece(p: (u32, u32)) -> Piece {
    Piece { pig: pig_from_spec(p.0 as int), location: p.1 as u8, id: p.1 as u8 }
}

/// The pieces a submission places, in order, each with its tile as stable id.
pub open spec fn pairs_to_board(pairs: Seq<(u32, u32)>) -> Seq<Piece> {
    pairs.map_values(|p: (u32, u32)| pair_piece(p))
}

/// Number of pieces of kind number `k` on `b`.
pub open spec fn count_kind(b: Seq<Piece>, k: nat) -> nat
    decreases b.len(),
{
    if b.len() == 0 {
        0
    } else {
        count_kind(b.drop_last(), k) + (if pig_index(b.last().pig) == k {
            1nat
        } else {
            0nat
        })
    }
}

/// Every kind is fielded exactly as often as the configuration says.
pub open spec fn counts_match(b: Seq<Piece>, config: Seq<u8>) -> bool {
    forall|k: nat| k < 13 ==> count_kind(b, k) == config[k as int] as nat
}

proof fn lemma_first_error_prefix(pairs: Seq<(u32, u32)>, n: int)
    requires
        0 <= n <= pairs.len(),
        first_pair_error(pairs.subrange(0, n)) is Some,
    ensures
        first_pair_error(pairs) == first_pair_error(pairs.subrange(0, n)),
    decreases pairs.len() - n,
{
    if n < pairs.len() {
        assert(pairs.subrange(0, n + 1).drop_last() == pairs.subrange(0, n));
        lemma_first_error_prefix(pairs, n + 1);
    } else {
        assert(pairs.subrange(0, n) == pairs);
    }
}

/// Checks a submitted placement against the room's piece counts and builds the board.
pub fn validate_placement(pairs: &Vec<(u32, u32)>, config: &Vec<u8>) -> (r: Result<Board, PlacementError>)
    requires
        config@.len() == 13,
    ensures
        match first_pair_error(pairs@) {
            Some(e) => r == Err::<Board, PlacementError>(e),
            None => if counts_match(pairs_to_board(pairs@), config@) {
                r matches Ok(b) && b@ == pairs_to_board(pairs@)
            } else {
                r == Err::<Board, PlacementError>(PlacementError::ConfigMismatch)
            },
        },
{
    let mut board: Board = Vec::new();
    let mut i: usize = 0;
    while i < pairs.len()
        invariant
            i <= pairs.len(),
            first_pair_error(pairs@.subrange(0, i as int)) is None,
            board@ == pairs_to_board(pairs@.subrange(0, i as int)),
            forall|j: int| 0 <= j < i ==> 1 <= (#[trigger] pairs@[j]).1 <= 40,
            forall|j: int| 0 <= j < i ==> (#[trigger] pairs@[j]).0 < 13,
        decreases pairs.len() - i,
    {
        let (kind, location) = pairs[i];
        let ghost prev = pairs@.subrange(0, i as int);
        assert(pairs@.subrange(0, i + 1).drop_last() == prev);
        assert(pairs@.subrange(0, i + 1).last() == pairs@[i as int]);
        let pig = Pig::from(kind);
        if pig == Pig::Empty {
            proof {
                lemma_first_error_prefix(pairs@, i + 1);
            }
            return Err(PlacementError::InvalidPig);
        }
        if location < 1 || location > 40 {
            proof {
                lemma_first_error_prefix(pairs@, i + 1);
            }
            return Err(PlacementError::OutOfBounds);
        }
        let mut dup = false;
        let mut k: usize = 0;
        while k < board.len()
            invariant
                k <= board.len(),
                board@ == pairs_to_board(prev),
                prev.len() == board.len(),
                1 <= location <= 40,
                forall|j: int| 0 <= j < prev.len() ==> 1 <= (#[trigger] prev[j]).1 <= 40,
                dup == exists|j: int| 0 <= j < k && (#[trigger] prev[j]).1 == location,
            decreases board.len() - k,
        {
            assert(board@[k as int] == pair_piece(prev[k as int]));
            if board[k].location == location as u8 {
                dup = true;
            }
            k += 1;
        }
        if dup {
            proof {
                lemma_first_error_prefix(pairs@, i + 1);
            }
            return Err(PlacementError::Duplicate);
        }
        board.push(Piece::new(pig, location as u8));
        i += 1;
        assert(board@ =~= pairs_to_board(pairs@.subrange(0, i as int)));
    }
    assert(pairs@.subrange(0, pairs.len() as int) == pairs@);
    let mut counts: Vec<usize> = vec![0usize; 13];
    let mut i: usize = 0;
    while i < board.len()
        invariant
            i <= board.len(),
            counts@.len() == 13,
            board@ == pairs_to_board(pairs@),
            first_pair_error(pairs@) is None,
            forall|j: int| 0 <= j < board.len() ==> pig_index((#[trigger] board@[j]).pig) < 13,
            forall|k: int| 0 <= k < 13 ==> counts@[k] == count_kind(board@.subrange(0, i as int), k as nat),
            forall|k: int| 0 <= k < 13 ==> counts@[k] <= i,
        decreases board.len() - i,
    {
        let idx = board[i].pig.index() as usize;
        assert(board@.subrange(0, i + 1).drop_last() == board@.subrange(0, i as int));
        let c = counts[idx];
        counts.set(idx, c + 1);
        i += 1;
    }
    assert(board@.subrange(0, board.len() as int) == board@);
    let mut k: usize = 0;
    while k < 13
        invariant
            k <= 13,
            counts@.len() == 13,
            config@.len() == 13,
            board@ == pairs_to_board(pairs@),
            first_pair_error(pairs@) is None,
            forall|m: int| 0 <= m < 13 ==> counts@[m] == count_kind(board@, m as nat),
            forall|m: nat| m < k ==> count_kind(board@, m) == config@[m as int] as nat,
        decreases 13 - k,
    {
        if counts[k] != config[k] as usize {
            assert(count_kind(board@, k as nat) != config@[k as int] as nat);
            return Err(PlacementError::ConfigMismatch);
        }
        k += 1;
    }
    Ok(board)
}

/// Why a configuration change was refused.
#[derive(Clone, Copy, Debug, PartialEq, Eq, Structural)]
pub enum ConfigError {
    /// A kind number that names no piece.
    InvalidPig,
    /// A custom configuration with no pieces or more than forty.
    InvalidConfig,
}

proof fn lemma_total_update(c: Seq<u8>, k: int, v: u8)
    requires
        0 <= k < c.len(),
    ensures
        config_total(c.update(k, v)) == config_total(c) - c[k] + v,
    decreases c.len(),
{
    if k == c.len() - 1 {
        assert(c.update(k, v).drop_last() == c.drop_last());
    } else {
        assert(c.update(k, v).drop_last() == c.drop_last().update(k, v));
        lemma_total_update(c.drop_last(), k, v);
    }
}

proof fn lemma_total_nonneg(c: Seq<u8>)
    ensures
        config_total(c) >= 0,
    decreases c.len(),
{
    if c.len() > 0 {
        lemma_total_nonneg(c.drop_last());
    }
}

proof fn lemma_total_bounds(c: Seq<u8>, k: int)
    requires
        0 <= k < c.len(),
    ensures
        c[k] <= config_total(c),
    decreases c.len(),
{
    if k < c.len() - 1 {
        lemma_total_bounds(c.drop_last(), k);
        assert(c.drop_last()[k] == c[k]);
    } else {
        lemma_total_nonneg(c.drop_last());
    }
}

/// Sum of the counts.
pub fn total_pigs(c: &Vec<u8>) -> (r: u32)
    requires
        c@.len() <= 13,
    ensures
        r == config_total(c@),
{
    let mut total: u32 = 0;
    let mut i: usize = 0;
    while i < c.len()
        invariant
            i <= c.len() <= 13,
            total == config_total(c@.subrange(0, i as int)),
            total <= 255 * i,
        decreases c.len() - i,
    {
        assert(c@.subrange(0, i + 1).drop_last() == c@.subrange(0, i as int));
        total = total + c[i] as u32;
        i += 1;
    }
    assert(c@.subrange(0, c.len() as int) == c@);
    total
}

/// The new setting of a room after the host asks to raise or lower setting `id`
/// (0 the mode, 1 to 3 the time settings).
pub open spec fn settings_update_spec(old: GameRoomSettings, id: int, increased: bool) -> (GameRoomSettings, Option<u32>) {
    if id == 0 {
        let cur = mode_wire(old.game_mode) as int;
        let v = if increased {
            if cur + 1 > 4 { 1 } else { cur + 1 }
        } else {
            if cur - 1 < 1 { 4 } else { cur - 1 }
        };
        let mode = mode_from_spec(v);
        let new = match preset_spec(mode) {
            Some(p) => GameRoomSettings {
                game_mode: mode,
                turn_time: 15,
                buffer_time: if mode == GameMode::Duel { 180 } else { 300 },
                pig_config: old.pig_config,
                ..old
            },
            None => GameRoomSettings { game_mode: mode, pig_config: old.pig_config, ..old },
        };
        (new, Some(v as u32))
    } else if 1 <= id <= 3 {
        let cur: int = if id == 1 { old.placement_time as int } else if id == 2 { old.turn_time as int } else { old.buffer_time as int };
        match step_spec(cur, group_spec(id).unwrap(), increased) {
            None => (GameRoomSettings { pig_config: old.pig_config, ..old }, None),
            Some(v) => (
                if id == 1 {
                    GameRoomSettings { placement_time: v as u32, pig_config: old.pig_config, ..old }
                } else if id == 2 {
                    GameRoomSettings { turn_time: v as u32, pig_config: old.pig_config, ..old }
                } else {
                    GameRoomSettings { buffer_time: v as u32, pig_config: old.pig_config, ..old }
                },
                Some(v as u32),
            ),
        }
    } else {
        (GameRoomSettings { pig_config: old.pig_config, ..old }, None)
    }
}

/// The same settings apart from the piece counts.
pub open spec fn same_scalars(a: GameRoomSettings, b: GameRoomSettings) -> bool {
    &&& a.game_mode == b.game_mode
    &&& a.placement_time == b.placement_time
    &&& a.turn_time == b.turn_time
    &&& a.buffer_time == b.buffer_time
}

impl GameRoomSettings {
    /// Raises or lowers setting `settings_id`; gives the value to announce, or `None` when
    /// nothing changed. Switching to a preset mode loads its piece counts and times.
    pub fn apply_settings_update(&mut self, settings_id: u32, increased: bool) -> (r: Option<u32>)
        requires
            old(self).wf(),
        ensures
            final(self).wf(),
            r == settings_update_spec(*old(self), settings_id as int, increased).1,
            same_scalars(*final(self), settings_update_spec(*old(self), settings_id as int, increased).0),
            match preset_spec(final(self).game_mode) {
                Some(p) => settings_id == 0 ==> final(self).pig_config@ == p,
                None => true,
            },
            !(settings_id == 0 && preset_spec(final(self).game_mode) is Some) ==> final(self).pig_config@
                == old(self).pig_config@,
    {
        if settings_id == 0 {
            let cur = self.game_mode.to_wire();
            let v: u8 = if increased {
                if cur + 1 > GameMode::MAX { 1 } else { cur + 1 }
            } else {
                if cur - 1 < 1 { GameMode::MAX } else { cur - 1 }
            };
            let mode = GameMode::from(v);
            self.game_mode = mode;
            match get_pig_config_for_mode(mode) {
                Some(config) => {
                    let vars = get_settings_vars(mode);
                    self.turn_time = vars.turn_time;
                    self.buffer_time = vars.buffer_time;
                    assert(config_total(config@) <= 40) by {
                        reveal_with_fuel(config_total, 14);
                    }
                    self.pig_config = config;
                },
                None => {},
            }
            Some(v as u32)
        } else if settings_id <= 3 {
            let group = settings_group(settings_id).unwrap();
            let cur = if settings_id == 1 {
                self.placement_time
            } else if settings_id == 2 {
                self.turn_time
            } else {
                self.buffer_time
            };
            match step_setting(cur, &group, increased) {
                None => None,
                Some(v) => {
                    if settings_id == 1 {
                        self.placement_time = v;
                    } else if settings_id == 2 {
                        self.turn_time = v;
                    } else {
                        self.buffer_time = v;
                    }
                    Some(v)
                },
            }
        } else {
            None
        }
    }

    /// Adds or removes one piece of kind `pig`, switching the room to a custom mode; gives the
    /// new count, or `None` when the change would leave 0..=40 pieces in total or go below zero.
    pub fn apply_pig_item_update(&mut self, pig: u32, increased: bool) -> (r: Result<Option<u8>, ConfigError>)
        requires
            old(self).wf(),
        ensures
            final(self).wf(),
            pig >= 13 ==> r == Err::<Option<u8>, ConfigError>(ConfigError::InvalidPig) && *final(self) == *old(self),
            pig < 13 ==> {
                let c = old(self).pig_config@;
                let k = pig as int;
                let unchanged = if increased { config_total(c) + 1 > 40 } else { c[k] == 0 };
                if unchanged {
                    r == Ok::<Option<u8>, ConfigError>(None) && *final(self) == *old(self)
                } else {
                    let v = if increased { (c[k] + 1) as u8 } else { (c[k] - 1) as u8 };
                    &&& r == Ok::<Option<u8>, ConfigError>(Some(v))
                    &&& final(self).pig_config@ == c.update(k, v)
                    &&& final(self).game_mode == GameMode::Custom
                    &&& final(self).placement_time == old(self).placement_time
                    &&& final(self).turn_time == old(self).turn_time
                    &&& final(self).buffer_time == old(self).buffer_time
                }
            },
    {
        if Pig::from(pig) == Pig::Empty {
            return Err(ConfigError::InvalidPig);
        }
        let k = pig as usize;
        let total = total_pigs(&self.pig_config);
        let current = self.pig_config[k];
        proof {
            lemma_total_bounds(self.pig_config@, k as int);
        }
        let updated: u8 = if increased {
            if total + 1 > 40 {
                return Ok(None);
            }
            current + 1
        } else {
            if current == 0 {
                return Ok(None);
            }
            current - 1
        };
        proof {
            lemma_total_update(self.pig_config@, k as int, updated);
        }
        self.pig_config.set(k, updated);
        self.game_mode = GameMode::Custom;
        Ok(Some(updated))
    }
}

/// Count carried by a submitted amount: 0..=255 as is, anything else 0.
pub open spec fn amount_spec(a: i32) -> u8 {
    if 0 <= a <= 255 { a as u8 } else { 0 }
}

/// Counts from submitted `(kind, amount)` pairs: a later pair for the same kind wins, kinds
/// not named are 0, and pairs that name no kind are left out.
pub open spec fn config_from_pairs(pairs: Seq<(i32, i32)>) -> Seq<u8>
    decreases pairs.len(),
{
    if pairs.len() == 0 {
        Seq::new(13, |i: int| 0u8)
    } else {
        let prev = config_from_pairs(pairs.drop_last());
        let p = pairs.last();
        if 0 <= p.0 < 13 {
            prev.update(p.0 as int, amount_spec(p.1))
        } else {
            prev
        }
    }
}

/// Some pair names no kind.
pub open spec fn names_invalid_kind(pairs: Seq<(i32, i32)>) -> bool {
    exists|i: int| 0 <= i < pairs.len() && !(0 <= (#[trigger] pairs[i]).0 < 13)
}

pub open spec fn coerce_mode(v: i32) -> GameMode {
    if v == 2 {
        GameMode::Infiltrator
    } else if v == 3 {
        GameMode::Duel
    } else if v == 4 {
        GameMode::Custom
    } else {
        GameMode::Original
    }
}

/// Settings from a host's full request: times snapped to their groups, presets taken from
/// the table, custom counts checked.
pub open spec fn request_settings_spec(
    mode: i32,
    placement: i32,
    turn: i32,
    buffer: i32,
    pairs: Seq<(i32, i32)>,
) -> Result<(GameMode, u32, u32, u32, Seq<u8>), ConfigError> {
    let m = coerce_mode(mode);
    let config = match preset_spec(m) {
        Some(p) => p,
        None => config_from_pairs(pairs),
    };
    if m == GameMode::Custom && (names_invalid_kind(pairs) || config_total(config) > 40 || config_total(config) <= 0) {
        Err(ConfigError::InvalidConfig)
    } else {
        Ok((
            m,
            sanitize_spec(placement as u32, group_spec(1).unwrap()),
            sanitize_spec(turn as u32, group_spec(2).unwrap()),
            sanitize_spec(buffer as u32, group_spec(3).unwrap()),
            config,
        ))
    }
}

/// Builds the settings a host asked for.
pub fn settings_from_request(
    mode: i32,
    placement: i32,
    turn: i32,
    buffer: i32,
    pairs: &Vec<(i32, i32)>,
) -> (r: Result<GameRoomSettings, ConfigError>)
    ensures
        match request_settings_spec(mode, placement, turn, buffer, pairs@) {
            Err(e) => r == Err::<GameRoomSettings, ConfigError>(e),
            Ok(t) => r matches Ok(s) && s.wf() && s.game_mode == t.0 && s.placement_time == t.1
                && s.turn_time == t.2 && s.buffer_time == t.3 && s.pig_config@ == t.4,
        },
{
    let game_mode = match mode {
        2 => GameMode::Infiltrator,
        3 => GameMode::Duel,
        4 => GameMode::Custom,
        _ => GameMode::Original,
    };
    let placement_secs = sanitize_setting(placement as u32, &settings_group(1).unwrap());
    let turn_secs = sanitize_setting(turn as u32, &settings_group(2).unwrap());
    let buffer_secs = sanitize_setting(buffer as u32, &settings_group(3).unwrap());
    let mut config: Vec<u8> = vec![0u8; 13];
    let mut invalid = false;
    let mut i: usize = 0;
    assert(config@ =~= config_from_pairs(pairs@.subrange(0, 0)));
    while i < pairs.len()
        invariant
            i <= pairs.len(),
            config@ == config_from_pairs(pairs@.subrange(0, i as int)),
            config@.len() == 13,
            invalid == names_invalid_kind(pairs@.subrange(0, i as int)),
        decreases pairs.len() - i,
    {
        let (kind, amount) = pairs[i];
        assert(pairs@.subrange(0, i + 1).drop_last() == pairs@.subrange(0, i as int));
        let amt: u8 = if 0 <= amount && amount <= 255 { amount as u8 } else { 0 };
        if 0 <= kind && kind < 13 {
            config.set(kind as usize, amt);
        } else {
            invalid = true;
        }
        proof {
            let next = pairs@.subrange(0, i + 1);
            if !(0 <= kind < 13) {
                assert(!(0 <= next[i as int].0 < 13));
            } else if names_invalid_kind(next) {
                let j = choose|j: int| 0 <= j < next.len() && !(0 <= (#[trigger] next[j]).0 < 13);
                assert(pairs@.subrange(0, i as int)[j] == next[j]);
            }
            if names_invalid_kind(pairs@.subrange(0, i as int)) {
                let j = choose|j: int| 0 <= j < i && !(0 <= (#[trigger] pairs@.subrange(0, i as int)[j]).0 < 13);
                assert(next[j] == pairs@.subrange(0, i as int)[j]);
            }
        }
        i += 1;
    }
    assert(pairs@.subrange(0, pairs.len() as int) == pairs@);
    let config = match get_pig_config_for_mode(game_mode) {
        Some(p) => p,
        None => config,
    };
    let total = total_pigs(&config);
    if game_mode == GameMode::Custom {
        if invalid || total > 40 || total == 0 {
            return Err(ConfigError::InvalidConfig);
        }
    }
    assert(config_total(config@) <= 40) by {
        if game_mode != GameMode::Custom {
            reveal_with_fuel(config_total, 14);
        }
    }
    Ok(GameRoomSettings {
        game_mode,
        placement_time: placement_secs,
        turn_time: turn_secs,
        buffer_time: buffer_secs,
        pig_config: config,
    })
}

proof fn lemma_no_pair_error(pairs: Seq<(u32, u32)>)
    requires
        first_pair_error(pairs) is None,
    ensures
        forall|j: int| 0 <= j < pairs.len() ==> (#[trigger] pairs[j]).0 < 13 && 1 <= pairs[j].1 <= 40,
        forall|j: int, k: int| 0 <= j < pairs.len() && 0 <= k < pairs.len() && j != k ==> pairs[j].1 != pairs[k].1,
    decreases pairs.len(),
{
    if pairs.len() > 0 {
        let prev = pairs.drop_last();
        lemma_no_pair_error(prev);
        let n = pairs.len() - 1;
        assert(pair_error(prev, pairs.last()) is None);
        assert forall|j: int| 0 <= j < pairs.len() implies (#[trigger] pairs[j]).0 < 13 && 1 <= pairs[j].1 <= 40 by {
            if j < n {
                assert(prev[j] == pairs[j]);
            }
        }
        assert forall|j: int, k: int| 0 <= j < pairs.len() && 0 <= k < pairs.len() && j != k implies pairs[j].1 != pairs[k].1 by {
            if j < n && k < n {
                assert(prev[j] == pairs[j] && prev[k] == pairs[k]);
            } else if j == n {
                assert(prev[k] == pairs[k]);
            } else {
                assert(prev[j] == pairs[j]);
            }
        }
    }
}

/// A placement the rules accept fields exactly the configured number of each kind, on
/// tiles 1 to 40 of the host's half, one piece per tile.
pub proof fn lemma_legal_placement(pairs: Seq<(u32, u32)>, config: Seq<u8>)
    requires
        first_pair_error(pairs) is None,
        counts_match(pairs_to_board(pairs), config),
    ensures
        counts_match(pairs_to_board(pairs), config),
        forall|i: int| 0 <= i < pairs.len() ==> 1 <= (#[trigger] pairs_to_board(pairs)[i]).location <= 40,
        crate::board::unique_tiles(pairs_to_board(pairs)),
{
    lemma_no_pair_error(pairs);
    let b = pairs_to_board(pairs);
    assert forall|i: int| 0 <= i < pairs.len() implies 1 <= (#[trigger] b[i]).location <= 40 by {
        assert(b[i] == pair_piece(pairs[i]));
    }
    assert forall|i: int, j: int| 0 <= i < b.len() && 0 <= j < b.len() && i != j implies b[i].location != b[j].location by {
        assert(b[i] == pair_piece(pairs[i]));
        assert(b[j] == pair_piece(pairs[j]));
    }
}

} // verus!
