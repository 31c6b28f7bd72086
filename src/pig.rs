//! The piece catalog: kinds, ranks, movement shapes and combat resolution.

use vstd::prelude::*;

use crate::board::{get_adjacent, get_scout, adjacent_spec, scout_spec};

verus! {

/// Outcome of one piece attacking another, from the attacker's point of view.
#[derive(Clone, Copy, Debug, PartialEq, Eq, Structural)]
pub enum InteractionResult {
    Win,
    Lose,
    Tie,
}

pub open spec fn invert_spec(r: InteractionResult) -> InteractionResult {
    match r {
        InteractionResult::Win => InteractionResult::Lose,
        InteractionResult::Lose => InteractionResult::Win,
        InteractionResult::Tie => InteractionResult::Tie,
    }
}

/// Wire value of an outcome: win 1, lose 0, tie -1.
pub open spec fn interaction_wire(r: InteractionResult) -> i32 {
    match r {
        InteractionResult::Win => 1i32,
        InteractionResult::Lose => 0i32,
        InteractionResult::Tie => -1i32,
    }
}

impl InteractionResult {
    /// The same outcome seen from the other side.
    pub fn invert(&self) -> (r: Self)
        ensures
            r == invert_spec(*self),
    {
        match self {
            InteractionResult::Win => InteractionResult::Lose,
            InteractionResult::Lose => InteractionResult::Win,
            InteractionResult::Tie => InteractionResult::Tie,
        }
    }

    /// Wire value: win 1, lose 0, tie -1.
    pub fn to_wire(&self) -> (r: i32)
        ensures
            r == interaction_wire(*self),
    {
        match self {
            InteractionResult::Win => 1,
            InteractionResult::Lose => 0,
            InteractionResult::Tie => -1,
        }
    }
}

/// A piece kind. `Empty` is never a valid piece; it stands for an unknown kind number.
#[derive(Clone, Copy, Debug, PartialEq, Eq, Hash, Structural)]
pub enum Pig {
    Bomb,
    Spy,
    Infiltrator,
    Flag,
    Scout,
    Miner,
    Sergeant,
    Lieutenant,
    Chemist,
    Major,
    Colonel,
    General,
    Kingo,
    Empty,
}

/// Number of real piece kinds (all but `Empty`).
pub const PIG_KINDS: usize = 13;

/// Kind number on the wire; `Empty` has none and maps to 13.
pub open spec fn pig_index(p: Pig) -> nat {
    match p {
        Pig::Bomb => 0,
        Pig::Spy => 1,
        Pig::Infiltrator => 2,
        Pig::Flag => 3,
        Pig::Scout => 4,
        Pig::Miner => 5,
        Pig::Sergeant => 6,
        Pig::Lieutenant => 7,
        Pig::Chemist => 8,
        Pig::Major => 9,
        Pig::Colonel => 10,
        Pig::General => 11,
        Pig::Kingo => 12,
        Pig::Empty => 13,
    }
}

pub open spec fn pig_from_spec(v: int) -> Pig {
    if v == 0 {
        Pig::Bomb
    } else if v == 1 {
        Pig::Spy
    } else if v == 2 {
        Pig::Infiltrator
    } else if v == 3 {
        Pig::Flag
    } else if v == 4 {
        Pig::Scout
    } else if v == 5 {
        Pig::Miner
    } else if v == 6 {
        Pig::Sergeant
    } else if v == 7 {
        Pig::Lieutenant
    } else if v == 8 {
        Pig::Chemist
    } else if v == 9 {
        Pig::Major
    } else if v == 10 {
        Pig::Colonel
    } else if v == 11 {
        Pig::General
    } else if v == 12 {
        Pig::Kingo
    } else {
        Pig::Empty
    }
}

pub open spec fn rank_spec(p: Pig) -> u8 {
    match p {
        Pig::Bomb => 0,
        Pig::Spy => 1,
        Pig::Infiltrator => 1,
        Pig::Flag => 0,
        Pig::Scout => 2,
        Pig::Miner => 3,
        Pig::Sergeant => 4,
        Pig::Lieutenant => 5,
        Pig::Chemist => 6,
        Pig::Major => 7,
        Pig::Colonel => 8,
        Pig::General => 9,
        Pig::Kingo => 10,
        Pig::Empty => 0,
    }
}

/// Two-letter label of a kind on a drawn board.
pub open spec fn label_spec(p: Pig) -> Seq<char> {
    match p {
        Pig::Bomb => seq!['B', 'B'],
        Pig::Spy => seq!['S', 'S'],
        Pig::Infiltrator => seq!['I', 'I'],
        Pig::Flag => seq!['F', 'F'],
        Pig::Scout => seq!['2', '2'],
        Pig::Miner => seq!['3', '3'],
        Pig::Sergeant => seq!['4', '4'],
        Pig::Lieutenant => seq!['5', '5'],
        Pig::Chemist => seq!['6', '6'],
        Pig::Major => seq!['7', '7'],
        Pig::Colonel => seq!['8', '8'],
        Pig::General => seq!['9', '9'],
        Pig::Kingo => seq!['K', 'K'],
        Pig::Empty => seq!['0', '0'],
    }
}

pub open spec fn immovable_spec(p: Pig) -> bool {
    p == Pig::Bomb || p == Pig::Flag
}

/// Movement shape: flags and bombs never move, scouts slide, all others step.
pub open spec fn allow_move_spec(p: Pig, from: int, to: int) -> bool {
    if immovable_spec(p) {
        false
    } else if p == Pig::Scout {
        1 <= from <= 100 && scout_spec(from, to)
    } else {
        adjacent_spec(from, to)
    }
}

/// The plain rank comparison.
pub open spec fn rank_eval_spec(me: Pig, target: Pig) -> InteractionResult {
    if rank_spec(me) > rank_spec(target) {
        InteractionResult::Win
    } else if rank_spec(me) < rank_spec(target) {
        InteractionResult::Lose
    } else {
        InteractionResult::Tie
    }
}

/// What the attacker's own kind makes of an attack (spies and infiltrators beat the kingo).
pub open spec fn attack_behavior_spec(me: Pig, target: Pig) -> InteractionResult {
    if (me == Pig::Spy || me == Pig::Infiltrator) && target == Pig::Kingo {
        InteractionResult::Win
    } else {
        rank_eval_spec(me, target)
    }
}

/// A defender that decides the fight itself, from the defender's point of view.
pub open spec fn defense_override_spec(defender: Pig, attacker: Pig) -> Option<InteractionResult> {
    if defender == Pig::Bomb {
        if attacker == Pig::Miner {
            Some(InteractionResult::Lose)
        } else {
            Some(InteractionResult::Win)
        }
    } else if defender == Pig::Flag {
        Some(InteractionResult::Lose)
    } else {
        None
    }
}

/// Full combat outcome, from the attacker's point of view.
pub open spec fn attack_spec(attacker: Pig, defender: Pig) -> InteractionResult {
    match defense_override_spec(defender, attacker) {
        Some(r) => invert_spec(r),
        None => attack_behavior_spec(attacker, defender),
    }
}

impl Pig {
    /// Kind from its wire number; unknown numbers give `Empty`.
    pub fn from(val: u32) -> (r: Pig)
        ensures
            r == pig_from_spec(val as int),
            val < 13 ==> pig_index(r) == val,
            val >= 13 <==> r == Pig::Empty,
    {
        match val {
            0 => Pig::Bomb,
            1 => Pig::Spy,
            2 => Pig::Infiltrator,
            3 => Pig::Flag,
            4 => Pig::Scout,
            5 => Pig::Miner,
            6 => Pig::Sergeant,
            7 => Pig::Lieutenant,
            8 => Pig::Chemist,
            9 => Pig::Major,
            10 => Pig::Colonel,
            11 => Pig::General,
            12 => Pig::Kingo,
            _ => Pig::Empty,
        }
    }

    /// Wire number of the kind (`Empty` gives 13).
    pub fn index(&self) -> (r: u8)
        ensures
            r as nat == pig_index(*self),
    {
        match self {
            Pig::Bomb => 0,
            Pig::Spy => 1,
            Pig::Infiltrator => 2,
            Pig::Flag => 3,
            Pig::Scout => 4,
            Pig::Miner => 5,
            Pig::Sergeant => 6,
            Pig::Lieutenant => 7,
            Pig::Chemist => 8,
            Pig::Major => 9,
            Pig::Colonel => 10,
            Pig::General => 11,
            Pig::Kingo => 12,
            Pig::Empty => 13,
        }
    }

    pub fn rank(&self) -> (r: u8)
        ensures
            r == rank_spec(*self),
    {
        match self {
            Pig::Bomb => 0,
            Pig::Spy => 1,
            Pig::Infiltrator => 1,
            Pig::Flag => 0,
            Pig::Scout => 2,
            Pig::Miner => 3,
            Pig::Sergeant => 4,
            Pig::Lieutenant => 5,
            Pig::Chemist => 6,
            Pig::Major => 7,
            Pig::Colonel => 8,
            Pig::General => 9,
            Pig::Kingo => 10,
            Pig::Empty => 0,
        }
    }

    pub fn immovable(&self) -> (r: bool)
        ensures
            r == immovable_spec(*self),
    {
        match self {
            Pig::Bomb | Pig::Flag => true,
            _ => false,
        }
    }

    /// Whether this kind may make the move `from -> to` on an otherwise empty board.
    pub fn allow_move(&self, from: u8, to: u8) -> (r: bool)
        ensures
            r == allow_move_spec(*self, from as int, to as int),
    {
        if self.immovable() {
            false
        } else if *self == Pig::Scout {
            if from < 1 || from > 100 {
                return false;
            }
            let reach = get_scout(from);
            contains_tile(&reach, to)
        } else {
            let adj = get_adjacent(from);
            contains_tile(&adj, to)
        }
    }

    /// The attack rule of the attacking kind itself, ignoring any defender override.
    pub fn attack(&self, target: Pig) -> (r: InteractionResult)
        ensures
            r == attack_behavior_spec(*self, target),
    {
        if (*self == Pig::Spy || *self == Pig::Infiltrator) && target == Pig::Kingo {
            return InteractionResult::Win;
        }
        let me = self.rank();
        let them = target.rank();
        if me > them {
            InteractionResult::Win
        } else if me < them {
            InteractionResult::Lose
        } else {
            InteractionResult::Tie
        }
    }

    /// The defender's own verdict on being attacked, if it has one.
    pub fn defense_override(&self, attacker: Pig) -> (r: Option<InteractionResult>)
        ensures
            r == defense_override_spec(*self, attacker),
    {
        match self {
            Pig::Bomb => {
                if attacker == Pig::Miner {
                    Some(InteractionResult::Lose)
                } else {
                    Some(InteractionResult::Win)
                }
            },
            Pig::Flag => Some(InteractionResult::Lose),
            _ => None,
        }
    }

    /// Two-letter label used when drawing a board.
    pub fn print(&self) -> (r: String)
        ensures
            r@ == label_spec(*self),
    {
        let s = match self {
            Pig::Bomb => "BB",
            Pig::Spy => "SS",
            Pig::Infiltrator => "II",
            Pig::Flag => "FF",
            Pig::Scout => "22",
            Pig::Miner => "33",
            Pig::Sergeant => "44",
            Pig::Lieutenant => "55",
            Pig::Chemist => "66",
            Pig::Major => "77",
            Pig::Colonel => "88",
            Pig::General => "99",
            Pig::Kingo => "KK",
            Pig::Empty => "00",
        };
        proof {
            reveal_strlit("BB");
            reveal_strlit("SS");
            reveal_strlit("II");
            reveal_strlit("FF");
            reveal_strlit("22");
            reveal_strlit("33");
            reveal_strlit("44");
            reveal_strlit("55");
            reveal_strlit("66");
            reveal_strlit("77");
            reveal_strlit("88");
            reveal_strlit("99");
            reveal_strlit("KK");
            reveal_strlit("00");
        }
        let r = s.to_owned();
        assert(r@ =~= label_spec(*self));
        r
    }
}

/// Combat outcome for `attacker` moving onto `defender`, from the attacker's point of view.
pub fn attack_outcome(attacker: Pig, defender: Pig) -> (r: InteractionResult)
    ensures
        r == attack_spec(attacker, defender),
{
    match defender.defense_override(attacker) {
        Some(res) => res.invert(),
        None => attacker.attack(defender),
    }
}

/// Whether `v` holds `t`.
pub fn contains_tile(v: &Vec<u8>, t: u8) -> (r: bool)
    ensures
        r == v@.contains(t),
{
    let mut i: usize = 0;
    while i < v.len()
        invariant
            i <= v.len(),
            forall|k: int| 0 <= k < i ==> v@[k] != t,
        decreases v.len() - i,
    {
        if v[i] == t {
            return true;
        }
        i += 1;
    }
    false
}

/// Attacks between two kinds that neither carries a defender's verdict nor form the
/// spy-against-kingo pair are mirror images: one side loses exactly when the other,
/// attacking instead, wins.
pub proof fn lemma_attack_symmetry(a: Pig, b: Pig)
    requires
        a != Pig::Empty,
        b != Pig::Empty,
        !immovable_spec(a),
        !immovable_spec(b),
        !((a == Pig::Spy || a == Pig::Infiltrator) && b == Pig::Kingo),
        !((b == Pig::Spy || b == Pig::Infiltrator) && a == Pig::Kingo),
    ensures
        attack_spec(a, b) == InteractionResult::Lose <==> attack_spec(b, a) == InteractionResult::Win,
        attack_spec(a, b) == InteractionResult::Tie <==> attack_spec(b, a) == InteractionResult::Tie,
{
}

} // verus!
