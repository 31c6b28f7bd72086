//! Move validation, combat resolution and the out-of-moves detector.

use vstd::prelude::*;

use crate::board::{
    adjacent_spec, blocked_spec, board_wf, find_piece, flip_board, flip_board_spec, flip_piece,
    get_adjacent, in_bounds, in_bounds_spec, locations_le_100, occupied, pig_in_path, sum_boards,
    tile_occupied, unique_tiles, Board, Piece,
};
use crate::pig::{allow_move_spec, attack_outcome, attack_spec, immovable_spec, InteractionResult, Pig};
use crate::player::{copy_board, PlayerRole};

verus! {

/// Why a move was refused.
#[derive(Clone, Copy, Debug, PartialEq, Eq, Structural)]
pub enum MoveError {
    /// Same tile twice, or a tile off the board.
    OutOfBounds,
    /// No piece of the mover stands on the starting tile.
    NoPiece,
    /// The mover's own piece stands on the target tile.
    FriendlyTarget,
    /// The piece's kind does not allow this shape of move.
    IllegalShape,
    /// Some piece stands between the two tiles.
    PathBlocked,
}

/// What an attack came to.
#[derive(Clone, Copy, Debug, PartialEq, Eq, Structural)]
pub struct AttackReport {
    pub result: InteractionResult,
    pub init_type: Pig,
    pub target_type: Pig,
}

/// Both boards after an accepted move.
#[derive(Debug)]
pub struct MoveResolution {
    /// The mover's board, in the mover's frame.
    pub local: Board,
    /// The opponent's board, in the opponent's frame.
    pub opponent: Board,
    /// Set when the move was an attack.
    pub attack: Option<AttackReport>,
    /// Set when the attacked piece was the flag.
    pub flag_captured: bool,
}

/// The index of the piece on `t` (meaningful where `occupied(b, t)` and tiles are unique).
pub open spec fn index_of(b: Seq<Piece>, t: int) -> int {
    choose|i: int| 0 <= i < b.len() && b[i].location as int == t
}

/// The first rule a move breaks, checked in order.
pub open spec fn move_check(local: Seq<Piece>, opp: Seq<Piece>, from: int, to: int) -> Option<
    MoveError,
> {
    if from == to || !in_bounds_spec(from) || !in_bounds_spec(to) {
        Some(MoveError::OutOfBounds)
    } else if !occupied(local, from) {
        Some(MoveError::NoPiece)
    } else if occupied(local, to) {
        Some(MoveError::FriendlyTarget)
    } else if !allow_move_spec(local[index_of(local, from)].pig, from, to) {
        Some(MoveError::IllegalShape)
    } else if blocked_spec(local + flip_board_spec(opp), from, to) {
        Some(MoveError::PathBlocked)
    } else {
        None
    }
}

/// The mover's board after a move of the piece on `from` to `to` with the given outcome
/// (`None`: no attack).
pub open spec fn local_after(local: Seq<Piece>, from: int, to: int, outcome: Option<InteractionResult>) -> Seq<Piece> {
    let i = index_of(local, from);
    match outcome {
        None => local.update(i, Piece { location: to as u8, ..local[i] }),
        Some(InteractionResult::Win) => local.update(i, Piece { location: to as u8, ..local[i] }),
        Some(_) => local.remove(i),
    }
}

/// The opponent's board (own frame) after an attack on `to` (mover's frame).
pub open spec fn opponent_after(opp: Seq<Piece>, to: int, outcome: Option<InteractionResult>) -> Seq<Piece> {
    match outcome {
        Some(InteractionResult::Win) | Some(InteractionResult::Tie) => opp.remove(index_of(opp, 101 - to)),
        _ => opp,
    }
}

/// The outcome of a legal move: `None` for a step onto an empty tile.
pub open spec fn move_outcome(local: Seq<Piece>, opp: Seq<Piece>, from: int, to: int) -> Option<InteractionResult> {
    if occupied(opp, 101 - to) {
        Some(attack_spec(local[index_of(local, from)].pig, opp[index_of(opp, 101 - to)].pig))
    } else {
        None
    }
}

proof fn lemma_index_unique(b: Seq<Piece>, t: int, i: int)
    requires
        unique_tiles(b),
        0 <= i < b.len(),
        b[i].location as int == t,
    ensures
        index_of(b, t) == i,
{
}

proof fn lemma_flip_occupied(b: Seq<Piece>, t: int)
    requires
        locations_le_100(b),
        1 <= t <= 100,
    ensures
        occupied(flip_board_spec(b), t) == occupied(b, 101 - t),
        forall|i: int| 0 <= i < b.len() ==> ((#[trigger] flip_board_spec(b)[i]).location as int == t
            <==> b[i].location as int == 101 - t),
{
    assert forall|i: int| 0 <= i < b.len() implies (#[trigger] flip_board_spec(b)[i]).location as int
        == t <==> b[i].location as int == 101 - t by {
        assert(flip_board_spec(b)[i] == flip_piece(b[i]));
    }
    if occupied(b, 101 - t) {
        let i = choose|i: int| 0 <= i < b.len() && b[i].location as int == 101 - t;
        assert(flip_board_spec(b)[i].location as int == t);
    }
    if occupied(flip_board_spec(b), t) {
        let i = choose|i: int|
            0 <= i < flip_board_spec(b).len() && flip_board_spec(b)[i].location as int == t;
        assert(b[i].location as int == 101 - t);
    }
}

/// Validates a move of the mover's piece on `from` to `to` and resolves it.
/// `opponent` is given in the opponent's own frame.
pub fn resolve_move(local: &Board, opponent: &Board, from: u8, to: u8) -> (r: Result<
    MoveResolution,
    MoveError,
>)
    requires
        board_wf(local@),
        board_wf(opponent@),
    ensures
        match move_check(local@, opponent@, from as int, to as int) {
            Some(e) => r == Err::<MoveResolution, MoveError>(e),
            None => r matches Ok(res) && {
                let outcome = move_outcome(local@, opponent@, from as int, to as int);
                &&& res.local@ == local_after(local@, from as int, to as int, outcome)
                &&& res.opponent@ == opponent_after(opponent@, to as int, outcome)
                &&& res.flag_captured == (outcome is Some && opponent@[index_of(opponent@, 101 - to)].pig == Pig::Flag)
                &&& match outcome {
                    None => res.attack is None,
                    Some(o) => res.attack == Some(AttackReport {
                        result: o,
                        init_type: local@[index_of(local@, from as int)].pig,
                        target_type: opponent@[index_of(opponent@, 101 - to)].pig,
                    }),
                }
            },
        },
{
    if from == to || !in_bounds(from as i16) || !in_bounds(to as i16) {
        return Err(MoveError::OutOfBounds);
    }
    let i = match find_piece(local, from) {
        Some(i) => i,
        None => return Err(MoveError::NoPiece),
    };
    proof {
        lemma_index_unique(local@, from as int, i as int);
    }
    if tile_occupied(local, to) {
        return Err(MoveError::FriendlyTarget);
    }
    let initiator = local[i];
    if !initiator.pig.allow_move(from, to) {
        return Err(MoveError::IllegalShape);
    }
    proof {
        assert(locations_le_100(opponent@));
    }
    let opponent_board = flip_board(opponent);
    let total_board = sum_boards(local, &opponent_board);
    if pig_in_path(&total_board, from, to) {
        return Err(MoveError::PathBlocked);
    }
    proof {
        lemma_flip_occupied(opponent@, to as int);
    }
    let mut new_local = copy_board(local);
    match find_piece(&opponent_board, to) {
        None => {
            new_local.set(i, Piece { location: to, ..initiator });
            Ok(MoveResolution { local: new_local, opponent: copy_board(opponent), attack: None, flag_captured: false })
        },
        Some(j) => {
            proof {
                assert(opponent@[j as int].location as int == 101 - to);
                lemma_index_unique(opponent@, 101 - to, j as int);
                assert(opponent_board@[j as int] == flip_piece(opponent@[j as int]));
            }
            let target = opponent_board[j];
            let interaction = attack_outcome(initiator.pig, target.pig);
            let mut new_opponent = copy_board(opponent);
            match interaction {
                InteractionResult::Win => {
                    new_opponent.remove(j);
                    new_local.set(i, Piece { location: to, ..initiator });
                },
                InteractionResult::Tie => {
                    new_opponent.remove(j);
                    new_local.remove(i);
                },
                InteractionResult::Lose => {
                    new_local.remove(i);
                },
            }
            let report = AttackReport { result: interaction, init_type: initiator.pig, target_type: target.pig };
            Ok(MoveResolution {
                local: new_local,
                opponent: new_opponent,
                attack: Some(report),
                flag_captured: target.pig == Pig::Flag,
            })
        },
    }
}

/// The piece at index `i` has a dry, on-board neighbouring tile free of its own side's pieces.
pub open spec fn piece_can_step(own: Seq<Piece>, i: int) -> bool {
    exists|u: int| adjacent_spec(own[i].location as int, u) && !#[trigger] occupied(own, u)
}

/// Some movable piece of `own` can step somewhere.
pub open spec fn has_move_spec(own: Seq<Piece>) -> bool {
    exists|i: int| 0 <= i < own.len() && !immovable_spec(own[i].pig) && #[trigger] piece_can_step(own, i)
}

/// Result of the out-of-moves check: `None` while both sides can move, else the winner
/// (`Tie` when neither can).
pub open spec fn stalemate_spec(one_moves: bool, two_moves: bool) -> Option<PlayerRole> {
    if one_moves && two_moves {
        None
    } else if !one_moves && two_moves {
        Some(PlayerRole::Two)
    } else if one_moves && !two_moves {
        Some(PlayerRole::One)
    } else {
        Some(PlayerRole::Tie)
    }
}

/// Whether some movable piece of `own` has a legal step. Attacks count: a tile held by the
/// opponent is as good as an empty one, so only the side's own pieces block it.
pub fn has_move(own: &Board) -> (r: bool)
    ensures
        r == has_move_spec(own@),
{
    let mut i: usize = 0;
    while i < own.len()
        invariant
            i <= own.len(),
            forall|k: int| 0 <= k < i && !immovable_spec(own@[k].pig) ==> !#[trigger] piece_can_step(own@, k),
        decreases own.len() - i,
    {
        let piece = own[i];
        if !piece.pig.immovable() {
            let adj = get_adjacent(piece.location);
            let mut k: usize = 0;
            while k < adj.len()
                invariant
                    k <= adj.len(),
                    i < own.len(),
                    piece == own@[i as int],
                    !immovable_spec(piece.pig),
                    forall|u: u8| adj@.contains(u) <==> adjacent_spec(piece.location as int, u as int),
                    forall|m: int| 0 <= m < k ==> occupied(own@, adj@[m] as int),
                decreases adj.len() - k,
            {
                if !tile_occupied(own, adj[k]) {
                    proof {
                        assert(adj@.contains(adj@[k as int]));
                        assert(piece_can_step(own@, i as int));
                    }
                    return true;
                }
                k += 1;
            }
            proof {
                assert forall|u: int| adjacent_spec(piece.location as int, u) implies #[trigger] occupied(own@, u) by {
                    assert(adj@.contains(u as u8));
                    let m = choose|m: int| 0 <= m < adj@.len() && adj@[m] == u as u8;
                }
            }
        }
        i += 1;
    }
    false
}

/// The out-of-moves check for the two sides' boards.
pub fn stalemate_winner(one: &Board, two: &Board) -> (r: Option<PlayerRole>)
    ensures
        r == stalemate_spec(has_move_spec(one@), has_move_spec(two@)),
{
    let a = has_move(one);
    let b = has_move(two);
    if a && b {
        None
    } else if !a && b {
        Some(PlayerRole::Two)
    } else if a && !b {
        Some(PlayerRole::One)
    } else {
        Some(PlayerRole::Tie)
    }
}

} // verus!
