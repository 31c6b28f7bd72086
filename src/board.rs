//! The board kernel: tile geometry, water, adjacency, scout slides and board flips.

use vstd::prelude::*;

use crate::pig::Pig;

verus! {

pub const BOTTOM_LEFT_TILE: u8 = 1;

pub const TOP_RIGHT_TILE: u8 = 100;

pub const STARTING_TERRITORY_VALUE: u8 = 40;

/// The impassable tiles.
pub open spec fn is_water(t: int) -> bool {
    t == 43 || t == 44 || t == 47 || t == 48 || t == 53 || t == 54 || t == 57 || t == 58
}

pub open spec fn in_bounds_spec(t: int) -> bool {
    1 <= t <= 100
}

pub open spec fn row_of(t: int) -> int {
    (t - 1) / 10
}

pub open spec fn column_of(t: int) -> int {
    t - 10 * row_of(t)
}

/// `u` is one orthogonal step from `t`, on the board and dry; a step never wraps from
/// one edge column to the other.
pub open spec fn adjacent_spec(t: int, u: int) -> bool {
    &&& in_bounds_spec(u)
    &&& !is_water(u)
    &&& {
        ||| (u == t + 1 && t % 10 != 0)
        ||| (u == t - 1 && (t - 1) % 10 != 0)
        ||| u == t + 10
        ||| u == t - 10
    }
}

/// A slide to the right; it is tested from the starting tile itself.
pub open spec fn slide_right(t: int, u: int) -> bool {
    t < u <= t + (10 - column_of(t)) && forall|k: int| t <= k <= u ==> !#[trigger] is_water(k)
}

pub open spec fn slide_left(t: int, u: int) -> bool {
    t - (column_of(t) - 1) <= u < t && forall|k: int| u <= k < t ==> !#[trigger] is_water(k)
}

/// No water on the first `j` tiles above `t`.
pub open spec fn clear_up(t: int, j: int) -> bool {
    forall|i: int| 1 <= i <= j ==> !#[trigger] is_water(t + 10 * i)
}

/// No water on the first `j` tiles below `t`.
pub open spec fn clear_down(t: int, j: int) -> bool {
    forall|i: int| 1 <= i <= j ==> !#[trigger] is_water(t - 10 * i)
}

pub open spec fn slide_up(t: int, u: int) -> bool {
    exists|j: int| #[trigger] clear_up(t, j) && 1 <= j && u == t + 10 * j && u <= 100
}

pub open spec fn slide_down(t: int, u: int) -> bool {
    exists|j: int| #[trigger] clear_down(t, j) && 1 <= j && u == t - 10 * j && u >= 1
}

/// Tiles a scout on `t` reaches by sliding along its row or column, stopping before water.
pub open spec fn scout_spec(t: int, u: int) -> bool {
    slide_right(t, u) || slide_left(t, u) || slide_up(t, u) || slide_down(t, u)
}

/// A piece on the board: its kind, its tile, and the tile it was placed on.
#[derive(Clone, Copy, Debug, PartialEq, Eq, Structural)]
pub struct Piece {
    pub pig: Pig,
    pub location: u8,
    pub id: u8,
}

impl Piece {
    pub fn new(pig: Pig, location: u8) -> (r: Self)
        ensures
            r == (Piece { pig, location, id: location }),
    {
        Piece { pig, location, id: location }
    }

    pub fn move_to(&mut self, location: u8)
        ensures
            *final(self) == (Piece { location, ..*old(self) }),
    {
        self.location = location;
    }
}

pub type Board = Vec<Piece>;

/// Some piece of `b` stands on `t`.
pub open spec fn occupied(b: Seq<Piece>, t: int) -> bool {
    exists|i: int| 0 <= i < b.len() && b[i].location as int == t
}

/// At most one piece per tile.
pub open spec fn unique_tiles(b: Seq<Piece>) -> bool {
    forall|i: int, j: int|
        0 <= i < b.len() && 0 <= j < b.len() && i != j ==> b[i].location != b[j].location
}

/// Every piece is on a dry tile of the board, one per tile.
pub open spec fn board_wf(b: Seq<Piece>) -> bool {
    &&& unique_tiles(b)
    &&& forall|i: int|
        0 <= i < b.len() ==> in_bounds_spec(#[trigger] b[i].location as int) && !is_water(
            b[i].location as int,
        )
}

pub open spec fn flip_spec(t: int) -> int {
    101 - t
}

pub open spec fn flip_piece(p: Piece) -> Piece {
    Piece { location: (101 - p.location) as u8, ..p }
}

pub open spec fn flip_board_spec(b: Seq<Piece>) -> Seq<Piece> {
    b.map_values(|p: Piece| flip_piece(p))
}

pub fn is_water_tile(t: u8) -> (r: bool)
    ensures
        r == is_water(t as int),
{
    t == 43 || t == 44 || t == 47 || t == 48 || t == 53 || t == 54 || t == 57 || t == 58
}

pub fn in_bounds(pos: i16) -> (r: bool)
    ensures
        r == in_bounds_spec(pos as int),
{
    pos >= BOTTOM_LEFT_TILE as i16 && pos <= TOP_RIGHT_TILE as i16
}

/// The host's starting territory, the bottom four rows.
pub fn in_starting_bounds(pos: i16) -> (r: bool)
    ensures
        r == (1 <= pos <= 40),
{
    pos >= BOTTOM_LEFT_TILE as i16 && pos <= STARTING_TERRITORY_VALUE as i16
}

pub proof fn lemma_push_unique<T>(s: Seq<T>, v: T)
    requires
        s.no_duplicates(),
        !s.contains(v),
    ensures
        s.push(v).no_duplicates(),
{
    assert forall|i: int, j: int|
        0 <= i < s.push(v).len() && 0 <= j < s.push(v).len() && i != j implies s.push(v)[i]
        != s.push(v)[j] by {
        if i == s.len() {
            assert(s.contains(s[j]));
        } else if j == s.len() {
            assert(s.contains(s[i]));
        }
    }
}

/// Tiles one orthogonal step from `pos`, without water, off-board tiles or wrap-around.
pub fn get_adjacent(pos: u8) -> (r: Vec<u8>)
    ensures
        forall|u: u8| #[trigger] r@.contains(u) <==> adjacent_spec(pos as int, u as int),
        r@.no_duplicates(),
{
    let mut result: Vec<u8> = Vec::new();
    let ghost t = pos as int;
    let ghost s0 = result@;
    if pos % 10 != 0 && pos < 100 && !is_water_tile(pos + 1) {
        proof {
            lemma_push_unique(result@, (pos + 1) as u8);
            lemma_push_contains(result@, (pos + 1) as u8);
        }
        result.push(pos + 1);
    }
    let ghost s1 = result@;
    assert(forall|u: u8| #[trigger] s1.contains(u) <==> (adjacent_spec(t, u as int) && u as int == t + 1));
    assert(pos >= 1 ==> ((pos - 1) % 10) as int == (t - 1) % 10);
    if pos >= 2 && pos <= 101 && (pos - 1) % 10 != 0 && !is_water_tile(pos - 1) {
        proof {
            lemma_push_unique(result@, (pos - 1) as u8);
            lemma_push_contains(result@, (pos - 1) as u8);
        }
        result.push(pos - 1);
    }
    let ghost s2 = result@;
    assert forall|u: u8|
        #[trigger] s2.contains(u) <==> (adjacent_spec(t, u as int) && (u as int == t + 1 || u as int
            == t - 1)) by {
        if u as int == t - 1 && adjacent_spec(t, u as int) {
            assert(pos >= 2);
            assert((pos - 1) % 10 != 0);
            assert(!is_water(pos - 1));
            assert(s2 == s1.push(u));
        }
    }
    if pos <= 90 && !is_water_tile(pos + 10) {
        proof {
            lemma_push_unique(result@, (pos + 10) as u8);
            lemma_push_contains(result@, (pos + 10) as u8);
        }
        result.push(pos + 10);
    }
    let ghost s3 = result@;
    assert(forall|u: u8|
        #[trigger] s3.contains(u) <==> (adjacent_spec(t, u as int) && (u as int == t + 1 || u as int == t - 1
            || u as int == t + 10)));
    if pos >= 11 && pos <= 110 && !is_water_tile(pos - 10) {
        proof {
            lemma_push_unique(result@, (pos - 10) as u8);
            lemma_push_contains(result@, (pos - 10) as u8);
        }
        result.push(pos - 10);
    }
    result
}

/// Column 1 to 10 of a tile (a multiple of ten is in column 10).
pub fn get_column(pos: u8) -> (r: u8)
    ensures
        r == (if pos % 10 != 0 {
            pos % 10
        } else {
            10
        }),
        pos >= 1 ==> r as int == column_of(pos as int),
{
    let c = pos % 10;
    if c != 0 {
        c
    } else {
        10
    }
}

pub fn flip_tile(pos: u8) -> (r: u8)
    requires
        pos <= 100,
    ensures
        r as int == flip_spec(pos as int),
{
    100 - pos + 1
}

pub proof fn lemma_push_contains<T>(s: Seq<T>, v: T)
    ensures
        forall|x: T| #[trigger] s.push(v).contains(x) <==> (s.contains(x) || x == v),
{
    assert forall|x: T| #[trigger] s.push(v).contains(x) <==> (s.contains(x) || x == v) by {
        if s.contains(x) {
            let k = choose|k: int| 0 <= k < s.len() && s[k] == x;
            assert(s.push(v)[k] == x);
        }
        if x == v {
            assert(s.push(v)[s.len() as int] == x);
        }
        if s.push(v).contains(x) {
            let k = choose|k: int| 0 <= k < s.push(v).len() && s.push(v)[k] == x;
            if k < s.len() {
                assert(s[k] == x);
            }
        }
    }
}

/// Tiles a scout on `pos` reaches by sliding in the four directions, stopping before water.
/// Occupancy is not considered here.
pub fn get_scout(pos: u8) -> (r: Vec<u8>)
    requires
        1 <= pos <= 100,
    ensures
        forall|u: u8| #[trigger] r@.contains(u) <==> scout_spec(pos as int, u as int),
        r@.no_duplicates(),
{
    let row: u8 = (pos - 1) / 10;
    let column = get_column(pos);
    assert(pos == row * 10 + column);
    assert(column_of(pos as int) == column as int);
    let mut result: Vec<u8> = Vec::new();
    // right, tested from the starting tile itself
    let mut j: u8 = 1;
    let mut stop = is_water_tile(pos);
    while !stop && j <= 10 - column
        invariant
            1 <= column <= 10,
            row <= 9,
            pos == row * 10 + column,
            1 <= j <= 11 - column,
            stop ==> (is_water(pos + j) || is_water(pos as int)),
            !stop ==> !is_water(pos as int),
            j > 1 ==> !is_water(pos as int),
            forall|k: int| pos < k < pos + j ==> !#[trigger] is_water(k),
            result@.no_duplicates(),
            forall|u: u8| #[trigger] result@.contains(u) <==> pos < u < pos + j,
        decreases 11 - column - j + (if stop { 0int } else { 1int }),
    {
        let val = pos + j;
        if is_water_tile(val) {
            stop = true;
        } else {
            proof {
                lemma_push_unique(result@, val);
                lemma_push_contains(result@, val);
            }
            result.push(val);
            j += 1;
        }
    }
    assert forall|u: u8| #[trigger] result@.contains(u) <==> slide_right(pos as int, u as int) by {
        if slide_right(pos as int, u as int) && u >= pos + j {
            assert(!is_water(pos as int));
            if stop {
                assert(!is_water(pos + j));
            }
        }
        if result@.contains(u) {
            assert(!is_water(pos as int)) by {
                assert(pos < u < pos + j);
            }
        }
    }
    // left
    let mut j: u8 = 1;
    let mut stop = false;
    while !stop && j < column
        invariant
            1 <= column <= 10,
            row <= 9,
            pos == row * 10 + column,
            1 <= j <= column,
            column_of(pos as int) == column as int,
            stop ==> is_water(pos - j),
            forall|k: int| pos - j < k < pos ==> !#[trigger] is_water(k),
            result@.no_duplicates(),
            forall|u: u8|
                #[trigger] result@.contains(u) <==> (slide_right(pos as int, u as int) || pos - j < u < pos),
        decreases column - j + (if stop { 0int } else { 1int }),
    {
        let val = pos - j;
        if is_water_tile(val) {
            stop = true;
        } else {
            proof {
                assert(!slide_right(pos as int, val as int));
                assert(!result@.contains(val));
                lemma_push_unique(result@, val);
                lemma_push_contains(result@, val);
            }
            result.push(val);
            j += 1;
        }
    }
    assert forall|u: u8| #[trigger] result@.contains(u) implies (slide_right(pos as int, u as int)
        || slide_left(pos as int, u as int)) by {
        if !slide_right(pos as int, u as int) {
            assert(pos - j < u < pos);
            assert(u >= pos - (column_of(pos as int) - 1));
        }
    }
    assert forall|u: u8| slide_left(pos as int, u as int) implies #[trigger] result@.contains(u) by {
        assert(u < pos);
        if u <= pos - j {
            if stop {
                assert(u <= pos - j < pos);
                assert(!is_water(pos - j));
                assert(false);
            } else {
                assert(j == column);
                assert(u >= pos - (column_of(pos as int) - 1));
                assert(false);
            }
        }
        assert(pos - j < u < pos);
    }
    // up
    let mut j: u8 = 1;
    let mut stop = false;
    while !stop && row + j <= 9
        invariant
            1 <= column <= 10,
            row <= 9,
            pos == row * 10 + column,
            1 <= j <= 10 - row,
            stop ==> is_water(pos + 10 * j),
            clear_up(pos as int, j - 1),
            result@.no_duplicates(),
            forall|u: u8|
                #[trigger] result@.contains(u) <==> (slide_right(pos as int, u as int) || slide_left(
                    pos as int,
                    u as int,
                ) || (slide_up(pos as int, u as int) && u < pos + 10 * j)),
        decreases 10 - row - j + (if stop { 0int } else { 1int }),
    {
        let val = pos + 10 * j;
        if is_water_tile(val) {
            stop = true;
        } else {
            proof {
                assert(!slide_right(pos as int, val as int));
                assert(!slide_left(pos as int, val as int));
                lemma_push_unique(result@, val);
                lemma_push_contains(result@, val);
                assert(clear_up(pos as int, j as int));
            }
            result.push(val);
            j += 1;
        }
    }
    assert forall|u: u8| slide_up(pos as int, u as int) implies u < pos + 10 * j by {
        let i = choose|i: int| #[trigger] clear_up(pos as int, i) && 1 <= i && u == pos + 10 * i && u <= 100;
        if i >= j && stop {
            assert(!is_water(pos + 10 * j));
        }
    }
    // down
    let mut j: u8 = 1;
    let mut stop = false;
    while !stop && j <= row
        invariant
            1 <= column <= 10,
            row <= 9,
            pos == row * 10 + column,
            1 <= j <= row + 1,
            stop ==> is_water(pos - 10 * j),
            clear_down(pos as int, j - 1),
            result@.no_duplicates(),
            forall|u: u8|
                #[trigger] result@.contains(u) <==> (slide_right(pos as int, u as int) || slide_left(
                    pos as int,
                    u as int,
                ) || slide_up(pos as int, u as int) || (slide_down(pos as int, u as int) && u
                    > pos - 10 * j)),
        decreases row + 1 - j + (if stop { 0int } else { 1int }),
    {
        let val = pos - 10 * j;
        if is_water_tile(val) {
            stop = true;
        } else {
            proof {
                assert(!slide_right(pos as int, val as int));
                assert(!slide_left(pos as int, val as int));
                assert(!slide_up(pos as int, val as int));
                lemma_push_unique(result@, val);
                lemma_push_contains(result@, val);
                assert(clear_down(pos as int, j as int));
            }
            result.push(val);
            j += 1;
        }
    }
    assert forall|u: u8| slide_down(pos as int, u as int) implies u > pos - 10 * j by {
        let i = choose|i: int| #[trigger] clear_down(pos as int, i) && 1 <= i && u == pos - 10 * i && u >= 1;
        if i >= j && stop {
            assert(!is_water(pos - 10 * j));
        }
    }
    result
}

/// Tiles strictly between `from` and `to` on their common row or column; a move that
/// shares neither has none.
pub open spec fn between_spec(from: int, to: int, k: int) -> bool {
    let lo = if from < to { from } else { to };
    let hi = if from < to { to } else { from };
    if row_of(from) == row_of(to) {
        lo < k < hi
    } else if (hi - lo) % 10 == 0 {
        lo < k < hi && (k - lo) % 10 == 0
    } else {
        false
    }
}

/// Some piece of `b` stands strictly between `from` and `to`.
pub open spec fn blocked_spec(b: Seq<Piece>, from: int, to: int) -> bool {
    exists|i: int| 0 <= i < b.len() && between_spec(from, to, #[trigger] b[i].location as int)
}

/// All pieces of `b` stand on tiles numbered at most 100.
pub open spec fn locations_le_100(b: Seq<Piece>) -> bool {
    forall|i: int| 0 <= i < b.len() ==> #[trigger] b[i].location <= 100
}

/// Whether some piece of `board` stands on `t`.
pub fn tile_occupied(board: &Board, t: u8) -> (r: bool)
    ensures
        r == occupied(board@, t as int),
{
    let mut i: usize = 0;
    while i < board.len()
        invariant
            i <= board.len(),
            forall|k: int| 0 <= k < i ==> board@[k].location != t,
        decreases board.len() - i,
    {
        if board[i].location == t {
            return true;
        }
        i += 1;
    }
    false
}

/// The index of the piece on `t`, if any.
pub fn find_piece(board: &Board, t: u8) -> (r: Option<usize>)
    ensures
        r is Some <==> occupied(board@, t as int),
        r matches Some(i) ==> i < board.len() && board@[i as int].location == t,
{
    let mut i: usize = 0;
    while i < board.len()
        invariant
            i <= board.len(),
            forall|k: int| 0 <= k < i ==> board@[k].location != t,
        decreases board.len() - i,
    {
        if board[i].location == t {
            return Some(i);
        }
        i += 1;
    }
    None
}

/// The same pieces seen from the other side of the board.
pub fn flip_board(board: &Board) -> (r: Board)
    requires
        locations_le_100(board@),
    ensures
        r@ == flip_board_spec(board@),
{
    let mut result: Board = Vec::new();
    let mut i: usize = 0;
    while i < board.len()
        invariant
            i <= board.len(),
            locations_le_100(board@),
            result@ == flip_board_spec(board@.subrange(0, i as int)),
        decreases board.len() - i,
    {
        let p = board[i];
        let flipped = Piece { location: flip_tile(p.location), ..p };
        result.push(flipped);
        i += 1;
        assert(board@.subrange(0, i as int) == board@.subrange(0, i - 1).push(p));
        assert(result@ =~= flip_board_spec(board@.subrange(0, i as int)));
    }
    assert(board@.subrange(0, board.len() as int) == board@);
    result
}

/// Both boards as one sequence, `local` first.
pub fn sum_boards(local: &Board, opp: &Board) -> (r: Board)
    ensures
        r@ == local@ + opp@,
{
    let mut result: Board = Vec::new();
    let mut i: usize = 0;
    while i < local.len()
        invariant
            i <= local.len(),
            result@ == local@.subrange(0, i as int),
        decreases local.len() - i,
    {
        result.push(local[i]);
        i += 1;
        assert(result@ =~= local@.subrange(0, i as int));
    }
    let mut i: usize = 0;
    while i < opp.len()
        invariant
            i <= opp.len(),
            result@ == local@ + opp@.subrange(0, i as int),
        decreases opp.len() - i,
    {
        result.push(opp[i]);
        i += 1;
        assert(result@ =~= local@ + opp@.subrange(0, i as int));
    }
    assert(opp@.subrange(0, opp.len() as int) == opp@);
    result
}

/// Whether a piece of `total_board` stands strictly between `from` and `to`.
pub fn pig_in_path(total_board: &Board, from: u8, to: u8) -> (r: bool)
    requires
        1 <= from <= 100,
        1 <= to <= 100,
    ensures
        r == blocked_spec(total_board@, from as int, to as int),
{
    let lo = if from < to { from } else { to };
    let hi = if from < to { to } else { from };
    let row_from = (from - 1) / 10;
    let row_to = (to - 1) / 10;
    if row_from == row_to {
        let mut k: u8 = lo + 1;
        while k < hi
            invariant
                lo < k <= hi || (k == lo + 1 && k > hi),
                lo == (if from < to { from } else { to }),
                hi == (if from < to { to } else { from }),
                row_of(from as int) == row_of(to as int),
                hi <= 100,
                forall|m: int| lo < m < k ==> !occupied(total_board@, m),
            decreases hi - k,
        {
            if tile_occupied(total_board, k) {
                proof {
                    let i = choose|i: int|
                        0 <= i < total_board@.len() && total_board@[i].location as int == k;
                    assert(between_spec(from as int, to as int, total_board@[i].location as int));
                }
                return true;
            }
            k += 1;
        }
        proof {
            assert forall|i: int| 0 <= i < total_board@.len() implies !between_spec(
                from as int,
                to as int,
                #[trigger] total_board@[i].location as int,
            ) by {
                let m = total_board@[i].location as int;
                if lo < m < hi {
                    assert(occupied(total_board@, m));
                }
            }
        }
        false
    } else if (hi - lo) % 10 == 0 {
        let mut k: u8 = lo + 10;
        while k < hi
            invariant
                lo < k <= hi,
                lo == (if from < to { from } else { to }),
                hi == (if from < to { to } else { from }),
                row_of(from as int) != row_of(to as int),
                (hi - lo) % 10 == 0,
                (k - lo) % 10 == 0,
                hi <= 100,
                forall|m: int| lo < m < k && (m - lo) % 10 == 0 ==> !occupied(total_board@, m),
            decreases hi - k,
        {
            if tile_occupied(total_board, k) {
                proof {
                    let i = choose|i: int|
                        0 <= i < total_board@.len() && total_board@[i].location as int == k;
                    assert(between_spec(from as int, to as int, total_board@[i].location as int));
                }
                return true;
            }
            k += 10;
        }
        proof {
            assert forall|i: int| 0 <= i < total_board@.len() implies !between_spec(
                from as int,
                to as int,
                #[trigger] total_board@[i].location as int,
            ) by {
                let m = total_board@[i].location as int;
                if lo < m < hi && (m - lo) % 10 == 0 {
                    assert(occupied(total_board@, m));
                }
            }
        }
        false
    } else {
        false
    }
}

/// A step never leaves the board nor lands on water, and never wraps between the two
/// edge columns.
pub proof fn lemma_adjacent_sound(t: int, u: int)
    requires
        in_bounds_spec(t),
        adjacent_spec(t, u),
    ensures
        in_bounds_spec(u),
        !is_water(u),
        column_of(t) == 1 ==> column_of(u) != 10,
        column_of(t) == 10 ==> column_of(u) != 1,
        column_of(t) == 1 || column_of(t) == 10 ==> column_of(u) == column_of(t) || (column_of(u)
            - column_of(t) == 1 || column_of(t) - column_of(u) == 1),
{
}

/// Flipping a tile twice gives it back.
pub proof fn lemma_flip_tile_involutive(t: int)
    ensures
        flip_spec(flip_spec(t)) == t,
{
}

/// Flipping a board twice gives it back.
pub proof fn lemma_flip_board_involutive(b: Seq<Piece>)
    requires
        locations_le_100(b),
    ensures
        flip_board_spec(flip_board_spec(b)) == b,
{
    assert(flip_board_spec(flip_board_spec(b)) =~= b);
}

/// A scout never reaches its own tile nor a water tile.
pub proof fn lemma_scout_reach_sound(t: int, u: int)
    requires
        scout_spec(t, u),
    ensures
        u != t,
        !is_water(u),
{
    if slide_up(t, u) {
        let j = choose|j: int| #[trigger] clear_up(t, j) && 1 <= j && u == t + 10 * j && u <= 100;
        assert(!is_water(t + 10 * j));
    } else if slide_down(t, u) {
        let j = choose|j: int| #[trigger] clear_down(t, j) && 1 <= j && u == t - 10 * j && u >= 1;
        assert(!is_water(t - 10 * j));
    } else if slide_right(t, u) {
        assert(!is_water(u));
    } else {
        assert(!is_water(u));
    }
}

} // verus!
