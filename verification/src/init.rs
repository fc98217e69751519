//! The precomputed edge-distance table: for every square and direction, how
//! many steps a piece may take before falling off the board.

use vstd::prelude::*;

verus! {

broadcast use vstd::array::group_array_axioms;

/// The smaller of two integers.
pub open spec fn min2(a: int, b: int) -> int {
    if a <= b {
        a
    } else {
        b
    }
}

/// One of the eight ray directions, from the white player's point of view.
#[derive(Clone, Copy, Debug, PartialEq, Eq, Structural)]
pub enum Direction {
    North,
    South,
    East,
    West,
    NorthEast,
    SouthWest,
    NorthWest,
    SouthEast,
}

/// The column of the edge-distance table that stores a direction.
pub open spec fn direction_index(d: Direction) -> int {
    match d {
        Direction::North => 0,
        Direction::South => 1,
        Direction::East => 2,
        Direction::West => 3,
        Direction::NorthEast => 4,
        Direction::SouthWest => 5,
        Direction::NorthWest => 6,
        Direction::SouthEast => 7,
    }
}

/// The change of rank from one step in a direction.
pub open spec fn dir_dr(d: Direction) -> int {
    match d {
        Direction::North => 1,
        Direction::South => -1,
        Direction::East => 0,
        Direction::West => 0,
        Direction::NorthEast => 1,
        Direction::SouthWest => -1,
        Direction::NorthWest => 1,
        Direction::SouthEast => -1,
    }
}

/// The change of file from one step in a direction.
pub open spec fn dir_df(d: Direction) -> int {
    match d {
        Direction::North => 0,
        Direction::South => 0,
        Direction::East => 1,
        Direction::West => -1,
        Direction::NorthEast => 1,
        Direction::SouthWest => -1,
        Direction::NorthWest => -1,
        Direction::SouthEast => 1,
    }
}

/// The index offset of moving one square in a direction: eight indices per
/// rank, one per file.
pub open spec fn spec_offset(d: Direction) -> int {
    8 * dir_dr(d) + dir_df(d)
}

/// The number of squares between square `sq` and the board edge in
/// direction `d`: zero when the square already lies on that edge.
pub open spec fn edge_distance(sq: int, d: Direction) -> int
    recommends
        0 <= sq < 64,
{
    let rank = sq / 8;
    let file = sq % 8;
    match d {
        Direction::North => 7 - rank,
        Direction::South => rank,
        Direction::East => 7 - file,
        Direction::West => file,
        Direction::NorthEast => min2(7 - rank, 7 - file),
        Direction::SouthWest => min2(rank, file),
        Direction::NorthWest => min2(7 - rank, file),
        Direction::SouthEast => min2(rank, 7 - file),
    }
}

/// The edge distance always lies between zero and seven.
pub proof fn lemma_edge_distance_range(sq: int, d: Direction)
    requires
        0 <= sq < 64,
    ensures
        0 <= edge_distance(sq, d) <= 7,
{
}

/// One helper for the per-direction cases of `lemma_ray_target_bounds`:
/// stepping `n` squares with rank change `dr` and file change `df` lands on
/// the square whose rank and file moved accordingly.
proof fn lemma_step_decompose(o: int, n: int, dr: int, df: int)
    requires
        0 <= o < 64,
        0 <= o / 8 + dr * n <= 7,
        0 <= o % 8 + df * n <= 7,
    ensures
        0 <= o + (8 * dr + df) * n < 64,
        (o + (8 * dr + df) * n) / 8 == o / 8 + dr * n,
        (o + (8 * dr + df) * n) % 8 == o % 8 + df * n,
{
    let rank = o / 8;
    let file = o % 8;
    let r2 = rank + dr * n;
    let f2 = file + df * n;
    let t = o + (8 * dr + df) * n;
    assert(t == r2 * 8 + f2) by (nonlinear_arith)
        requires
            o == 8 * rank + file,
            r2 == rank + dr * n,
            f2 == file + df * n,
            t == o + (8 * dr + df) * n,
    ;
    vstd::arithmetic::div_mod::lemma_fundamental_div_mod_converse(t, 8, r2, f2);
}

/// Taking up to `edge_distance(o, d)` steps from `o` in direction `d` stays
/// on the board, never returns to `o`, and moves rank and file linearly.
pub proof fn lemma_ray_target_bounds(o: int, d: Direction, n: int)
    requires
        0 <= o < 64,
        1 <= n <= edge_distance(o, d),
    ensures
        0 <= o + spec_offset(d) * n < 64,
        o + spec_offset(d) * n != o,
        (o + spec_offset(d) * n) / 8 == o / 8 + dir_dr(d) * n,
        (o + spec_offset(d) * n) % 8 == o % 8 + dir_df(d) * n,
{
    match d {
        Direction::North => {
            lemma_step_decompose(o, n, 1, 0);
        },
        Direction::South => {
            lemma_step_decompose(o, n, -1, 0);
        },
        Direction::East => {
            lemma_step_decompose(o, n, 0, 1);
        },
        Direction::West => {
            lemma_step_decompose(o, n, 0, -1);
        },
        Direction::NorthEast => {
            lemma_step_decompose(o, n, 1, 1);
        },
        Direction::SouthWest => {
            lemma_step_decompose(o, n, -1, -1);
        },
        Direction::NorthWest => {
            lemma_step_decompose(o, n, 1, -1);
        },
        Direction::SouthEast => {
            lemma_step_decompose(o, n, -1, 1);
        },
    }
}

impl Direction {
    /// Returns the index offset of moving one square in this direction.
    pub fn offset(self) -> (r: i32)
        ensures
            r == spec_offset(self),
    {
        match self {
            Direction::North => 8,
            Direction::South => -8,
            Direction::East => 1,
            Direction::West => -1,
            Direction::NorthEast => 9,
            Direction::SouthWest => -9,
            Direction::NorthWest => 7,
            Direction::SouthEast => -7,
        }
    }

    /// Returns the column of the edge-distance table that stores this direction.
    pub fn table_index(self) -> (k: usize)
        ensures
            k == direction_index(self),
    {
        match self {
            Direction::North => 0,
            Direction::South => 1,
            Direction::East => 2,
            Direction::West => 3,
            Direction::NorthEast => 4,
            Direction::SouthWest => 5,
            Direction::NorthWest => 6,
            Direction::SouthEast => 7,
        }
    }
}

/// The order in which the move generator walks the eight directions; the
/// first four are the orthogonal ones, the last four the diagonals.
pub open spec fn spec_move_direction(j: int) -> Direction {
    if j == 0 {
        Direction::North
    } else if j == 1 {
        Direction::South
    } else if j == 2 {
        Direction::East
    } else if j == 3 {
        Direction::West
    } else if j == 4 {
        Direction::NorthEast
    } else if j == 5 {
        Direction::SouthEast
    } else if j == 6 {
        Direction::NorthWest
    } else {
        Direction::SouthWest
    }
}

/// Returns the `j`-th direction in the move generator's walking order.
pub fn move_direction(j: usize) -> (d: Direction)
    requires
        j < 8,
    ensures
        d == spec_move_direction(j as int),
{
    match j {
        0 => Direction::North,
        1 => Direction::South,
        2 => Direction::East,
        3 => Direction::West,
        4 => Direction::NorthEast,
        5 => Direction::SouthEast,
        6 => Direction::NorthWest,
        _ => Direction::SouthWest,
    }
}

/// The precomputed table: for each square and each direction, the minimum
/// number of steps to the board edge. Built once and then read-only.
pub struct SquaresToEdge {
    table: [[usize; 8]; 64],
}

impl SquaresToEdge {
    /// Every entry of the table is the matching edge distance.
    #[verifier::type_invariant]
    spec fn inv(self) -> bool {
        forall|sq: int, d: Direction|
            0 <= sq < 64 ==> #[trigger] self.table@[sq]@[direction_index(d)] == edge_distance(
                sq,
                d,
            )
    }

    /// Returns the number of steps square `square` may extend in direction
    /// `direction` before leaving the board.
    pub fn get(&self, square: usize, direction: Direction) -> (r: usize)
        requires
            square < 64,
        ensures
            r == edge_distance(square as int, direction),
    {
        proof {
            use_type_invariant(self);
        }
        self.table[square][direction.table_index()]
    }
}

fn min_usize(a: usize, b: usize) -> (r: usize)
    ensures
        r == min2(a as int, b as int),
{
    if a <= b {
        a
    } else {
        b
    }
}

/// Computes the minimum distance to the edge of the board from each square
/// for every direction.
pub fn compute_squares_to_edge() -> (r: SquaresToEdge) {
    let mut table: [[usize; 8]; 64] = [[0usize; 8]; 64];
    for rank in 0..8
        invariant
            table@.len() == 64,
            forall|sq: int, d: Direction|
                0 <= sq < rank as int * 8 ==> #[trigger] table@[sq]@[direction_index(d)] == edge_distance(
                    sq,
                    d,
                ),
    {
        for file in 0..8
            invariant
                rank < 8,
                table@.len() == 64,
                forall|sq: int, d: Direction|
                    0 <= sq < rank as int * 8 + file as int ==> #[trigger] table@[sq]@[direction_index(d)]
                        == edge_distance(sq, d),
        {
            let n = 7 - rank;
            let s = rank;
            let e = 7 - file;
            let w = file;
            let index = rank * 8 + file;
            let mut row: [usize; 8] = [0usize; 8];
            row[0] = n;
            row[1] = s;
            row[2] = e;
            row[3] = w;
            row[4] = min_usize(n, e);
            row[5] = min_usize(s, w);
            row[6] = min_usize(n, w);
            row[7] = min_usize(s, e);
            table[index] = row;
            proof {
                assert(index as int / 8 == rank && index as int % 8 == file) by (nonlinear_arith)
                    requires
                        index == rank * 8 + file,
                        0 <= rank < 8,
                        0 <= file < 8,
                ;
                assert forall|sq: int, d: Direction|
                    0 <= sq < rank as int * 8 + file as int + 1 implies #[trigger] table@[sq]@[direction_index(
                    d,
                )] == edge_distance(sq, d) by {
                    if sq == index as int {
                        assert(table@[sq]@ =~= row@);
                    }
                }
            }
        }
        proof {
            assert((rank as int + 1) * 8 == rank as int * 8 + 8) by (nonlinear_arith);
        }
    }
    SquaresToEdge { table }
}

} // verus!
