//! The pseudo-legal move generator for sliding pieces.
//!
//! A generated move respects piece movement rays and blocking only; it may
//! still leave the moving side's own king in check.

use vstd::prelude::*;

use crate::board::{Board, Move, Square};
use crate::init::{Direction, SquaresToEdge, compute_squares_to_edge, edge_distance, spec_offset,
    spec_move_direction, move_direction, lemma_ray_target_bounds, lemma_edge_distance_range};
use crate::piece::{Color, Piece};

verus! {

/// The move from square `o` to square `t`.
pub open spec fn mv(o: int, t: int) -> Move {
    Move { origin: Square { index: o as u8 }, target: Square { index: t as u8 } }
}

/// The moves a slider of color `col` standing on `o` can make in direction
/// `d`, starting from step `n`: every empty square extends the ray, an
/// opposite-color piece is captured and ends it, an own-color piece ends it
/// without a move.
pub open spec fn ray_moves(b: Board, o: int, col: Color, d: Direction, n: int) -> Seq<Move>
    recommends
        0 <= o < 64,
        b.wf(),
    decreases edge_distance(o, d) + 1 - n,
{
    if n < 1 || n > edge_distance(o, d) {
        Seq::empty()
    } else {
        let t = o + spec_offset(d) * n;
        match b.mailbox()[t] {
            None => seq![mv(o, t)] + ray_moves(b, o, col, d, n + 1),
            Some(p) => if p.color() != col {
                seq![mv(o, t)]
            } else {
                Seq::empty()
            },
        }
    }
}

/// The range of direction positions a slider walks: a rook the orthogonal
/// four, a bishop the diagonal four, a queen all eight.
pub open spec fn dir_range(p: Piece) -> (int, int)
    recommends
        p.spec_is_slider(),
{
    match p {
        Piece::Bishop(_) => (4int, 8int),
        Piece::Rook(_) => (0int, 4int),
        _ => (0int, 8int),
    }
}

/// The moves a slider `p` standing on `o` can make in the directions at
/// positions `j` up to `hi` of the walking order.
pub open spec fn sliding_from(b: Board, o: int, col: Color, j: int, hi: int) -> Seq<Move>
    decreases hi - j,
{
    if j >= hi {
        Seq::empty()
    } else {
        ray_moves(b, o, col, spec_move_direction(j), 1) + sliding_from(b, o, col, j + 1, hi)
    }
}

/// All moves a slider `p` standing on `o` can make on board `b`.
pub open spec fn sliding_moves(b: Board, o: int, p: Piece) -> Seq<Move>
    recommends
        p.spec_is_slider(),
{
    sliding_from(b, o, p.color(), dir_range(p).0, dir_range(p).1)
}

/// The moves generated for the piece on square `i`, if any: only sliders of
/// the color to move contribute.
pub open spec fn square_moves(b: Board, i: int) -> Seq<Move> {
    match b.mailbox()[i] {
        Some(p) => if p.color() == b.turn() && p.spec_is_slider() {
            sliding_moves(b, i, p)
        } else {
            Seq::empty()
        },
        None => Seq::empty(),
    }
}

/// The moves generated for the squares from `i` up to the end of the board.
pub open spec fn moves_from(b: Board, i: int) -> Seq<Move>
    decreases 64 - i,
{
    if i >= 64 || i < 0 {
        Seq::empty()
    } else {
        square_moves(b, i) + moves_from(b, i + 1)
    }
}

/// Everything `generate_moves` returns: the pseudo-legal sliding moves of
/// the side to move, walked square by square from `a1` to `h8`.
pub open spec fn spec_generated_moves(b: Board) -> Seq<Move> {
    moves_from(b, 0)
}

/// The square reached by taking `m` steps from `o` in direction `d`.
pub open spec fn ray_target(o: int, d: Direction, m: int) -> int {
    o + spec_offset(d) * m
}

/// A ray that runs through empty squares from step `n` up to (excluding)
/// step `k` collects exactly one move per step and then continues from `k`.
proof fn lemma_ray_through_empty(b: Board, o: int, col: Color, d: Direction, n: int, k: int)
    requires
        b.wf(),
        0 <= o < 64,
        1 <= n <= k,
        k <= edge_distance(o, d) + 1,
        forall|m: int| n <= m < k ==> b.mailbox()[#[trigger] ray_target(o, d, m)] is None,
    ensures
        ray_moves(b, o, col, d, n) == Seq::new((k - n) as nat, |idx: int| mv(o, o + spec_offset(d)
            * (n + idx))) + ray_moves(b, o, col, d, k),
    decreases k - n,
{
    if n == k {
        assert(Seq::new(0, |idx: int| mv(o, o + spec_offset(d) * (n + idx))) + ray_moves(
            b,
            o,
            col,
            d,
            k,
        ) =~= ray_moves(b, o, col, d, n));
    } else {
        assert(b.mailbox()[ray_target(o, d, n)] is None);
        lemma_ray_through_empty(b, o, col, d, n + 1, k);
        assert(ray_moves(b, o, col, d, n) == seq![mv(o, o + spec_offset(d) * n)] + ray_moves(
            b,
            o,
            col,
            d,
            n + 1,
        ));
        assert(seq![mv(o, o + spec_offset(d) * n)] + (Seq::new(
            (k - n - 1) as nat,
            |idx: int| mv(o, o + spec_offset(d) * (n + 1 + idx)),
        ) + ray_moves(b, o, col, d, k)) =~= Seq::new(
            (k - n) as nat,
            |idx: int| mv(o, o + spec_offset(d) * (n + idx)),
        ) + ray_moves(b, o, col, d, k));
    }
}

/// On a board that is empty except possibly for the slider itself, a ray
/// yields one move per square between the slider and the board edge.
pub proof fn lemma_ray_on_empty_board(b: Board, o: int, col: Color, d: Direction)
    requires
        b.wf(),
        0 <= o < 64,
        forall|t: int| 0 <= t < 64 && t != o ==> b.mailbox()[t] is None,
    ensures
        ray_moves(b, o, col, d, 1) == Seq::new(edge_distance(o, d) as nat, |idx: int| mv(o, o
            + spec_offset(d) * (1 + idx))),
        ray_moves(b, o, col, d, 1).len() == edge_distance(o, d),
{
    let limit = edge_distance(o, d);
    assert forall|m: int| 1 <= m < limit + 1 implies b.mailbox()[#[trigger] ray_target(
        o,
        d,
        m,
    )] is None by {
        lemma_ray_target_bounds(o, d, m);
    }
    lemma_ray_through_empty(b, o, col, d, 1, limit + 1);
    assert(Seq::new(limit as nat, |idx: int| mv(o, o + spec_offset(d) * (1 + idx))) + ray_moves(
        b,
        o,
        col,
        d,
        limit + 1,
    ) =~= Seq::new(limit as nat, |idx: int| mv(o, o + spec_offset(d) * (1 + idx))));
}

/// On a board that is empty except possibly for the rook itself, the rook's
/// sliding moves number exactly the sum of the four orthogonal edge
/// distances of its square.
pub proof fn lemma_rook_moves_on_empty_board(b: Board, o: int, c: Color)
    requires
        b.wf(),
        0 <= o < 64,
        forall|t: int| 0 <= t < 64 && t != o ==> b.mailbox()[t] is None,
    ensures
        sliding_moves(b, o, Piece::Rook(c)).len() == edge_distance(o, Direction::North)
            + edge_distance(o, Direction::South) + edge_distance(o, Direction::East)
            + edge_distance(o, Direction::West),
{
    lemma_ray_on_empty_board(b, o, c, Direction::North);
    lemma_ray_on_empty_board(b, o, c, Direction::South);
    lemma_ray_on_empty_board(b, o, c, Direction::East);
    lemma_ray_on_empty_board(b, o, c, Direction::West);
    assert(sliding_from(b, o, c, 4, 4) =~= Seq::<Move>::empty());
    assert(sliding_from(b, o, c, 3, 4) == ray_moves(b, o, c, Direction::West, 1) + sliding_from(
        b,
        o,
        c,
        4,
        4,
    ));
    assert(sliding_from(b, o, c, 2, 4) == ray_moves(b, o, c, Direction::East, 1) + sliding_from(
        b,
        o,
        c,
        3,
        4,
    ));
    assert(sliding_from(b, o, c, 1, 4) == ray_moves(b, o, c, Direction::South, 1) + sliding_from(
        b,
        o,
        c,
        2,
        4,
    ));
    assert(sliding_from(b, o, c, 0, 4) == ray_moves(b, o, c, Direction::North, 1) + sliding_from(
        b,
        o,
        c,
        1,
        4,
    ));
}

/// On a board that is empty except possibly for the bishop itself, the
/// bishop's sliding moves number exactly the sum of the four diagonal edge
/// distances of its square.
pub proof fn lemma_bishop_moves_on_empty_board(b: Board, o: int, c: Color)
    requires
        b.wf(),
        0 <= o < 64,
        forall|t: int| 0 <= t < 64 && t != o ==> b.mailbox()[t] is None,
    ensures
        sliding_moves(b, o, Piece::Bishop(c)).len() == edge_distance(o, Direction::NorthEast)
            + edge_distance(o, Direction::SouthEast) + edge_distance(o, Direction::NorthWest)
            + edge_distance(o, Direction::SouthWest),
{
    lemma_ray_on_empty_board(b, o, c, Direction::NorthEast);
    lemma_ray_on_empty_board(b, o, c, Direction::SouthEast);
    lemma_ray_on_empty_board(b, o, c, Direction::NorthWest);
    lemma_ray_on_empty_board(b, o, c, Direction::SouthWest);
    assert(sliding_from(b, o, c, 8, 8) =~= Seq::<Move>::empty());
    assert(sliding_from(b, o, c, 7, 8) == ray_moves(b, o, c, Direction::SouthWest, 1)
        + sliding_from(b, o, c, 8, 8));
    assert(sliding_from(b, o, c, 6, 8) == ray_moves(b, o, c, Direction::NorthWest, 1)
        + sliding_from(b, o, c, 7, 8));
    assert(sliding_from(b, o, c, 5, 8) == ray_moves(b, o, c, Direction::SouthEast, 1)
        + sliding_from(b, o, c, 6, 8));
    assert(sliding_from(b, o, c, 4, 8) == ray_moves(b, o, c, Direction::NorthEast, 1)
        + sliding_from(b, o, c, 5, 8));
}

/// A slider whose ray reaches an opposite-color piece at step `m`, with
/// only empty squares before it, makes exactly `m` moves in that direction:
/// one onto each empty square, one capture onto the blocker's square, and
/// none beyond it.
pub proof fn lemma_ray_stops_at_capture(b: Board, o: int, col: Color, d: Direction, m: int)
    requires
        b.wf(),
        0 <= o < 64,
        1 <= m <= edge_distance(o, d),
        forall|j: int| 1 <= j < m ==> b.mailbox()[#[trigger] ray_target(o, d, j)] is None,
        b.mailbox()[o + spec_offset(d) * m] matches Some(p) && p.color() != col,
    ensures
        ray_moves(b, o, col, d, 1) == Seq::new(m as nat, |idx: int| mv(o, o + spec_offset(d) * (idx
            + 1))),
        ray_moves(b, o, col, d, 1).len() == m,
        ray_moves(b, o, col, d, 1).last() == mv(o, o + spec_offset(d) * m),
{
    lemma_ray_through_empty(b, o, col, d, 1, m);
    assert(ray_moves(b, o, col, d, m) == seq![mv(o, o + spec_offset(d) * m)]);
    assert(Seq::new((m - 1) as nat, |idx: int| mv(o, o + spec_offset(d) * (1 + idx))) + seq![
        mv(o, o + spec_offset(d) * m),
    ] =~= Seq::new(m as nat, |idx: int| mv(o, o + spec_offset(d) * (idx + 1))));
}

/// A slider whose ray reaches a piece of its own color at step `m`, with
/// only empty squares before it, makes exactly `m - 1` moves in that
/// direction: none onto the blocker's square and none beyond it.
pub proof fn lemma_ray_stops_at_own_piece(b: Board, o: int, col: Color, d: Direction, m: int)
    requires
        b.wf(),
        0 <= o < 64,
        1 <= m <= edge_distance(o, d),
        forall|j: int| 1 <= j < m ==> b.mailbox()[#[trigger] ray_target(o, d, j)] is None,
        b.mailbox()[o + spec_offset(d) * m] matches Some(p) && p.color() == col,
    ensures
        ray_moves(b, o, col, d, 1) == Seq::new((m - 1) as nat, |idx: int| mv(o, o + spec_offset(d)
            * (idx + 1))),
        ray_moves(b, o, col, d, 1).len() == m - 1,
{
    lemma_ray_through_empty(b, o, col, d, 1, m);
    assert(ray_moves(b, o, col, d, m) =~= Seq::<Move>::empty());
    assert(Seq::new((m - 1) as nat, |idx: int| mv(o, o + spec_offset(d) * (1 + idx)))
        + Seq::<Move>::empty() =~= Seq::new(
        (m - 1) as nat,
        |idx: int| mv(o, o + spec_offset(d) * (idx + 1)),
    ));
}

proof fn lemma_moves_from_single_slider(b: Board, o: int, p: Piece, i: int)
    requires
        b.wf(),
        0 <= o < 64,
        b.mailbox()[o] == Some(p),
        p.color() == b.turn(),
        p.spec_is_slider(),
        forall|t: int| 0 <= t < 64 && t != o ==> b.mailbox()[t] is None,
        0 <= i <= 64,
    ensures
        moves_from(b, i) == if i <= o {
            sliding_moves(b, o, p)
        } else {
            Seq::<Move>::empty()
        },
    decreases 64 - i,
{
    if i < 64 {
        lemma_moves_from_single_slider(b, o, p, i + 1);
        if i == o {
            assert(square_moves(b, i) + Seq::<Move>::empty() =~= sliding_moves(b, o, p));
        } else {
            assert(square_moves(b, i) =~= Seq::<Move>::empty());
            assert(Seq::<Move>::empty() + moves_from(b, i + 1) =~= moves_from(b, i + 1));
        }
    }
}

/// On a board whose only piece is one slider of the side to move, the
/// generator yields exactly that slider's sliding moves; together with the
/// ray-count laws this pins the move counts of a lone rook or bishop.
pub proof fn lemma_generator_single_slider(b: Board, o: int, p: Piece)
    requires
        b.wf(),
        0 <= o < 64,
        b.mailbox()[o] == Some(p),
        p.color() == b.turn(),
        p.spec_is_slider(),
        forall|t: int| 0 <= t < 64 && t != o ==> b.mailbox()[t] is None,
    ensures
        spec_generated_moves(b) == sliding_moves(b, o, p),
{
    lemma_moves_from_single_slider(b, o, p, 0);
}

/// What a ray guarantees of each move it yields: it starts at `o`, lands on
/// a distinct board square, and that square is empty or held by the enemy
/// of `col`.
pub open spec fn ray_move_shape(b: Board, o: int, col: Color, m: Move) -> bool {
    &&& m.origin.index == o
    &&& m.target.index < 64
    &&& m.target.index != o
    &&& (b.mailbox()[m.target.index as int] matches Some(pt) ==> pt.color() != col)
}

proof fn lemma_ray_moves_shape(b: Board, o: int, col: Color, d: Direction, n: int)
    requires
        b.wf(),
        0 <= o < 64,
        1 <= n,
    ensures
        forall|idx: int|
            0 <= idx < ray_moves(b, o, col, d, n).len() ==> ray_move_shape(
                b,
                o,
                col,
                #[trigger] ray_moves(b, o, col, d, n)[idx],
            ),
    decreases edge_distance(o, d) + 1 - n,
{
    if 1 <= n <= edge_distance(o, d) {
        lemma_ray_target_bounds(o, d, n);
        let t = o + spec_offset(d) * n;
        assert(mv(o, t).origin.index == o && mv(o, t).target.index == t);
        match b.mailbox()[t] {
            None => {
                lemma_ray_moves_shape(b, o, col, d, n + 1);
                assert forall|idx: int| 0 <= idx < ray_moves(b, o, col, d, n).len() implies
                    ray_move_shape(b, o, col, #[trigger] ray_moves(b, o, col, d, n)[idx]) by {
                    if idx > 0 {
                        assert(ray_moves(b, o, col, d, n)[idx] == ray_moves(
                            b,
                            o,
                            col,
                            d,
                            n + 1,
                        )[idx - 1]);
                    }
                }
            },
            Some(_) => {},
        }
    }
}

proof fn lemma_sliding_from_shape(b: Board, o: int, col: Color, j: int, hi: int)
    requires
        b.wf(),
        0 <= o < 64,
        hi <= 8,
    ensures
        forall|idx: int|
            0 <= idx < sliding_from(b, o, col, j, hi).len() ==> ray_move_shape(
                b,
                o,
                col,
                #[trigger] sliding_from(b, o, col, j, hi)[idx],
            ),
    decreases hi - j,
{
    if j < hi {
        lemma_ray_moves_shape(b, o, col, spec_move_direction(j), 1);
        lemma_sliding_from_shape(b, o, col, j + 1, hi);
        let head = ray_moves(b, o, col, spec_move_direction(j), 1);
        let tail = sliding_from(b, o, col, j + 1, hi);
        assert forall|idx: int| 0 <= idx < sliding_from(b, o, col, j, hi).len() implies
            ray_move_shape(b, o, col, #[trigger] sliding_from(b, o, col, j, hi)[idx]) by {
            if idx < head.len() {
                assert(sliding_from(b, o, col, j, hi)[idx] == head[idx]);
            } else {
                assert(sliding_from(b, o, col, j, hi)[idx] == tail[idx - head.len()]);
            }
        }
    }
}

proof fn lemma_moves_from_allowed(b: Board, i: int)
    requires
        b.wf(),
    ensures
        forall|idx: int|
            0 <= idx < moves_from(b, i).len() ==> b.spec_move_allowed(
                #[trigger] moves_from(b, i)[idx],
            ) && moves_from(b, i)[idx].wf(),
    decreases 64 - i,
{
    if 0 <= i < 64 {
        lemma_moves_from_allowed(b, i + 1);
        let head = square_moves(b, i);
        let tail = moves_from(b, i + 1);
        if let Some(p) = b.mailbox()[i] {
            if p.color() == b.turn() && p.spec_is_slider() {
                lemma_sliding_from_shape(b, i, p.color(), dir_range(p).0, dir_range(p).1);
            }
        }
        assert forall|idx: int| 0 <= idx < moves_from(b, i).len() implies b.spec_move_allowed(
            #[trigger] moves_from(b, i)[idx],
        ) && moves_from(b, i)[idx].wf() by {
            if idx < head.len() {
                assert(moves_from(b, i)[idx] == head[idx]);
            } else {
                assert(moves_from(b, i)[idx] == tail[idx - head.len()]);
            }
        }
    }
}

/// Every move the generator yields is accepted by `make_move`: its origin
/// holds the moving slider, and its target square is empty or an
/// opposite-color piece. The moves are pseudo-legal only: nothing here says
/// the mover's own king is safe afterwards.
pub proof fn lemma_generated_moves_are_allowed(b: Board)
    requires
        b.wf(),
    ensures
        forall|idx: int|
            0 <= idx < spec_generated_moves(b).len() ==> b.spec_move_allowed(
                #[trigger] spec_generated_moves(b)[idx],
            ) && spec_generated_moves(b)[idx].wf(),
{
    lemma_moves_from_allowed(b, 0);
}

/// A naive, table-driven move generator. It holds only the immutable
/// edge-distance table, built at construction.
pub struct Naive {
    squares_to_edge: SquaresToEdge,
}

impl Naive {
    /// Builds the generator, computing the edge-distance table once.
    pub fn new() -> (g: Self) {
        Naive { squares_to_edge: compute_squares_to_edge() }
    }

    /// Appends to `moves` every pseudo-legal move of the slider `piece_o`
    /// standing on square `index_o`: each direction's ray extends over empty
    /// squares until it captures an opposite-color piece, is blocked by an
    /// own-color piece, or reaches the board edge.
    pub fn generate_sliding_moves(
        &self,
        board: &Board,
        index_o: usize,
        piece_o: Piece,
        moves: &mut Vec<Move>,
    )
        requires
            board.wf(),
            index_o < 64,
            piece_o.spec_is_slider(),
        ensures
            final(moves)@ == old(moves)@ + sliding_moves(*board, index_o as int, piece_o),
    {
        let ghost o = index_o as int;
        let color_o = piece_o.get_color();
        let (lo, hi): (usize, usize) = match piece_o {
            Piece::Bishop(_) => (4, 8),
            Piece::Rook(_) => (0, 4),
            Piece::Queen(_) => (0, 8),
            _ => {
                proof {
                    assert(false);
                }
                (0, 0)
            },
        };
        let ghost total = old(moves)@;
        for j in lo..hi
            invariant
                board.wf(),
                index_o < 64,
                o == index_o as int,
                color_o == piece_o.color(),
                piece_o.spec_is_slider(),
                lo == dir_range(piece_o).0,
                hi == dir_range(piece_o).1,
                hi <= 8,
                total + sliding_from(*board, o, color_o, lo as int, hi as int) == moves@
                    + sliding_from(*board, o, color_o, j as int, hi as int),
        {
            let direction = move_direction(j);
            let dist = self.squares_to_edge.get(index_o, direction);
            let off = direction.offset();
            let ghost base = moves@;
            let ghost mut emitted: Seq<Move> = Seq::empty();
            let mut n: usize = 1;
            let mut open = true;
            proof {
                assert(base + emitted =~= base);
            }
            while open && n <= dist
                invariant
                    board.wf(),
                    index_o < 64,
                    o == index_o as int,
                    color_o == piece_o.color(),
                    dist == edge_distance(o, direction),
                    off == spec_offset(direction),
                    1 <= n <= dist + 1,
                    moves@ == base + emitted,
                    open ==> ray_moves(*board, o, color_o, direction, 1) == emitted + ray_moves(
                        *board,
                        o,
                        color_o,
                        direction,
                        n as int,
                    ),
                    !open ==> ray_moves(*board, o, color_o, direction, 1) == emitted,
                decreases dist + 1 - n + (if open {
                    1int
                } else {
                    0int
                }),
            {
                proof {
                    lemma_ray_target_bounds(o, direction, n as int);
                    lemma_edge_distance_range(o, direction);
                }
                let target_signed: i32 = index_o as i32 + off * (n as i32);
                let target = target_signed as usize;
                let ghost t = o + spec_offset(direction) * (n as int);
                let ghost ray_here = ray_moves(*board, o, color_o, direction, n as int);
                match board.at(target) {
                    Some(piece_t) => {
                        if color_o != piece_t.get_color() {
                            // A capture: emit the move, then stop extending
                            // in this direction.
                            let m = Move::from_indices(index_o, target);
                            proof {
                                assert(m == mv(o, t));
                            }
                            moves.push(m);
                            proof {
                                assert(ray_here =~= seq![mv(o, t)]);
                                assert(base + emitted.push(mv(o, t)) =~= (base + emitted).push(
                                    mv(o, t),
                                ));
                                assert(emitted + ray_here =~= emitted.push(mv(o, t)));
                                emitted = emitted.push(mv(o, t));
                            }
                        } else {
                            proof {
                                assert(ray_here =~= Seq::<Move>::empty());
                                assert(emitted + ray_here =~= emitted);
                            }
                        }
                        open = false;
                    },
                    None => {
                        let m = Move::from_indices(index_o, target);
                        proof {
                            assert(m == mv(o, t));
                        }
                        moves.push(m);
                        proof {
                            let rest = ray_moves(*board, o, color_o, direction, n as int + 1);
                            assert(ray_here == seq![mv(o, t)] + rest);
                            assert(base + emitted.push(mv(o, t)) =~= (base + emitted).push(
                                mv(o, t),
                            ));
                            assert(emitted + ray_here =~= emitted.push(mv(o, t)) + rest);
                            emitted = emitted.push(mv(o, t));
                        }
                        n = n + 1;
                    },
                }
            }
            proof {
                if open {
                    assert(ray_moves(*board, o, color_o, direction, n as int)
                        =~= Seq::<Move>::empty());
                    assert(emitted + ray_moves(*board, o, color_o, direction, n as int)
                        =~= emitted);
                }
                assert(moves@ == base + ray_moves(*board, o, color_o, direction, 1));
                assert(sliding_from(*board, o, color_o, j as int, hi as int) == ray_moves(
                    *board,
                    o,
                    color_o,
                    spec_move_direction(j as int),
                    1,
                ) + sliding_from(*board, o, color_o, j as int + 1, hi as int));
                assert(base + (ray_moves(*board, o, color_o, direction, 1) + sliding_from(
                    *board,
                    o,
                    color_o,
                    j as int + 1,
                    hi as int,
                )) =~= (base + ray_moves(*board, o, color_o, direction, 1)) + sliding_from(
                    *board,
                    o,
                    color_o,
                    j as int + 1,
                    hi as int,
                ));
            }
        }
        proof {
            assert(sliding_from(*board, o, color_o, hi as int, hi as int)
                =~= Seq::<Move>::empty());
            assert(moves@ + sliding_from(*board, o, color_o, hi as int, hi as int) =~= moves@);
            assert(total + sliding_moves(*board, o, piece_o) =~= total + sliding_from(
                *board,
                o,
                color_o,
                lo as int,
                hi as int,
            ));
        }
    }

    /// Generates the pseudo-legal moves for the side to move of the current
    /// board position: every slider of that color contributes its sliding
    /// moves, square by square; pawn, knight and king generation are
    /// extension points that contribute nothing here.
    pub fn generate_moves(&self, board: &Board) -> (moves: Vec<Move>)
        requires
            board.wf(),
        ensures
            moves@ == spec_generated_moves(*board),
    {
        let mut moves: Vec<Move> = Vec::new();
        for index in 0..64
            invariant
                board.wf(),
                moves@ + moves_from(*board, index as int) == spec_generated_moves(*board),
        {
            let ghost before = moves@;
            if let Some(piece) = board.at(index) {
                if piece.get_color() == board.color_to_move() {
                    if piece.is_slider() {
                        self.generate_sliding_moves(board, index, piece, &mut moves);
                    } else {
                        match piece {
                            Piece::Pawn(_) => {},
                            Piece::Knight(_) => {},
                            Piece::King(_) => {},
                            _ => {
                                proof {
                                    assert(false);
                                }
                            },
                        }
                    }
                }
            }
            proof {
                assert(moves@ == before + square_moves(*board, index as int));
                assert(moves_from(*board, index as int) == square_moves(*board, index as int)
                    + moves_from(*board, index as int + 1));
                assert(before + (square_moves(*board, index as int) + moves_from(
                    *board,
                    index as int + 1,
                )) =~= (before + square_moves(*board, index as int)) + moves_from(
                    *board,
                    index as int + 1,
                ));
            }
        }
        proof {
            assert(moves_from(*board, 64) =~= Seq::<Move>::empty());
            assert(moves@ + moves_from(*board, 64) =~= moves@);
        }
        moves
    }
}

} // verus!
