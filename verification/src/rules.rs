//! The rules of the game, stated mathematically.
//!
//! `Model` is the ghost image of a game state: a flat sequence of cells on a
//! grid of fixed capacity, the active variant and its edge length, the side
//! to move, the cached king position, the move counter and the optional
//! terminal result.  Every contract of the executable engine speaks of this
//! model through the spec functions below: well-formedness, move legality,
//! capture resolution and the full effect of one accepted move (`step`).

use vstd::prelude::*;

verus! {

/// Edge length of the Copenhagen board.
pub const COPENHAGEN_SIZE: usize = 11;

/// Edge length of the Brandubh board.
pub const BRANDUBH_SIZE: usize = 7;

/// Capacity of the grid: the largest supported edge length.
pub const MAX_BOARD_SIZE: usize = 11;

/// A supported rule set; fixes the board edge length and the starting layout.
#[derive(Debug, Clone, Copy, PartialEq, Eq, Structural)]
pub enum Variant {
    Copenhagen,
    Brandubh,
}

/// One piece on the board.
#[derive(Debug, Clone, Copy, PartialEq, Eq, Structural)]
pub enum Piece {
    Attacker,
    Defender,
    King,
}

/// One of the two sides.
#[derive(Debug, Clone, Copy, PartialEq, Eq, Structural)]
pub enum Player {
    Attackers,
    Defenders,
}

/// A board coordinate; valid when both parts are below the active edge length.
#[derive(Debug, Clone, Copy, PartialEq, Eq, Structural)]
pub struct Position {
    pub row: usize,
    pub col: usize,
}

/// An ordered pair of positions: where a piece stands and where it goes.
#[derive(Debug, Clone, Copy, PartialEq, Eq, Structural)]
pub struct Move {
    pub from: Position,
    pub to: Position,
}

/// Why a submitted move was rejected.  `NotYourTurn` is reserved for callers
/// with external turn arbitration; the engine itself infers the moving side
/// from the origin piece and never returns it.
#[derive(Debug, Clone, Copy, PartialEq, Eq, Structural)]
pub enum GameError {
    InvalidMove,
    GameOver,
    NotYourTurn,
}

/// The terminal result of a game.  `Draw` exists for callers; no rule of the
/// engine sets it.
#[derive(Debug, Clone, Copy, PartialEq, Eq, Structural)]
pub enum GameResult {
    AttackersWin,
    DefendersWin,
    Draw,
}

impl Variant {
    /// The edge length of this variant's board.
    pub fn board_size(&self) -> (n: usize)
        ensures
            n as int == edge_of(*self),
    {
        match self {
            Variant::Copenhagen => COPENHAGEN_SIZE,
            Variant::Brandubh => BRANDUBH_SIZE,
        }
    }

    /// A human-readable name for this variant.
    pub fn name(&self) -> (s: &str)
        ensures
            *self == Variant::Copenhagen ==> s@ == "Copenhagen Hnefatafl"@,
            *self == Variant::Brandubh ==> s@ == "Brandubh"@,
    {
        match self {
            Variant::Copenhagen => "Copenhagen Hnefatafl",
            Variant::Brandubh => "Brandubh",
        }
    }
}

impl Player {
    /// The other side.
    pub fn opponent(&self) -> (p: Player)
        ensures
            p == opponent_of(*self),
    {
        match self {
            Player::Attackers => Player::Defenders,
            Player::Defenders => Player::Attackers,
        }
    }
}

impl Position {
    /// Builds a position from its two coordinates.
    pub fn new(row: usize, col: usize) -> (p: Position)
        ensures
            p.row == row && p.col == col,
    {
        Position { row, col }
    }
}

impl Move {
    /// Builds a move from its two endpoints.
    pub fn new(from: Position, to: Position) -> (m: Move)
        ensures
            m.from == from && m.to == to,
    {
        Move { from, to }
    }
}

/// The edge length fixed by a variant.
pub open spec fn edge_of(v: Variant) -> int {
    match v {
        Variant::Copenhagen => 11,
        Variant::Brandubh => 7,
    }
}

/// The side that owns a piece: attackers own Attacker pieces, defenders own
/// Defender and King pieces.
pub open spec fn owner_of(p: Piece) -> Player {
    match p {
        Piece::Attacker => Player::Attackers,
        Piece::Defender => Player::Defenders,
        Piece::King => Player::Defenders,
    }
}

/// The other side.
pub open spec fn opponent_of(p: Player) -> Player {
    match p {
        Player::Attackers => Player::Defenders,
        Player::Defenders => Player::Attackers,
    }
}

/// Whether `(r, c)` is one of the four corner cells of a board of edge
/// length `size`.
pub open spec fn is_corner_cell(size: int, r: int, c: int) -> bool {
    ||| (r == 0 && c == 0)
    ||| (r == 0 && c == size - 1)
    ||| (r == size - 1 && c == 0)
    ||| (r == size - 1 && c == size - 1)
}

/// Whether `(r, c)` is the throne: the single centre cell.
pub open spec fn is_throne_cell(size: int, r: int, c: int) -> bool {
    r == size / 2 && c == size / 2
}

/// A restricted cell: the throne or a corner.  Only the king may enter one,
/// and an empty one helps capture as if it held a hostile piece.
pub open spec fn is_restricted(size: int, r: int, c: int) -> bool {
    is_throne_cell(size, r, c) || is_corner_cell(size, r, c)
}

/// Row offset of direction `d`; the directions are east, west, south, north.
pub open spec fn dr(d: int) -> int {
    if d == 0 {
        0
    } else if d == 1 {
        0
    } else if d == 2 {
        1
    } else {
        -1
    }
}

/// Column offset of direction `d`.
pub open spec fn dc(d: int) -> int {
    if d == 0 {
        1
    } else if d == 1 {
        -1
    } else {
        0
    }
}

/// Row of the cell `j` steps from `p` in direction `d`.
pub open spec fn ray_r(p: Position, d: int, j: int) -> int {
    if d == 2 {
        p.row + j
    } else if d == 3 {
        p.row - j
    } else {
        p.row as int
    }
}

/// Column of the cell `j` steps from `p` in direction `d`.
pub open spec fn ray_c(p: Position, d: int, j: int) -> int {
    if d == 0 {
        p.col + j
    } else if d == 1 {
        p.col - j
    } else {
        p.col as int
    }
}

/// The move from `from` to the cell `j` steps away in direction `d`.
pub open spec fn mk_move(from: Position, d: int, j: int) -> Move {
    Move {
        from,
        to: Position { row: ray_r(from, d, j) as usize, col: ray_c(from, d, j) as usize },
    }
}

/// Whether a move's endpoints differ and share a row or a column.
pub open spec fn aligned(mv: Move) -> bool {
    &&& mv.from != mv.to
    &&& (mv.from.row == mv.to.row || mv.from.col == mv.to.col)
}

/// The direction a move slides in; meaningful only for aligned moves.
pub open spec fn move_dir(mv: Move) -> int {
    if mv.from.row == mv.to.row {
        if mv.to.col > mv.from.col {
            0
        } else {
            1
        }
    } else {
        if mv.to.row > mv.from.row {
            2
        } else {
            3
        }
    }
}

/// How many cells a move slides over; meaningful only for aligned moves.
pub open spec fn move_dist(mv: Move) -> int {
    if mv.from.row == mv.to.row {
        if mv.to.col >= mv.from.col {
            mv.to.col - mv.from.col
        } else {
            mv.from.col - mv.to.col
        }
    } else {
        if mv.to.row >= mv.from.row {
            mv.to.row - mv.from.row
        } else {
            mv.from.row - mv.to.row
        }
    }
}

/// Whether one piece is hostile to a non-king target of type `target` when
/// standing on the far side of it.
pub open spec fn piece_hostile(target: Piece, q: Piece) -> bool {
    match (target, q) {
        (Piece::Attacker, Piece::Defender) => true,
        (Piece::Attacker, Piece::King) => true,
        (Piece::Defender, Piece::Attacker) => true,
        _ => false,
    }
}

/// Whether a mover of one type may capture a target of another at all:
/// same-side pairs never capture, and king and defender are mutually immune.
pub open spec fn capture_pair_possible(mover: Piece, target: Piece) -> bool {
    match (mover, target) {
        (Piece::Attacker, Piece::Attacker) => false,
        (Piece::Defender, Piece::Defender) => false,
        (Piece::King, Piece::Defender) => false,
        (Piece::Defender, Piece::King) => false,
        _ => true,
    }
}

/// The ghost image of a game state.
pub ghost struct Model {
    /// The grid, row-major on a row width of 11 cells; always 121 cells long.
    pub cells: Seq<Option<Piece>>,
    /// The active rule set.
    pub variant: Variant,
    /// The active edge length; equals `edge_of(variant)`.
    pub size: int,
    /// The side to move.
    pub player: Player,
    /// Where the king stands, or `None` once it is captured.
    pub king: Option<Position>,
    /// How many moves have been accepted.
    pub move_count: nat,
    /// The terminal result, once one is reached.
    pub outcome: Option<GameResult>,
}

impl Model {
    /// The raw grid cell `(r, c)`, read without a bounds test.
    pub open spec fn raw(self, r: int, c: int) -> Option<Piece> {
        self.cells[r * 11 + c]
    }

    /// The occupant of `(r, c)`; out-of-bounds cells read as empty.
    pub open spec fn at(self, r: int, c: int) -> Option<Piece> {
        if 0 <= r < self.size && 0 <= c < self.size {
            self.raw(r, c)
        } else {
            None
        }
    }

    /// The king cache agrees with the grid: the cached cell holds the king
    /// and no other cell does; with no cache, no cell holds a king.
    pub open spec fn king_consistent(self) -> bool {
        match self.king {
            Some(kp) => {
                &&& kp.row < self.size && kp.col < self.size
                &&& self.at(kp.row as int, kp.col as int) == Some(Piece::King)
                &&& forall|r: int, c: int|
                    #[trigger] self.at(r, c) == Some(Piece::King) ==> r == kp.row && c == kp.col
            },
            None => forall|r: int, c: int| #[trigger] self.at(r, c) != Some(Piece::King),
        }
    }

    /// Well-formedness: the grid has full capacity, the cached edge length
    /// matches the variant, nothing stands outside the active board, the
    /// king cache agrees with the grid, and only the king ever stands on the
    /// throne or a corner.
    pub open spec fn wf(self) -> bool {
        &&& self.cells.len() == 121
        &&& self.size == edge_of(self.variant)
        &&& forall|r: int, c: int|
            0 <= r < 11 && 0 <= c < 11 && !(r < self.size && c < self.size) ==> #[trigger] self.raw(
                r,
                c,
            ) is None
        &&& self.king_consistent()
        &&& forall|r: int, c: int|
            is_restricted(self.size, r, c) && #[trigger] self.at(r, c) is Some ==> self.at(r, c)
                == Some(Piece::King)
    }

    /// Whether a sliding piece may come to rest on `(r, c)`: on the board,
    /// empty, and not a restricted cell unless the piece is the king.
    pub open spec fn enterable(self, as_king: bool, r: int, c: int) -> bool {
        &&& 0 <= r < self.size && 0 <= c < self.size
        &&& self.at(r, c) is None
        &&& !as_king ==> !is_restricted(self.size, r, c)
    }

    /// Whether the cell `j` steps from `from` in direction `d` may be
    /// entered by the sliding piece.
    pub open spec fn open_at(self, as_king: bool, from: Position, d: int, j: int) -> bool {
        self.enterable(as_king, ray_r(from, d, j), ray_c(from, d, j))
    }

    /// Whether every cell on the ray from `from`, one through `len` steps in
    /// direction `d`, may be entered.
    pub open spec fn ray_open(self, as_king: bool, from: Position, d: int, len: int) -> bool {
        forall|j: int| 1 <= j <= len ==> #[trigger] self.open_at(as_king, from, d, j)
    }

    /// Move legality: the game is still running, the origin holds a piece of
    /// the side to move, the endpoints are aligned, and every cell of the
    /// slide up to and including the destination may be entered.
    pub open spec fn is_legal_move(self, mv: Move) -> bool {
        &&& self.outcome is None
        &&& mv.from.row < self.size && mv.from.col < self.size
        &&& self.at(mv.from.row as int, mv.from.col as int) matches Some(p) && owner_of(p)
            == self.player && aligned(mv) && self.ray_open(
            p == Piece::King,
            mv.from,
            move_dir(mv),
            move_dist(mv),
        )
    }

    /// The moves the piece on `from` has along direction `d` at step `j` and
    /// beyond: one per enterable cell, nearest first, stopping at the first
    /// cell that cannot be entered.
    pub open spec fn ray_moves(self, from: Position, d: int, j: int) -> Seq<Move>
        decreases 12 - j,
    {
        if j < 1 || j > 11 {
            Seq::empty()
        } else if self.open_at(
            self.at(from.row as int, from.col as int) == Some(Piece::King),
            from,
            d,
            j,
        ) {
            seq![mk_move(from, d, j)] + self.ray_moves(from, d, j + 1)
        } else {
            Seq::empty()
        }
    }

    /// The moves the piece on `from` has in directions `d` and beyond, in
    /// direction order east, west, south, north.
    pub open spec fn dirs_moves(self, from: Position, d: int) -> Seq<Move>
        decreases 4 - d,
    {
        if d < 0 || d >= 4 {
            Seq::empty()
        } else {
            self.ray_moves(from, d, 1) + self.dirs_moves(from, d + 1)
        }
    }

    /// The moves from cell `(r, c)`: all of the piece's moves when the cell
    /// holds a piece of the side to move, none otherwise.
    pub open spec fn cell_moves(self, r: int, c: int) -> Seq<Move> {
        if self.at(r, c) matches Some(p) && owner_of(p) == self.player {
            self.dirs_moves(Position { row: r as usize, col: c as usize }, 0)
        } else {
            Seq::empty()
        }
    }

    /// The moves from the cells at flat index `k` (row-major on the active
    /// edge length) and beyond.
    pub open spec fn moves_from_cell(self, k: int) -> Seq<Move>
        decreases 121 - k,
    {
        if k < 0 || k >= self.size * self.size || k > 120 {
            Seq::empty()
        } else {
            self.cell_moves(k / self.size, k % self.size) + self.moves_from_cell(k + 1)
        }
    }

    /// Every move available to the side to move, in a fixed order: by origin
    /// cell row-major, then by direction, then by distance.  Empty once a
    /// result is set.
    pub open spec fn legal_seq(self) -> Seq<Move> {
        if self.outcome is Some {
            Seq::empty()
        } else {
            self.moves_from_cell(0)
        }
    }

    /// Whether cell `(r, c)` exerts hostility on a non-king piece of type
    /// `target` standing beside it: it is on the board and either restricted
    /// (throne or corner, even when empty) or held by a hostile piece.
    pub open spec fn hostile_influence(self, target: Piece, r: int, c: int) -> bool {
        &&& 0 <= r < self.size && 0 <= c < self.size
        &&& (is_restricted(self.size, r, c) || (self.at(r, c) matches Some(q) && piece_hostile(
            target,
            q,
        )))
    }

    /// One side of the king-surround test: the neighbour of `(r, c)` in
    /// direction `d` is off the board, restricted, or held by an attacker.
    pub open spec fn king_side_hostile(self, r: int, c: int, d: int) -> bool {
        let nr = r + dr(d);
        let nc = c + dc(d);
        ||| !(0 <= nr < self.size && 0 <= nc < self.size)
        ||| is_restricted(self.size, nr, nc)
        ||| self.at(nr, nc) == Some(Piece::Attacker)
    }

    /// Whether a king on `(r, c)` is surrounded: every orthogonal neighbour
    /// on the board is restricted or held by an attacker.
    pub open spec fn king_surrounded(self, r: int, c: int) -> bool {
        forall|d: int| 0 <= d < 4 ==> #[trigger] self.king_side_hostile(r, c, d)
    }

    /// Whether the piece on `(ar, ac)` captures the piece on `(tr, tc)`
    /// beside it, on this board: a king target must be fully surrounded; any
    /// other target needs a hostile influence on the cell opposite the
    /// capturing piece.
    pub open spec fn can_capture_at(self, ar: int, ac: int, tr: int, tc: int) -> bool {
        &&& self.at(ar, ac) matches Some(mover)
        &&& self.at(tr, tc) matches Some(target)
        &&& capture_pair_possible(self.at(ar, ac)->0, self.at(tr, tc)->0)
        &&& if self.at(tr, tc)->0 == Piece::King {
            self.king_surrounded(tr, tc)
        } else {
            self.hostile_influence(self.at(tr, tc)->0, tr + (tr - ar), tc + (tc - ac))
        }
    }

    /// After a piece lands on `to`, whether its neighbour in direction `d`
    /// is captured.  `self` is the board as it stands after the slide.
    pub open spec fn capture_in_dir(self, to: Position, d: int) -> bool {
        let tr = ray_r(to, d, 1);
        let tc = ray_c(to, d, 1);
        &&& 0 <= tr < self.size && 0 <= tc < self.size
        &&& self.at(tr, tc) is Some
        &&& self.can_capture_at(to.row as int, to.col as int, tr, tc)
    }

    /// Whether `(r, c)` is cleared by the captures around `to`.  `self` is
    /// the board as it stands after the slide.
    pub open spec fn captured_cell(self, to: Position, r: int, c: int) -> bool {
        exists|d: int|
            0 <= d < 4 && r == ray_r(to, d, 1) && c == ray_c(to, d, 1) && #[trigger] self.capture_in_dir(
                to,
                d,
            )
    }

    /// The model after the slide of `mv` alone: the origin is emptied, the
    /// destination takes the piece, and the king cache follows a moving king.
    pub open spec fn slid(self, mv: Move) -> Model {
        let p = self.raw(mv.from.row as int, mv.from.col as int);
        Model {
            cells: self.cells.update(mv.from.row * 11 + mv.from.col, None).update(
                mv.to.row * 11 + mv.to.col,
                p,
            ),
            king: if p == Some(Piece::King) {
                Some(mv.to)
            } else {
                self.king
            },
            ..self
        }
    }

    /// The model after the captures around `to` are resolved on this board:
    /// every captured neighbour is cleared, and the king cache is cleared
    /// when the king's cell is among them.
    pub open spec fn after_captures(self, to: Position) -> Model {
        Model {
            cells: Seq::new(
                121,
                |i: int|
                    if self.captured_cell(to, i / 11, i % 11) {
                        None
                    } else {
                        self.cells[i]
                    },
            ),
            king: match self.king {
                Some(kp) => if self.captured_cell(to, kp.row as int, kp.col as int) {
                    None
                } else {
                    Some(kp)
                },
                None => None,
            },
            ..self
        }
    }

    /// The model after the win conditions are read: attackers win when the
    /// king is gone, defenders win when it stands on a corner.
    pub open spec fn resolved(self) -> Model {
        match self.king {
            None => Model { outcome: Some(GameResult::AttackersWin), ..self },
            Some(kp) => if is_corner_cell(self.size, kp.row as int, kp.col as int) {
                Model { outcome: Some(GameResult::DefendersWin), ..self }
            } else {
                self
            },
        }
    }

    /// The full effect of one accepted move: slide, resolve captures around
    /// the destination, read the win conditions, then hand the turn to the
    /// other side and count the move.
    pub open spec fn step(self, mv: Move) -> Model {
        let s = self.slid(mv).after_captures(mv.to).resolved();
        Model { player: opponent_of(s.player), move_count: s.move_count + 1, ..s }
    }
}

/// The defender cells of the Copenhagen layout: a cross around the centre.
pub open spec fn copenhagen_defender(r: int, c: int) -> bool {
    ||| (c == 5 && (r == 3 || r == 4 || r == 6 || r == 7))
    ||| (r == 5 && (c == 3 || c == 4 || c == 6 || c == 7))
}

/// The attacker cells of the Copenhagen layout: a T-shape on each edge,
/// mirrored across both axes.
pub open spec fn copenhagen_attacker(r: int, c: int) -> bool {
    ||| (r == 0 && 3 <= c <= 7)
    ||| (r == 1 && c == 5)
    ||| (r == 10 && 3 <= c <= 7)
    ||| (r == 9 && c == 5)
    ||| (c == 0 && 3 <= r <= 7)
    ||| (c == 1 && r == 5)
    ||| (c == 10 && 3 <= r <= 7)
    ||| (c == 9 && r == 5)
}

/// The defender cells of the Brandubh layout: the four neighbours of the
/// centre.
pub open spec fn brandubh_defender(r: int, c: int) -> bool {
    ||| (c == 3 && (r == 2 || r == 4))
    ||| (r == 3 && (c == 2 || c == 4))
}

/// The attacker cells of the Brandubh layout: two on the middle of each
/// edge.
pub open spec fn brandubh_attacker(r: int, c: int) -> bool {
    ||| (c == 3 && (r == 0 || r == 1 || r == 5 || r == 6))
    ||| (r == 3 && (c == 0 || c == 1 || c == 5 || c == 6))
}

/// The occupant of `(r, c)` in the starting layout of `v`: the king on the
/// centre cell and the fixed defender and attacker cells around it.
pub open spec fn start_cell(v: Variant, r: int, c: int) -> Option<Piece> {
    if !(0 <= r < edge_of(v) && 0 <= c < edge_of(v)) {
        None
    } else {
        match v {
            Variant::Copenhagen => if r == 5 && c == 5 {
                Some(Piece::King)
            } else if copenhagen_defender(r, c) {
                Some(Piece::Defender)
            } else if copenhagen_attacker(r, c) {
                Some(Piece::Attacker)
            } else {
                None
            },
            Variant::Brandubh => if r == 3 && c == 3 {
                Some(Piece::King)
            } else if brandubh_defender(r, c) {
                Some(Piece::Defender)
            } else if brandubh_attacker(r, c) {
                Some(Piece::Attacker)
            } else {
                None
            },
        }
    }
}

/// The centre cell of the board of `v`.
pub open spec fn centre_of(v: Variant) -> Position {
    Position { row: (edge_of(v) / 2) as usize, col: (edge_of(v) / 2) as usize }
}

/// The whole starting state of `v`: the starting layout, attackers to move,
/// no moves counted, no result.
pub open spec fn init_model(v: Variant) -> Model {
    Model {
        cells: Seq::new(121, |i: int| start_cell(v, i / 11, i % 11)),
        variant: v,
        size: edge_of(v),
        player: Player::Attackers,
        king: Some(centre_of(v)),
        move_count: 0,
        outcome: None,
    }
}

} // verus!
