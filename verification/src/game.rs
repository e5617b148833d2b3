//! The executable game engine.
//!
//! `GameState` is the sole mutable aggregate: it is created fully set up by
//! `new`, read through pure accessors, and mutated only through `make_move`.
//! Its ghost image is a `rules::Model`; every method's contract is stated
//! over that model.

use vstd::prelude::*;

use crate::rules::GameError;
use crate::rules::GameResult;
use crate::rules::Model;
use crate::rules::Move;
use crate::rules::Piece;
use crate::rules::Player;
use crate::rules::Position;
use crate::rules::Variant;
use crate::rules::dc;
use crate::rules::dr;
use crate::rules::edge_of;
use crate::rules::init_model;
use crate::rules::is_corner_cell;
use crate::rules::is_throne_cell;
use crate::rules::mk_move;
use crate::rules::move_dir;
use crate::rules::move_dist;
use crate::rules::opponent_of;
use crate::rules::owner_of;
use crate::rules::ray_c;
use crate::rules::ray_r;
use crate::rules::start_cell;

verus! {

/// The state of one game: the grid (row-major, at full capacity), the
/// active variant with its cached edge length, the side to move, the cached
/// king position, the move counter and the optional terminal result.
#[derive(Debug, Clone)]
pub struct GameState {
    board: Vec<Option<Piece>>,
    variant: Variant,
    board_size: usize,
    current_player: Player,
    king_position: Option<Position>,
    move_count: usize,
    result: Option<GameResult>,
}

impl View for GameState {
    type V = Model;

    closed spec fn view(&self) -> Model {
        Model {
            cells: self.board@,
            variant: self.variant,
            size: self.board_size as int,
            player: self.current_player,
            king: self.king_position,
            move_count: self.move_count as nat,
            outcome: self.result,
        }
    }
}

impl GameState {
    /// Well-formedness of the state, as stated on its model.
    pub open spec fn wf(&self) -> bool {
        self@.wf()
    }

    /// Writes one grid cell.
    fn set_cell(&mut self, r: usize, c: usize, p: Option<Piece>)
        requires
            r < 11,
            c < 11,
            old(self)@.cells.len() == 121,
        ensures
            final(self)@ == (Model {
                cells: old(self)@.cells.update(r * 11 + c, p),
                ..old(self)@
            }),
    {
        let i = r * 11 + c;
        self.board[i] = p;
    }

    /// Places the pieces of the Copenhagen layout on an empty board.
    fn setup_copenhagen(&mut self)
        requires
            old(self)@.cells.len() == 121,
            forall|i: int| 0 <= i < 121 ==> old(self)@.cells[i] is None,
            old(self)@.variant == Variant::Copenhagen,
        ensures
            forall|r: int, c: int|
                0 <= r < 11 && 0 <= c < 11 ==> final(self)@.raw(r, c) == start_cell(
                    Variant::Copenhagen,
                    r,
                    c,
                ),
            final(self)@.cells.len() == 121,
            final(self)@ == (Model {
                cells: final(self)@.cells,
                king: Some(Position { row: 5, col: 5 }),
                ..old(self)@
            }),
    {
        self.set_cell(5, 5, Some(Piece::King));
        self.king_position = Some(Position::new(5, 5));
        self.set_cell(4, 5, Some(Piece::Defender));
        self.set_cell(6, 5, Some(Piece::Defender));
        self.set_cell(5, 4, Some(Piece::Defender));
        self.set_cell(5, 6, Some(Piece::Defender));
        self.set_cell(3, 5, Some(Piece::Defender));
        self.set_cell(7, 5, Some(Piece::Defender));
        self.set_cell(5, 3, Some(Piece::Defender));
        self.set_cell(5, 7, Some(Piece::Defender));
        self.set_cell(0, 3, Some(Piece::Attacker));
        self.set_cell(0, 4, Some(Piece::Attacker));
        self.set_cell(0, 5, Some(Piece::Attacker));
        self.set_cell(0, 6, Some(Piece::Attacker));
        self.set_cell(0, 7, Some(Piece::Attacker));
        self.set_cell(1, 5, Some(Piece::Attacker));
        self.set_cell(10, 3, Some(Piece::Attacker));
        self.set_cell(10, 4, Some(Piece::Attacker));
        self.set_cell(10, 5, Some(Piece::Attacker));
        self.set_cell(10, 6, Some(Piece::Attacker));
        self.set_cell(10, 7, Some(Piece::Attacker));
        self.set_cell(9, 5, Some(Piece::Attacker));
        self.set_cell(3, 0, Some(Piece::Attacker));
        self.set_cell(4, 0, Some(Piece::Attacker));
        self.set_cell(5, 0, Some(Piece::Attacker));
        self.set_cell(6, 0, Some(Piece::Attacker));
        self.set_cell(7, 0, Some(Piece::Attacker));
        self.set_cell(5, 1, Some(Piece::Attacker));
        self.set_cell(3, 10, Some(Piece::Attacker));
        self.set_cell(4, 10, Some(Piece::Attacker));
        self.set_cell(5, 10, Some(Piece::Attacker));
        self.set_cell(6, 10, Some(Piece::Attacker));
        self.set_cell(7, 10, Some(Piece::Attacker));
        self.set_cell(5, 9, Some(Piece::Attacker));
    }

    /// Places the pieces of the Brandubh layout on an empty board.
    fn setup_brandubh(&mut self)
        requires
            old(self)@.cells.len() == 121,
            forall|i: int| 0 <= i < 121 ==> old(self)@.cells[i] is None,
            old(self)@.variant == Variant::Brandubh,
        ensures
            forall|r: int, c: int|
                0 <= r < 11 && 0 <= c < 11 ==> final(self)@.raw(r, c) == start_cell(
                    Variant::Brandubh,
                    r,
                    c,
                ),
            final(self)@.cells.len() == 121,
            final(self)@ == (Model {
                cells: final(self)@.cells,
                king: Some(Position { row: 3, col: 3 }),
                ..old(self)@
            }),
    {
        self.set_cell(3, 3, Some(Piece::King));
        self.king_position = Some(Position::new(3, 3));
        self.set_cell(2, 3, Some(Piece::Defender));
        self.set_cell(4, 3, Some(Piece::Defender));
        self.set_cell(3, 2, Some(Piece::Defender));
        self.set_cell(3, 4, Some(Piece::Defender));
        self.set_cell(0, 3, Some(Piece::Attacker));
        self.set_cell(1, 3, Some(Piece::Attacker));
        self.set_cell(5, 3, Some(Piece::Attacker));
        self.set_cell(6, 3, Some(Piece::Attacker));
        self.set_cell(3, 0, Some(Piece::Attacker));
        self.set_cell(3, 1, Some(Piece::Attacker));
        self.set_cell(3, 5, Some(Piece::Attacker));
        self.set_cell(3, 6, Some(Piece::Attacker));
    }

    /// Creates a new game of the given variant, fully set up: the starting
    /// layout on the board, attackers to move, no moves counted, no result.
    pub fn new(variant: Variant) -> (s: GameState)
        ensures
            s@ == init_model(variant),
            s.wf(),
    {
        let mut board: Vec<Option<Piece>> = Vec::new();
        let mut i: usize = 0;
        while i < 121
            invariant
                board@.len() == i,
                i <= 121,
                forall|j: int| 0 <= j < i ==> board@[j] is None,
            decreases 121 - i,
        {
            board.push(None);
            i += 1;
        }
        let mut s = GameState {
            board,
            variant,
            board_size: variant.board_size(),
            current_player: Player::Attackers,
            king_position: None,
            move_count: 0,
            result: None,
        };
        match variant {
            Variant::Copenhagen => s.setup_copenhagen(),
            Variant::Brandubh => s.setup_brandubh(),
        }
        proof {
            lemma_grid_wf(s@, variant);
        }
        s
    }

    /// Creates a new Copenhagen game.
    pub fn new_copenhagen() -> (s: GameState)
        ensures
            s@ == init_model(Variant::Copenhagen),
            s.wf(),
    {
        Self::new(Variant::Copenhagen)
    }

    /// Creates a new Brandubh game.
    pub fn new_brandubh() -> (s: GameState)
        ensures
            s@ == init_model(Variant::Brandubh),
            s.wf(),
    {
        Self::new(Variant::Brandubh)
    }

    /// The active variant.
    pub fn variant(&self) -> (v: Variant)
        ensures
            v == self@.variant,
    {
        self.variant
    }

    /// The active board edge length.
    pub fn board_size(&self) -> (n: usize)
        ensures
            n as int == self@.size,
    {
        self.board_size
    }

    /// The side to move.
    pub fn current_player(&self) -> (p: Player)
        ensures
            p == self@.player,
    {
        self.current_player
    }

    /// The terminal result, once one is reached.
    pub fn result(&self) -> (r: Option<&GameResult>)
        ensures
            match r {
                Some(x) => self@.outcome == Some(*x),
                None => self@.outcome is None,
            },
    {
        self.result.as_ref()
    }

    /// Whether a terminal result is set.
    pub fn is_game_over(&self) -> (b: bool)
        ensures
            b == (self@.outcome is Some),
    {
        self.result.is_some()
    }

    /// How many moves have been accepted.
    pub fn move_count(&self) -> (n: usize)
        ensures
            n as nat == self@.move_count,
    {
        self.move_count
    }

    /// The occupant of `pos`; empty and out-of-bounds positions both read as
    /// no piece.
    pub fn get_piece(&self, pos: Position) -> (p: Option<Piece>)
        requires
            self@.cells.len() == 121,
            self@.size <= 11,
        ensures
            p == self@.at(pos.row as int, pos.col as int),
    {
        if pos.row < self.board_size && pos.col < self.board_size {
            self.board[pos.row * 11 + pos.col]
        } else {
            None
        }
    }

    /// Whether `pos` is one of the four board corners.
    fn is_corner(&self, pos: Position) -> (b: bool)
        requires
            self@.size >= 1,
        ensures
            b == is_corner_cell(self@.size, pos.row as int, pos.col as int),
    {
        (pos.row == 0 && pos.col == 0) || (pos.row == 0 && pos.col == self.board_size - 1) || (
        pos.row == self.board_size - 1 && pos.col == 0) || (pos.row == self.board_size - 1
            && pos.col == self.board_size - 1)
    }

    /// Whether `pos` is the throne: the centre cell.
    fn is_throne(&self, pos: Position) -> (b: bool)
        ensures
            b == is_throne_cell(self@.size, pos.row as int, pos.col as int),
    {
        let centre = self.board_size / 2;
        pos.row == centre && pos.col == centre
    }

    /// Whether a piece belongs to the side to move.
    fn piece_belongs_to_current_player(&self, piece: Piece) -> (b: bool)
        ensures
            b == (owner_of(piece) == self@.player),
    {
        match (piece, self.current_player) {
            (Piece::Attacker, Player::Attackers) => true,
            (Piece::Defender, Player::Defenders) => true,
            (Piece::King, Player::Defenders) => true,
            _ => false,
        }
    }

    /// Whether a submitted move is a member of the legal-move set, decided
    /// by walking the slide from its origin to its destination.
    #[verifier::loop_isolation(false)]
    fn move_is_legal(&self, mv: Move) -> (b: bool)
        requires
            self.wf(),
        ensures
            b == self@.is_legal_move(mv),
    {
        if self.result.is_some() {
            return false;
        }
        let size = self.board_size;
        if !(mv.from.row < size && mv.from.col < size) {
            return false;
        }
        let piece = match self.get_piece(mv.from) {
            Some(p) => p,
            None => { return false; },
        };
        if !self.piece_belongs_to_current_player(piece) {
            return false;
        }
        if mv.from.row == mv.to.row && mv.from.col == mv.to.col {
            return false;
        }
        if mv.from.row != mv.to.row && mv.from.col != mv.to.col {
            return false;
        }
        proof {
            crate::laws::lemma_move_geometry(mv);
        }
        let ghost d = move_dir(mv);
        if !(mv.to.row < size && mv.to.col < size) {
            proof {
                assert(!self@.open_at(piece == Piece::King, mv.from, d, move_dist(mv)));
            }
            return false;
        }
        let dist: usize = if mv.from.row == mv.to.row {
            if mv.to.col > mv.from.col {
                mv.to.col - mv.from.col
            } else {
                mv.from.col - mv.to.col
            }
        } else {
            if mv.to.row > mv.from.row {
                mv.to.row - mv.from.row
            } else {
                mv.from.row - mv.to.row
            }
        };
        let as_king = piece == Piece::King;
        let mut j: usize = 1;
        while j <= dist
            invariant
                1 <= j <= dist + 1,
                d == move_dir(mv),
                dist == move_dist(mv),
                forall|jj: int| 1 <= jj < j ==> #[trigger] self@.open_at(as_king, mv.from, d, jj),
            decreases dist + 1 - j,
        {
            let r: usize = if mv.from.row == mv.to.row {
                mv.from.row
            } else if mv.to.row > mv.from.row {
                mv.from.row + j
            } else {
                mv.from.row - j
            };
            let c: usize = if mv.from.row != mv.to.row {
                mv.from.col
            } else if mv.to.col > mv.from.col {
                mv.from.col + j
            } else {
                mv.from.col - j
            };
            proof {
                assert(r as int == ray_r(mv.from, d, j as int));
                assert(c as int == ray_c(mv.from, d, j as int));
            }
            let cell = Position::new(r, c);
            if self.get_piece(cell).is_some() {
                proof {
                    assert(!self@.open_at(as_king, mv.from, d, j as int));
                }
                return false;
            }
            if !as_king && (self.is_throne(cell) || self.is_corner(cell)) {
                proof {
                    assert(!self@.open_at(as_king, mv.from, d, j as int));
                }
                return false;
            }
            proof {
                assert(self@.open_at(as_king, mv.from, d, j as int));
            }
            j += 1;
        }
        true
    }

    /// The legal moves of the piece on `from`, in direction order east,
    /// west, south, north, nearest destination first: every empty cell along
    /// each ray up to the first blocked one, where board edge, occupied
    /// cells, and — for all pieces but the king — the throne and the corners
    /// block.
    #[verifier::loop_isolation(false)]
    fn legal_moves_for_piece(&self, from: Position) -> (res: Vec<Move>)
        requires
            self.wf(),
            from.row < self@.size,
            from.col < self@.size,
            self@.at(from.row as int, from.col as int) is Some,
        ensures
            res@ == self@.dirs_moves(from, 0),
    {
        let mut res: Vec<Move> = Vec::new();
        let piece = self.get_piece(from).unwrap();
        let as_king = piece == Piece::King;
        let mut d: usize = 0;
        proof {
            assert(res@ + self@.dirs_moves(from, 0) =~= self@.dirs_moves(from, 0));
        }
        while d < 4
            invariant
                d <= 4,
                res@ + self@.dirs_moves(from, d as int) == self@.dirs_moves(from, 0),
            decreases 4 - d,
        {
            proof {
                assert(self@.dirs_moves(from, d as int) == self@.ray_moves(from, d as int, 1)
                    + self@.dirs_moves(from, d as int + 1));
                assert(res@ + self@.dirs_moves(from, d as int) =~= res@ + self@.ray_moves(
                    from,
                    d as int,
                    1,
                ) + self@.dirs_moves(from, d as int + 1));
            }
            let mut r = from.row;
            let mut c = from.col;
            let ghost mut j: int = 1;
            let mut go = true;
            while go
                invariant
                    1 <= j <= 12,
                    go ==> j <= 11,
                    go ==> r as int == ray_r(from, d as int, j - 1) && c as int == ray_c(
                        from,
                        d as int,
                        j - 1,
                    ) && r < self@.size && c < self@.size,
                    d < 4,
                    as_king == (self@.at(from.row as int, from.col as int)->0 == Piece::King),
                    res@ + self@.ray_moves(from, d as int, j) + self@.dirs_moves(
                        from,
                        d as int + 1,
                    ) == self@.dirs_moves(from, 0),
                    !go ==> self@.ray_moves(from, d as int, j) == Seq::<Move>::empty(),
                decreases 13 - j + if go {
                    1int
                } else {
                    0
                },
            {
                match self.neighbour(r, c, d) {
                    None => {
                        proof {
                            assert(!self@.open_at(as_king, from, d as int, j));
                            assert(self@.ray_moves(from, d as int, j) == Seq::<Move>::empty());
                        }
                        go = false;
                    },
                    Some(np) => {
                        proof {
                            assert(np.row as int == ray_r(from, d as int, j));
                            assert(np.col as int == ray_c(from, d as int, j));
                        }
                        if self.get_piece(np).is_some() {
                            proof {
                                assert(!self@.open_at(as_king, from, d as int, j));
                                assert(self@.ray_moves(from, d as int, j) == Seq::<Move>::empty());
                            }
                            go = false;
                        } else if !as_king && (self.is_throne(np) || self.is_corner(np)) {
                            proof {
                                assert(!self@.open_at(as_king, from, d as int, j));
                                assert(self@.ray_moves(from, d as int, j) == Seq::<Move>::empty());
                            }
                            go = false;
                        } else {
                            let mv = Move { from, to: np };
                            proof {
                                assert(self@.open_at(as_king, from, d as int, j));
                                assert(mv == mk_move(from, d as int, j));
                                assert(self@.ray_moves(from, d as int, j) == seq![mv]
                                    + self@.ray_moves(from, d as int, j + 1));
                                assert(res@ + self@.ray_moves(from, d as int, j)
                                    =~= res@.push(mv) + self@.ray_moves(from, d as int, j + 1));
                            }
                            res.push(mv);
                            r = np.row;
                            c = np.col;
                            proof {
                                j = j + 1;
                            }
                        }
                    },
                }
            }
            proof {
                assert(res@ + self@.ray_moves(from, d as int, j) + self@.dirs_moves(
                    from,
                    d as int + 1,
                ) =~= res@ + self@.dirs_moves(from, d as int + 1));
            }
            d += 1;
        }
        proof {
            assert(self@.dirs_moves(from, 4) == Seq::<Move>::empty());
            assert(res@ + self@.dirs_moves(from, 4) =~= res@);
        }
        res
    }

    /// Every move available to the side to move, in a fixed order: by origin
    /// cell row-major, then by direction, then by distance.  Empty once a
    /// result is set.  The result is a pure function of the state: the same
    /// state always yields the same ordered list.
    #[verifier::loop_isolation(false)]
    pub fn legal_moves(&self) -> (res: Vec<Move>)
        requires
            self.wf(),
        ensures
            res@ == self@.legal_seq(),
            forall|i: int| 0 <= i < res@.len() ==> self@.is_legal_move(#[trigger] res@[i]),
            forall|x: Move| self@.is_legal_move(x) ==> #[trigger] res@.contains(x),
    {
        proof {
            crate::laws::lemma_legal_moves_sound(self@);
            crate::laws::lemma_legal_moves_complete(self@);
            assert forall|i: int|
                0 <= i < self@.legal_seq().len() implies self@.is_legal_move(
                #[trigger] self@.legal_seq()[i],
            ) by {
                assert(self@.legal_seq().contains(self@.legal_seq()[i]));
            }
        }
        if self.is_game_over() {
            let empty_moves: Vec<Move> = Vec::new();
            proof {
                assert(empty_moves@ =~= self@.legal_seq());
            }
            return empty_moves;
        }
        let size = self.board_size;
        proof {
            assert(self@.size == 7 || self@.size == 11);
            assert(size * size <= 121) by (nonlinear_arith)
                requires
                    size == 7 || size == 11,
            ;
        }
        let total = size * size;
        let mut res: Vec<Move> = Vec::new();
        let mut k: usize = 0;
        proof {
            assert(res@ + self@.moves_from_cell(0) =~= self@.legal_seq());
        }
        while k < total
            invariant
                k <= total,
                total == size * size,
                size as int == self@.size,
                res@ + self@.moves_from_cell(k as int) == self@.legal_seq(),
            decreases total - k,
        {
            let r = k / size;
            let c = k % size;
            proof {
                assert(r < size) by (nonlinear_arith)
                    requires
                        k < size * size,
                        r == k / size,
                        size > 0,
                ;
                assert(c < size);
                assert(self@.moves_from_cell(k as int) == self@.cell_moves(r as int, c as int)
                    + self@.moves_from_cell(k as int + 1));
            }
            let pos = Position::new(r, c);
            match self.get_piece(pos) {
                Some(piece) => {
                    if self.piece_belongs_to_current_player(piece) {
                        let mut more = self.legal_moves_for_piece(pos);
                        proof {
                            assert(self@.cell_moves(r as int, c as int) == self@.dirs_moves(
                                pos,
                                0,
                            ));
                            assert(res@ + self@.moves_from_cell(k as int) =~= (res@ + more@)
                                + self@.moves_from_cell(k as int + 1));
                        }
                        res.append(&mut more);
                    } else {
                        proof {
                            assert(self@.cell_moves(r as int, c as int) == Seq::<Move>::empty());
                            assert(res@ + self@.moves_from_cell(k as int) =~= res@
                                + self@.moves_from_cell(k as int + 1));
                        }
                    }
                },
                None => {
                    proof {
                        assert(self@.cell_moves(r as int, c as int) == Seq::<Move>::empty());
                        assert(res@ + self@.moves_from_cell(k as int) =~= res@
                            + self@.moves_from_cell(k as int + 1));
                    }
                },
            }
            k += 1;
        }
        proof {
            assert(self@.moves_from_cell(total as int) == Seq::<Move>::empty());
            assert(res@ + self@.moves_from_cell(total as int) =~= res@);
        }
        res
    }

    /// The neighbour of `(r, c)` one step in direction `d`, when it lies on
    /// the active board.
    fn neighbour(&self, r: usize, c: usize, d: usize) -> (p: Option<Position>)
        requires
            d < 4,
            r < self@.size,
            c < self@.size,
            self@.size <= 11,
        ensures
            match p {
                Some(q) => {
                    &&& q.row as int == r + dr(d as int)
                    &&& q.col as int == c + dc(d as int)
                    &&& q.row < self@.size && q.col < self@.size
                },
                None => !(0 <= r + dr(d as int) < self@.size && 0 <= c + dc(d as int)
                    < self@.size),
            },
    {
        let size = self.board_size;
        if d == 0 {
            if c + 1 < size {
                Some(Position::new(r, c + 1))
            } else {
                None
            }
        } else if d == 1 {
            if c >= 1 {
                Some(Position::new(r, c - 1))
            } else {
                None
            }
        } else if d == 2 {
            if r + 1 < size {
                Some(Position::new(r + 1, c))
            } else {
                None
            }
        } else {
            if r >= 1 {
                Some(Position::new(r - 1, c))
            } else {
                None
            }
        }
    }

    /// Whether the king on `king_pos` is surrounded: every orthogonal
    /// neighbour on the board is the throne, a corner, or an attacker.
    #[verifier::loop_isolation(false)]
    fn is_king_surrounded(&self, king_pos: Position) -> (b: bool)
        requires
            self@.cells.len() == 121,
            1 <= self@.size <= 11,
            king_pos.row < self@.size,
            king_pos.col < self@.size,
        ensures
            b == self@.king_surrounded(king_pos.row as int, king_pos.col as int),
    {
        let mut d: usize = 0;
        while d < 4
            invariant
                d <= 4,
                forall|dd: int|
                    0 <= dd < d ==> #[trigger] self@.king_side_hostile(
                        king_pos.row as int,
                        king_pos.col as int,
                        dd,
                    ),
            decreases 4 - d,
        {
            match self.neighbour(king_pos.row, king_pos.col, d) {
                None => {},
                Some(np) => {
                    if self.is_throne(np) || self.is_corner(np) {
                    } else {
                        match self.get_piece(np) {
                            Some(Piece::Attacker) => {},
                            _ => {
                                proof {
                                    assert(!self@.king_side_hostile(
                                        king_pos.row as int,
                                        king_pos.col as int,
                                        d as int,
                                    ));
                                }
                                return false;
                            },
                        }
                    }
                },
            }
            proof {
                assert(self@.king_side_hostile(king_pos.row as int, king_pos.col as int, d as int));
            }
            d += 1;
        }
        true
    }

    /// Whether the piece that just landed on `attacker` captures the piece
    /// on `target`: a king must be fully surrounded, any other piece needs a
    /// hostile influence on the opposite side.
    fn can_capture(&self, attacker: Position, target: Position) -> (b: bool)
        requires
            self@.cells.len() == 121,
            1 <= self@.size <= 11,
            attacker.row < self@.size,
            attacker.col < self@.size,
            target.row < self@.size,
            target.col < self@.size,
            self@.at(attacker.row as int, attacker.col as int) is Some,
            self@.at(target.row as int, target.col as int) is Some,
        ensures
            b == self@.can_capture_at(
                attacker.row as int,
                attacker.col as int,
                target.row as int,
                target.col as int,
            ),
    {
        let attacker_piece = self.get_piece(attacker).unwrap();
        let target_piece = self.get_piece(target).unwrap();
        match (attacker_piece, target_piece) {
            (Piece::Attacker, Piece::Attacker) => { return false; },
            (Piece::Defender, Piece::Defender) => { return false; },
            (Piece::King, Piece::Defender) => { return false; },
            (Piece::Defender, Piece::King) => { return false; },
            _ => {},
        }
        if target_piece == Piece::King {
            return self.is_king_surrounded(target);
        }
        let ghost or = target.row + (target.row - attacker.row);
        let ghost oc = target.col + (target.col - attacker.col);
        let tr2 = 2 * target.row;
        let tc2 = 2 * target.col;
        if tr2 < attacker.row || tc2 < attacker.col {
            return false;
        }
        let opp_r = tr2 - attacker.row;
        let opp_c = tc2 - attacker.col;
        if opp_r >= self.board_size || opp_c >= self.board_size {
            return false;
        }
        let opposite = Position::new(opp_r, opp_c);
        if self.is_throne(opposite) || self.is_corner(opposite) {
            return true;
        }
        match self.get_piece(opposite) {
            Some(opposite_piece) => match (target_piece, opposite_piece) {
                (Piece::Attacker, Piece::Defender) => true,
                (Piece::Attacker, Piece::King) => true,
                (Piece::Defender, Piece::Attacker) => true,
                _ => false,
            },
            None => false,
        }
    }

    /// The neighbour of `to` in direction `d` when the capture rule removes
    /// the piece on it.
    fn captured_neighbour(&self, to: Position, d: usize) -> (p: Option<Position>)
        requires
            self@.cells.len() == 121,
            1 <= self@.size <= 11,
            d < 4,
            to.row < self@.size,
            to.col < self@.size,
            self@.at(to.row as int, to.col as int) is Some,
        ensures
            match p {
                Some(t) => {
                    &&& self@.capture_in_dir(to, d as int)
                    &&& t.row as int == ray_r(to, d as int, 1)
                    &&& t.col as int == ray_c(to, d as int, 1)
                    &&& t.row < self@.size && t.col < self@.size
                },
                None => !self@.capture_in_dir(to, d as int),
            },
    {
        match self.neighbour(to.row, to.col, d) {
            None => None,
            Some(t) => match self.get_piece(t) {
                None => None,
                Some(_) => if self.can_capture(to, t) {
                    Some(t)
                } else {
                    None
                },
            },
        }
    }

    /// Clears one captured cell, and the king cache with it when the king
    /// stood there.
    fn clear_capture(&mut self, tr: usize, tc: usize)
        requires
            tr < 11,
            tc < 11,
            old(self)@.cells.len() == 121,
        ensures
            final(self)@ == (Model {
                cells: old(self)@.cells.update(tr * 11 + tc, None),
                king: if old(self)@.raw(tr as int, tc as int) == Some(Piece::King) {
                    None
                } else {
                    old(self)@.king
                },
                ..old(self)@
            }),
    {
        let i = tr * 11 + tc;
        let was = self.board[i];
        self.board[i] = None;
        match was {
            Some(Piece::King) => {
                self.king_position = None;
            },
            _ => {},
        }
    }

    /// A fixed-width label for a row or column number, as the board
    /// rendering prints it.
    fn column_label(n: usize) -> (s: &'static str)
        requires
            n < 11,
    {
        match n {
            0 => " 0 ",
            1 => " 1 ",
            2 => " 2 ",
            3 => " 3 ",
            4 => " 4 ",
            5 => " 5 ",
            6 => " 6 ",
            7 => " 7 ",
            8 => " 8 ",
            9 => " 9 ",
            _ => "10 ",
        }
    }

    /// Renders the board as text: a header line with the variant name, a
    /// line of column numbers, then one line per row.  Corners show as `X`,
    /// the empty throne as `T`, pieces as `A`, `D` and `K`, empty cells as
    /// `.`.
    #[verifier::loop_isolation(false)]
    pub fn display_board(&self) -> (out: String)
        requires
            self.wf(),
        ensures
            out@.len() > 0,
    {
        let mut out = String::new();
        proof {
            reveal_strlit("[");
        }
        out.append("[");
        out.append(self.variant.name());
        out.append("]\n");
        out.append("   ");
        let size = self.board_size;
        let mut col: usize = 0;
        while col < size
            invariant
                col <= size,
                out@.len() > 0,
            decreases size - col,
        {
            out.append(Self::column_label(col));
            col += 1;
        }
        out.append("\n");
        let mut row: usize = 0;
        while row < size
            invariant
                row <= size,
                out@.len() > 0,
            decreases size - row,
        {
            out.append(Self::column_label(row));
            let mut col2: usize = 0;
            while col2 < size
                invariant
                    col2 <= size,
                    row < size,
                    out@.len() > 0,
                decreases size - col2,
            {
                let pos = Position::new(row, col2);
                let cell = if self.is_corner(pos) {
                    " X "
                } else if self.is_throne(pos) && self.get_piece(pos).is_none() {
                    " T "
                } else {
                    match self.get_piece(pos) {
                        Some(Piece::Attacker) => " A ",
                        Some(Piece::Defender) => " D ",
                        Some(Piece::King) => " K ",
                        None => " . ",
                    }
                };
                out.append(cell);
                col2 += 1;
            }
            out.append("\n");
            row += 1;
        }
        out
    }

    /// Resolves the captures around the square a piece just landed on: each
    /// of its four orthogonal neighbours is tested against the capture rule
    /// on the board as it stands, and the captured ones are cleared.
    fn check_captures(&mut self, moved_to: Position)
        requires
            old(self)@.cells.len() == 121,
            1 <= old(self)@.size <= 11,
            moved_to.row < old(self)@.size,
            moved_to.col < old(self)@.size,
            old(self)@.at(moved_to.row as int, moved_to.col as int) is Some,
            old(self)@.king_consistent(),
        ensures
            final(self)@ == old(self)@.after_captures(moved_to),
    {
        let ghost m0 = self@;
        let n0 = self.captured_neighbour(moved_to, 0);
        let n1 = self.captured_neighbour(moved_to, 1);
        let n2 = self.captured_neighbour(moved_to, 2);
        let n3 = self.captured_neighbour(moved_to, 3);
        if let Some(t) = n0 {
            self.clear_capture(t.row, t.col);
        }
        if let Some(t) = n1 {
            self.clear_capture(t.row, t.col);
        }
        if let Some(t) = n2 {
            self.clear_capture(t.row, t.col);
        }
        if let Some(t) = n3 {
            self.clear_capture(t.row, t.col);
        }
        proof {
            let a = m0.after_captures(moved_to);
            assert forall|i: int| 0 <= i < 121 implies self@.cells[i] == a.cells[i] by {
                let r = i / 11;
                let c = i % 11;
                assert(0 <= r < 11 && 0 <= c < 11 && i == r * 11 + c);
                crate::laws::lemma_flat_index(r, c);
                if m0.captured_cell(moved_to, r, c) {
                    let d = choose|d: int|
                        0 <= d < 4 && r == ray_r(moved_to, d, 1) && c == ray_c(moved_to, d, 1)
                            && m0.capture_in_dir(moved_to, d);
                    assert(a.cells[i] is None);
                    if d == 0 {
                        assert(n0 is Some && n0->0.row == r && n0->0.col == c);
                    } else if d == 1 {
                        assert(n1 is Some && n1->0.row == r && n1->0.col == c);
                    } else if d == 2 {
                        assert(n2 is Some && n2->0.row == r && n2->0.col == c);
                    } else {
                        assert(n3 is Some && n3->0.row == r && n3->0.col == c);
                    }
                    assert(self@.cells[i] is None);
                } else {
                    assert(a.cells[i] == m0.cells[i]);
                    if n0 is Some {
                        let t = n0->0;
                        assert(m0.capture_in_dir(moved_to, 0));
                        assert(!(t.row == r && t.col == c));
                        crate::laws::lemma_flat_index(t.row as int, t.col as int);
                    }
                    if n1 is Some {
                        let t = n1->0;
                        assert(m0.capture_in_dir(moved_to, 1));
                        assert(!(t.row == r && t.col == c));
                        crate::laws::lemma_flat_index(t.row as int, t.col as int);
                    }
                    if n2 is Some {
                        let t = n2->0;
                        assert(m0.capture_in_dir(moved_to, 2));
                        assert(!(t.row == r && t.col == c));
                        crate::laws::lemma_flat_index(t.row as int, t.col as int);
                    }
                    if n3 is Some {
                        let t = n3->0;
                        assert(m0.capture_in_dir(moved_to, 3));
                        assert(!(t.row == r && t.col == c));
                        crate::laws::lemma_flat_index(t.row as int, t.col as int);
                    }
                    assert(self@.cells[i] == m0.cells[i]);
                }
            }
            assert(self@.cells =~= a.cells);
            match m0.king {
                Some(kp) => {
                    assert(m0.at(kp.row as int, kp.col as int) == Some(Piece::King));
                    crate::laws::lemma_flat_index(kp.row as int, kp.col as int);
                    if n0 is Some {
                        let t = n0->0;
                        crate::laws::lemma_flat_index(t.row as int, t.col as int);
                        assert(m0.raw(t.row as int, t.col as int) == Some(Piece::King) <==> (t.row
                            == kp.row && t.col == kp.col)) by {
                            if m0.raw(t.row as int, t.col as int) == Some(Piece::King) {
                                assert(m0.at(t.row as int, t.col as int) == Some(Piece::King));
                            }
                        }
                    }
                    if n1 is Some {
                        let t = n1->0;
                        crate::laws::lemma_flat_index(t.row as int, t.col as int);
                        assert(m0.raw(t.row as int, t.col as int) == Some(Piece::King) <==> (t.row
                            == kp.row && t.col == kp.col)) by {
                            if m0.raw(t.row as int, t.col as int) == Some(Piece::King) {
                                assert(m0.at(t.row as int, t.col as int) == Some(Piece::King));
                            }
                        }
                    }
                    if n2 is Some {
                        let t = n2->0;
                        crate::laws::lemma_flat_index(t.row as int, t.col as int);
                        assert(m0.raw(t.row as int, t.col as int) == Some(Piece::King) <==> (t.row
                            == kp.row && t.col == kp.col)) by {
                            if m0.raw(t.row as int, t.col as int) == Some(Piece::King) {
                                assert(m0.at(t.row as int, t.col as int) == Some(Piece::King));
                            }
                        }
                    }
                    if n3 is Some {
                        let t = n3->0;
                        crate::laws::lemma_flat_index(t.row as int, t.col as int);
                        assert(m0.raw(t.row as int, t.col as int) == Some(Piece::King) <==> (t.row
                            == kp.row && t.col == kp.col)) by {
                            if m0.raw(t.row as int, t.col as int) == Some(Piece::King) {
                                assert(m0.at(t.row as int, t.col as int) == Some(Piece::King));
                            }
                        }
                    }
                    if m0.captured_cell(moved_to, kp.row as int, kp.col as int) {
                        assert(a.king is None);
                        let d = choose|d: int|
                            0 <= d < 4 && kp.row == ray_r(moved_to, d, 1) && kp.col == ray_c(
                                moved_to,
                                d,
                                1,
                            ) && m0.capture_in_dir(moved_to, d);
                        if d == 0 {
                            assert(n0 is Some && n0->0.row == kp.row && n0->0.col == kp.col);
                        } else if d == 1 {
                            assert(n1 is Some && n1->0.row == kp.row && n1->0.col == kp.col);
                        } else if d == 2 {
                            assert(n2 is Some && n2->0.row == kp.row && n2->0.col == kp.col);
                        } else {
                            assert(n3 is Some && n3->0.row == kp.row && n3->0.col == kp.col);
                        }
                        assert(self@.king is None);
                    } else {
                        assert(a.king == Some(kp));
                        assert(self@.king == Some(kp));
                    }
                },
                None => {
                    assert forall|r: int, c: int| #[trigger] m0.at(r, c) != Some(Piece::King) by {}
                    assert(self@.king is None);
                },
            }
            assert(self@ == a);
        }
    }

    /// Reads the win conditions: attackers win when the king is captured,
    /// defenders win when it stands on a corner; otherwise nothing changes.
    fn check_game_end(&mut self)
        requires
            old(self)@.size >= 1,
        ensures
            final(self)@ == old(self)@.resolved(),
    {
        match self.king_position {
            Some(king_pos) => {
                if self.is_corner(king_pos) {
                    self.result = Some(GameResult::DefendersWin);
                }
            },
            None => {
                self.result = Some(GameResult::AttackersWin);
            },
        }
    }

    /// Applies one move.  A move is accepted exactly when no result is set
    /// and it is a member of the legal-move set; the piece then slides, the
    /// captures around its destination are resolved, the win conditions are
    /// read, the turn passes to the other side and the move is counted.  A
    /// rejected move leaves the state unchanged.
    pub fn make_move(&mut self, mv: Move) -> (res: Result<(), GameError>)
        requires
            old(self).wf(),
            old(self)@.move_count < usize::MAX,
        ensures
            final(self).wf(),
            match res {
                Ok(_) => {
                    &&& old(self)@.outcome is None
                    &&& old(self)@.is_legal_move(mv)
                    &&& final(self)@ == old(self)@.step(mv)
                },
                Err(GameError::GameOver) => {
                    &&& old(self)@.outcome is Some
                    &&& final(self)@ == old(self)@
                },
                Err(GameError::InvalidMove) => {
                    &&& old(self)@.outcome is None
                    &&& !old(self)@.is_legal_move(mv)
                    &&& final(self)@ == old(self)@
                },
                Err(GameError::NotYourTurn) => false,
            },
            res is Ok ==> final(self)@.player == opponent_of(old(self)@.player) && final(self)@.move_count
                == old(self)@.move_count + 1,
            res is Err ==> final(self)@ == old(self)@,
    {
        if self.result.is_some() {
            return Err(GameError::GameOver);
        }
        if !self.move_is_legal(mv) {
            return Err(GameError::InvalidMove);
        }
        let ghost m0 = self@;
        proof {
            crate::laws::lemma_move_geometry(mv);
            assert(m0.open_at(
                m0.at(mv.from.row as int, mv.from.col as int)->0 == Piece::King,
                mv.from,
                move_dir(mv),
                move_dist(mv),
            ));
        }
        let fi = mv.from.row * 11 + mv.from.col;
        let piece = self.board[fi].unwrap();
        self.board[fi] = None;
        let ti = mv.to.row * 11 + mv.to.col;
        self.board[ti] = Some(piece);
        if piece == Piece::King {
            self.king_position = Some(mv.to);
        }
        proof {
            assert(self@.cells =~= m0.slid(mv).cells);
            assert(self@ == m0.slid(mv));
            crate::laws::lemma_slid_wf(m0, mv);
        }
        self.check_captures(mv.to);
        proof {
            assert(self@ == m0.slid(mv).after_captures(mv.to));
        }
        self.check_game_end();
        self.current_player = self.current_player.opponent();
        self.move_count = self.move_count + 1;
        proof {
            assert(self@ == m0.step(mv));
            crate::laws::lemma_step_wf(m0, mv);
        }
        Ok(())
    }
}

/// The starting layout of either variant is well-formed: the grid is full
/// capacity, nothing stands outside the active board, exactly the centre
/// cell holds the king, and nothing else stands on a restricted cell.
proof fn lemma_grid_wf(m: Model, v: Variant)
    requires
        m.cells.len() == 121,
        m.variant == v,
        m.size == edge_of(v),
        m.player == Player::Attackers,
        m.king == Some(crate::rules::centre_of(v)),
        m.move_count == 0,
        m.outcome is None,
        forall|r: int, c: int| 0 <= r < 11 && 0 <= c < 11 ==> #[trigger] m.raw(r, c) == start_cell(
            v,
            r,
            c,
        ),
    ensures
        m == init_model(v),
        m.wf(),
{
    assert forall|i: int| 0 <= i < 121 implies m.cells[i] == start_cell(v, i / 11, i % 11) by {
        let r = i / 11;
        let c = i % 11;
        assert(0 <= r < 11 && 0 <= c < 11);
        assert(i == r * 11 + c);
        assert(m.raw(r, c) == start_cell(v, r, c));
    }
    assert(m.cells =~= init_model(v).cells);
    assert(m == init_model(v));
    assert forall|r: int, c: int|
        0 <= r < 11 && 0 <= c < 11 && !(r < m.size && c < m.size) implies #[trigger] m.raw(
        r,
        c,
    ) is None by {
        assert(m.raw(r, c) == start_cell(v, r, c));
    }
    assert forall|r: int, c: int| #[trigger]
        m.at(r, c) == Some(Piece::King) implies r == edge_of(v) / 2 && c == edge_of(v) / 2 by {
        assert(m.raw(r, c) == start_cell(v, r, c));
    }
    assert(m.at(edge_of(v) / 2, edge_of(v) / 2) == Some(Piece::King)) by {
        assert(m.raw(edge_of(v) / 2, edge_of(v) / 2) == start_cell(
            v,
            edge_of(v) / 2,
            edge_of(v) / 2,
        ));
    }
    assert forall|r: int, c: int|
        crate::rules::is_restricted(m.size, r, c) && #[trigger] m.at(r, c) is Some implies m.at(
        r,
        c,
    ) == Some(Piece::King) by {
        assert(m.raw(r, c) == start_cell(v, r, c));
    }
}

} // verus!

verus! {

impl Default for GameState {
    /// The default game is a Copenhagen game at its starting position.
    fn default() -> (s: GameState)
        ensures
            s@ == init_model(Variant::Copenhagen),
            s.wf(),
    {
        GameState::new_copenhagen()
    }
}

} // verus!
