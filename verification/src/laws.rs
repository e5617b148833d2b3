//! Properties of the rules, proved once and for all reachable states.

use vstd::prelude::*;

use crate::rules::GameResult;
use crate::rules::Model;
use crate::rules::Move;
use crate::rules::Piece;
use crate::rules::Player;
use crate::rules::Position;
use crate::rules::aligned;
use crate::rules::capture_pair_possible;
use crate::rules::is_restricted;
use crate::rules::mk_move;
use crate::rules::move_dir;
use crate::rules::move_dist;
use crate::rules::opponent_of;
use crate::rules::owner_of;
use crate::rules::ray_c;
use crate::rules::ray_r;

verus! {

/// `opponent` is a total involution: applying it twice gives the side back.
pub proof fn lemma_opponent_involutive(p: Player)
    ensures
        opponent_of(opponent_of(p)) == p,
        opponent_of(p) != p,
{
}

/// Flat grid indices decompose uniquely into row and column.
pub proof fn lemma_flat_index(r: int, c: int)
    requires
        0 <= r,
        0 <= c < 11,
    ensures
        (r * 11 + c) / 11 == r,
        (r * 11 + c) % 11 == c,
{
    assert((r * 11 + c) / 11 == r && (r * 11 + c) % 11 == c) by (nonlinear_arith)
        requires
            0 <= r,
            0 <= c < 11,
    ;
}

/// An aligned move's destination is the cell `move_dist` steps from its
/// origin in direction `move_dir`, at least one step away.
pub proof fn lemma_move_geometry(mv: Move)
    requires
        aligned(mv),
    ensures
        ray_r(mv.from, move_dir(mv), move_dist(mv)) == mv.to.row,
        ray_c(mv.from, move_dir(mv), move_dist(mv)) == mv.to.col,
        move_dist(mv) >= 1,
{
}

/// Sliding a legal move preserves well-formedness: the destination was
/// enterable, so only the king ever comes to rest on a restricted cell, and
/// the king cache follows a moving king.
pub proof fn lemma_slid_wf(m: Model, mv: Move)
    requires
        m.wf(),
        m.is_legal_move(mv),
    ensures
        m.slid(mv).wf(),
        m.slid(mv).at(mv.to.row as int, mv.to.col as int) == m.at(
            mv.from.row as int,
            mv.from.col as int,
        ),
        m.slid(mv).at(mv.from.row as int, mv.from.col as int) is None,
{
    let s = m.slid(mv);
    let p = m.at(mv.from.row as int, mv.from.col as int)->0;
    lemma_move_geometry(mv);
    assert(m.open_at(p == Piece::King, mv.from, move_dir(mv), move_dist(mv)));
    assert(m.enterable(p == Piece::King, mv.to.row as int, mv.to.col as int));
    let fi = mv.from.row * 11 + mv.from.col;
    let ti = mv.to.row * 11 + mv.to.col;
    assert(fi != ti) by {
        lemma_flat_index(mv.from.row as int, mv.from.col as int);
        lemma_flat_index(mv.to.row as int, mv.to.col as int);
    }
    assert forall|r: int, c: int| 0 <= r < 11 && 0 <= c < 11 implies #[trigger] s.raw(r, c) == (
    if r == mv.from.row && c == mv.from.col {
        None
    } else if r == mv.to.row && c == mv.to.col {
        m.raw(mv.from.row as int, mv.from.col as int)
    } else {
        m.raw(r, c)
    }) by {
        lemma_flat_index(r, c);
        lemma_flat_index(mv.from.row as int, mv.from.col as int);
        lemma_flat_index(mv.to.row as int, mv.to.col as int);
    }
    assert forall|r: int, c: int|
        0 <= r < 11 && 0 <= c < 11 && !(r < s.size && c < s.size) implies #[trigger] s.raw(
        r,
        c,
    ) is None by {
        assert(m.raw(r, c) is None);
    }
    if p == Piece::King {
        assert(m.king == Some(mv.from)) by {
            assert(m.at(mv.from.row as int, mv.from.col as int) == Some(Piece::King));
        }
        assert(s.king == Some(mv.to));
        assert(s.at(mv.to.row as int, mv.to.col as int) == Some(Piece::King));
        assert forall|r: int, c: int| #[trigger] s.at(r, c) == Some(Piece::King) implies r
            == mv.to.row && c == mv.to.col by {
            if 0 <= r < s.size && 0 <= c < s.size && !(r == mv.to.row && c == mv.to.col) {
                if !(r == mv.from.row && c == mv.from.col) {
                    assert(m.at(r, c) == Some(Piece::King));
                }
            }
        }
    } else {
        assert(s.king == m.king);
        match m.king {
            Some(kp) => {
                assert(m.at(kp.row as int, kp.col as int) == Some(Piece::King));
                assert(!(kp.row == mv.from.row && kp.col == mv.from.col));
                assert(!(kp.row == mv.to.row && kp.col == mv.to.col));
                assert(s.at(kp.row as int, kp.col as int) == Some(Piece::King));
                assert forall|r: int, c: int| #[trigger] s.at(r, c) == Some(Piece::King) implies r
                    == kp.row && c == kp.col by {
                    if 0 <= r < s.size && 0 <= c < s.size {
                        if !(r == mv.to.row && c == mv.to.col) && !(r == mv.from.row && c
                            == mv.from.col) {
                            assert(m.at(r, c) == Some(Piece::King));
                        }
                    }
                }
            },
            None => {
                assert forall|r: int, c: int| #[trigger] s.at(r, c) != Some(Piece::King) by {
                    if 0 <= r < s.size && 0 <= c < s.size {
                        if !(r == mv.to.row && c == mv.to.col) && !(r == mv.from.row && c
                            == mv.from.col) {
                            assert(m.at(r, c) == s.at(r, c));
                        }
                    }
                }
            },
        }
    }
    assert forall|r: int, c: int|
        is_restricted(s.size, r, c) && #[trigger] s.at(r, c) is Some implies s.at(r, c) == Some(
        Piece::King,
    ) by {
        if 0 <= r < s.size && 0 <= c < s.size {
            if r == mv.to.row && c == mv.to.col {
                assert(s.at(r, c) == Some(p));
            } else if !(r == mv.from.row && c == mv.from.col) {
                assert(m.at(r, c) == s.at(r, c));
            }
        }
    }
}

/// Resolving captures preserves well-formedness: captures only clear cells,
/// and the king cache is cleared exactly when the king's cell is.
pub proof fn lemma_captures_wf(s: Model, to: Position)
    requires
        s.wf(),
    ensures
        s.after_captures(to).wf(),
{
    let a = s.after_captures(to);
    assert forall|r: int, c: int| 0 <= r < 11 && 0 <= c < 11 implies #[trigger] a.raw(r, c) == (
    if s.captured_cell(to, r, c) {
        None
    } else {
        s.raw(r, c)
    }) by {
        lemma_flat_index(r, c);
    }
    match s.king {
        Some(kp) => {
            if s.captured_cell(to, kp.row as int, kp.col as int) {
                assert forall|r: int, c: int| #[trigger] a.at(r, c) != Some(Piece::King) by {
                    if 0 <= r < a.size && 0 <= c < a.size {
                        if a.raw(r, c) == Some(Piece::King) {
                            assert(s.at(r, c) == Some(Piece::King));
                        }
                    }
                }
            } else {
                assert(a.at(kp.row as int, kp.col as int) == Some(Piece::King));
                assert forall|r: int, c: int| #[trigger] a.at(r, c) == Some(Piece::King) implies r
                    == kp.row && c == kp.col by {
                    assert(s.at(r, c) == Some(Piece::King));
                }
            }
        },
        None => {
            assert forall|r: int, c: int| #[trigger] a.at(r, c) != Some(Piece::King) by {
                if 0 <= r < a.size && 0 <= c < a.size {
                    if a.raw(r, c) == Some(Piece::King) {
                        assert(s.at(r, c) == Some(Piece::King));
                    }
                }
            }
        },
    }
    assert forall|r: int, c: int|
        is_restricted(a.size, r, c) && #[trigger] a.at(r, c) is Some implies a.at(r, c) == Some(
        Piece::King,
    ) by {
        assert(s.at(r, c) == a.at(r, c) || a.at(r, c) is None);
    }
}

/// Every move on a ray from an owned piece is legal, provided every step
/// before the ray's start may be entered.
proof fn lemma_ray_sound(m: Model, from: Position, d: int, j0: int, kingf: bool)
    requires
        m.wf(),
        m.outcome is None,
        from.row < m.size,
        from.col < m.size,
        m.at(from.row as int, from.col as int) is Some,
        owner_of(m.at(from.row as int, from.col as int)->0) == m.player,
        kingf == (m.at(from.row as int, from.col as int) == Some(Piece::King)),
        0 <= d < 4,
        1 <= j0,
        forall|j: int| 1 <= j < j0 ==> #[trigger] m.open_at(kingf, from, d, j),
    ensures
        forall|x: Move| #[trigger] m.ray_moves(from, d, j0).contains(x) ==> m.is_legal_move(x),
    decreases 12 - j0,
{
    if j0 <= 11 && m.open_at(kingf, from, d, j0) {
        lemma_ray_sound(m, from, d, j0 + 1, kingf);
        let x0 = mk_move(from, d, j0);
        assert(m.enterable(kingf, ray_r(from, d, j0), ray_c(from, d, j0)));
        assert(x0.to.row as int == ray_r(from, d, j0) && x0.to.col as int == ray_c(from, d, j0));
        assert(aligned(x0));
        assert(move_dir(x0) == d && move_dist(x0) == j0);
        assert(m.ray_open(kingf, from, d, j0));
        assert(m.is_legal_move(x0));
        assert forall|x: Move| #[trigger] m.ray_moves(from, d, j0).contains(x) implies
            m.is_legal_move(x) by {
            let s = m.ray_moves(from, d, j0);
            let i = choose|i: int| 0 <= i < s.len() && s[i] == x;
            if i == 0 {
                assert(x == x0);
            } else {
                assert(m.ray_moves(from, d, j0 + 1)[i - 1] == x);
                assert(m.ray_moves(from, d, j0 + 1).contains(x));
            }
        }
    }
}

/// The ray from `j0` holds the move to step `k` whenever every step from
/// `j0` through `k` may be entered.
proof fn lemma_ray_complete(m: Model, from: Position, d: int, j0: int, k: int, kingf: bool)
    requires
        0 <= d < 4,
        1 <= j0 <= k <= 11,
        kingf == (m.at(from.row as int, from.col as int) == Some(Piece::King)),
        forall|j: int| j0 <= j <= k ==> #[trigger] m.open_at(kingf, from, d, j),
    ensures
        m.ray_moves(from, d, j0).contains(mk_move(from, d, k)),
    decreases k - j0,
{
    assert(m.open_at(kingf, from, d, j0));
    let s = m.ray_moves(from, d, j0);
    assert(s == seq![mk_move(from, d, j0)] + m.ray_moves(from, d, j0 + 1));
    if k == j0 {
        assert(s[0] == mk_move(from, d, k));
    } else {
        lemma_ray_complete(m, from, d, j0 + 1, k, kingf);
        let t = m.ray_moves(from, d, j0 + 1);
        let i = choose|i: int| 0 <= i < t.len() && t[i] == mk_move(from, d, k);
        assert(s[i + 1] == mk_move(from, d, k));
    }
}

/// Every move the direction scan yields from an owned piece is legal.
proof fn lemma_dirs_sound(m: Model, from: Position, d0: int)
    requires
        m.wf(),
        m.outcome is None,
        from.row < m.size,
        from.col < m.size,
        m.at(from.row as int, from.col as int) is Some,
        owner_of(m.at(from.row as int, from.col as int)->0) == m.player,
        0 <= d0 <= 4,
    ensures
        forall|x: Move| #[trigger] m.dirs_moves(from, d0).contains(x) ==> m.is_legal_move(x),
    decreases 4 - d0,
{
    if d0 < 4 {
        lemma_ray_sound(m, from, d0, 1, m.at(from.row as int, from.col as int) == Some(Piece::King));
        lemma_dirs_sound(m, from, d0 + 1);
        assert forall|x: Move| #[trigger] m.dirs_moves(from, d0).contains(x) implies
            m.is_legal_move(x) by {
            let a = m.ray_moves(from, d0, 1);
            let b = m.dirs_moves(from, d0 + 1);
            let s = m.dirs_moves(from, d0);
            let i = choose|i: int| 0 <= i < s.len() && s[i] == x;
            if i < a.len() {
                assert(a[i] == x);
                assert(a.contains(x));
            } else {
                assert(b[i - a.len()] == x);
                assert(b.contains(x));
            }
        }
    }
}

/// The direction scan keeps every ray's moves.
proof fn lemma_dirs_include(m: Model, from: Position, d0: int, d: int)
    requires
        0 <= d0 <= d < 4,
    ensures
        forall|x: Move|
            #[trigger] m.ray_moves(from, d, 1).contains(x) ==> m.dirs_moves(from, d0).contains(x),
    decreases d - d0,
{
    let a = m.ray_moves(from, d0, 1);
    let b = m.dirs_moves(from, d0 + 1);
    let s = m.dirs_moves(from, d0);
    if d0 == d {
        assert forall|x: Move| #[trigger] m.ray_moves(from, d, 1).contains(x) implies s.contains(
            x,
        ) by {
            let i = choose|i: int| 0 <= i < a.len() && a[i] == x;
            assert(s[i] == x);
        }
    } else {
        lemma_dirs_include(m, from, d0 + 1, d);
        assert forall|x: Move| #[trigger] m.ray_moves(from, d, 1).contains(x) implies s.contains(
            x,
        ) by {
            assert(b.contains(x));
            let i = choose|i: int| 0 <= i < b.len() && b[i] == x;
            assert(s[a.len() + i] == x);
        }
    }
}

/// Every move the cell scan yields is legal.
proof fn lemma_cells_sound(m: Model, k: int)
    requires
        m.wf(),
        m.outcome is None,
        0 <= k,
    ensures
        forall|x: Move| #[trigger] m.moves_from_cell(k).contains(x) ==> m.is_legal_move(x),
    decreases 121 - k,
{
    if 0 <= k < m.size * m.size && k <= 120 {
        let r = k / m.size;
        let c = k % m.size;
        assert(0 <= r < m.size && 0 <= c < m.size) by (nonlinear_arith)
            requires
                0 <= k < m.size * m.size,
                r == k / m.size,
                c == k % m.size,
                0 < m.size,
        ;
        lemma_cells_sound(m, k + 1);
        let cell = m.cell_moves(r, c);
        if m.at(r, c) matches Some(p) && owner_of(p) == m.player {
            let pos = Position { row: r as usize, col: c as usize };
            lemma_dirs_sound(m, pos, 0);
            assert(cell == m.dirs_moves(pos, 0));
        } else {
            assert(cell == Seq::<Move>::empty());
        }
        assert forall|x: Move| #[trigger] m.moves_from_cell(k).contains(x) implies
            m.is_legal_move(x) by {
            let s = m.moves_from_cell(k);
            let b = m.moves_from_cell(k + 1);
            let i = choose|i: int| 0 <= i < s.len() && s[i] == x;
            if i < cell.len() {
                assert(cell[i] == x);
                assert(cell.contains(x));
            } else {
                assert(b[i - cell.len()] == x);
                assert(b.contains(x));
            }
        }
    }
}

/// The cell scan from `k` keeps the moves of every later cell `k0`.
proof fn lemma_cells_skip(m: Model, k: int, k0: int)
    requires
        0 <= k <= k0 < m.size * m.size,
        k0 <= 120,
    ensures
        forall|x: Move|
            #[trigger] m.cell_moves(k0 / m.size, k0 % m.size).contains(x)
                ==> m.moves_from_cell(k).contains(x),
    decreases k0 - k,
{
    let cell = m.cell_moves(k / m.size, k % m.size);
    let b = m.moves_from_cell(k + 1);
    let s = m.moves_from_cell(k);
    if k == k0 {
        assert forall|x: Move| #[trigger] m.cell_moves(k0 / m.size, k0 % m.size).contains(
            x,
        ) implies s.contains(x) by {
            let i = choose|i: int| 0 <= i < cell.len() && cell[i] == x;
            assert(s[i] == x);
        }
    } else {
        lemma_cells_skip(m, k + 1, k0);
        assert forall|x: Move| #[trigger] m.cell_moves(k0 / m.size, k0 % m.size).contains(
            x,
        ) implies s.contains(x) by {
            assert(b.contains(x));
            let i = choose|i: int| 0 <= i < b.len() && b[i] == x;
            assert(s[cell.len() + i] == x);
        }
    }
}

/// Soundness of the move list: every move it holds is legal.  With this,
/// every generated move goes from a piece of the side to move to an empty
/// cell reachable by an unobstructed straight slide.
pub proof fn lemma_legal_moves_sound(m: Model)
    requires
        m.wf(),
    ensures
        forall|x: Move| #[trigger] m.legal_seq().contains(x) ==> m.is_legal_move(x),
{
    if m.outcome is None {
        lemma_cells_sound(m, 0);
    }
}

/// Completeness of the move list: it holds every legal move.
pub proof fn lemma_legal_moves_complete(m: Model)
    requires
        m.wf(),
    ensures
        forall|x: Move| m.is_legal_move(x) ==> #[trigger] m.legal_seq().contains(x),
{
    assert forall|x: Move| m.is_legal_move(x) implies #[trigger] m.legal_seq().contains(x) by {
        let from = x.from;
        let d = move_dir(x);
        let dist = move_dist(x);
        let kingf = m.at(from.row as int, from.col as int) == Some(Piece::King);
        lemma_move_geometry(x);
        assert(m.open_at(kingf, from, d, dist));
        assert(m.enterable(kingf, ray_r(from, d, dist), ray_c(from, d, dist)));
        assert(m.size <= 11);
        assert(dist <= 11);
        lemma_ray_complete(m, from, d, 1, dist, kingf);
        assert(mk_move(from, d, dist) == x);
        lemma_dirs_include(m, from, 0, d);
        assert(m.dirs_moves(from, 0).contains(x));
        let k0 = from.row * m.size + from.col;
        assert(0 <= k0 < m.size * m.size && k0 / m.size == from.row && k0 % m.size == from.col)
            by (nonlinear_arith)
            requires
                0 <= from.row < m.size,
                0 <= from.col < m.size,
                k0 == from.row * m.size + from.col,
        ;
        assert(k0 <= 120);
        assert(m.cell_moves(k0 / m.size, k0 % m.size) == m.dirs_moves(from, 0));
        lemma_cells_skip(m, 0, k0);
        assert(m.moves_from_cell(0).contains(x));
    }
}

/// Well-formedness depends only on the board, the edge length, the variant
/// and the king cache.
proof fn lemma_wf_same_board(a: Model, b: Model)
    requires
        a.wf(),
        b.cells == a.cells,
        b.size == a.size,
        b.variant == a.variant,
        b.king == a.king,
    ensures
        b.wf(),
{
    assert forall|r: int, c: int| true implies #[trigger] b.raw(r, c) == a.raw(r, c) && b.at(r, c)
        == a.at(r, c) by {}
}

/// One accepted move preserves well-formedness.
pub proof fn lemma_step_wf(m: Model, mv: Move)
    requires
        m.wf(),
        m.is_legal_move(mv),
    ensures
        m.step(mv).wf(),
{
    lemma_slid_wf(m, mv);
    lemma_captures_wf(m.slid(mv), mv.to);
    let s2 = m.slid(mv).after_captures(mv.to);
    lemma_wf_same_board(s2, s2.resolved());
    lemma_wf_same_board(s2.resolved(), m.step(mv));
}

/// At most one king ever stands on a well-formed board, and the cached king
/// position agrees with the grid: the cached cell holds the king, and a
/// cleared cache means no king remains.
pub proof fn lemma_king_unique(m: Model)
    requires
        m.wf(),
    ensures
        forall|r: int, c: int, r2: int, c2: int|
            #[trigger] m.at(r, c) == Some(Piece::King) && #[trigger] m.at(r2, c2) == Some(
                Piece::King,
            ) ==> r == r2 && c == c2,
        m.king matches Some(kp) ==> m.at(kp.row as int, kp.col as int) == Some(Piece::King),
        m.king is None ==> forall|r: int, c: int| #[trigger] m.at(r, c) != Some(Piece::King),
{
}

/// The path of a legal move: the destination and every cell slid over are
/// empty, and the endpoints are aligned.
pub proof fn lemma_legal_move_clear_path(m: Model, mv: Move)
    requires
        m.wf(),
        m.is_legal_move(mv),
    ensures
        m.at(mv.to.row as int, mv.to.col as int) is None,
        aligned(mv),
        forall|j: int|
            1 <= j <= move_dist(mv) ==> #[trigger] m.at(
                ray_r(mv.from, move_dir(mv), j),
                ray_c(mv.from, move_dir(mv), j),
            ) is None,
{
    let kingf = m.at(mv.from.row as int, mv.from.col as int) == Some(Piece::King);
    lemma_move_geometry(mv);
    assert(m.open_at(kingf, mv.from, move_dir(mv), move_dist(mv)));
    assert forall|j: int| 1 <= j <= move_dist(mv) implies #[trigger] m.at(
        ray_r(mv.from, move_dir(mv), j),
        ray_c(mv.from, move_dir(mv), j),
    ) is None by {
        assert(m.open_at(kingf, mv.from, move_dir(mv), j));
    }
}

/// Only the king ever stands on the throne or a corner.
pub proof fn lemma_only_king_on_restricted(m: Model)
    requires
        m.wf(),
    ensures
        forall|r: int, c: int|
            is_restricted(m.size, r, c) && #[trigger] m.at(r, c) is Some ==> m.at(r, c) == Some(
                Piece::King,
            ),
{
}

/// After the slide of `mv`, whether cell `(r, c)` survives the captures
/// around the destination, read on the stepped state.
proof fn lemma_cell_after_step(m: Model, mv: Move, r: int, c: int)
    requires
        m.wf(),
        m.is_legal_move(mv),
        0 <= r < m.size,
        0 <= c < m.size,
    ensures
        m.step(mv).at(r, c) == (if m.slid(mv).captured_cell(mv.to, r, c) {
            None
        } else {
            m.slid(mv).at(r, c)
        }),
{
    let s = m.slid(mv);
    let a = s.after_captures(mv.to);
    lemma_slid_wf(m, mv);
    lemma_flat_index(r, c);
    assert(a.cells[r * 11 + c] == (if s.captured_cell(mv.to, r, c) {
        None
    } else {
        s.cells[r * 11 + c]
    }));
    assert(m.step(mv).at(r, c) == a.at(r, c));
}

/// A neighbour of the destination is a neighbour in exactly one direction.
proof fn lemma_neighbour_unique(to: Position, d: int, r: int, c: int)
    requires
        0 <= d < 4,
        r == ray_r(to, d, 1),
        c == ray_c(to, d, 1),
    ensures
        forall|dd: int|
            0 <= dd < 4 && dd != d ==> !(r == #[trigger] ray_r(to, dd, 1) && c == ray_c(
                to,
                dd,
                1,
            )),
{
}

/// Sandwich capture: a non-king piece standing beside the cell a hostile
/// piece just moved onto, with a hostile influence (piece, throne or
/// corner) on the directly opposite cell, is removed.
pub proof fn lemma_sandwich_capture(m: Model, mv: Move, d: int)
    requires
        m.wf(),
        m.is_legal_move(mv),
        0 <= d < 4,
        m.slid(mv).at(ray_r(mv.to, d, 1), ray_c(mv.to, d, 1)) matches Some(t) && t != Piece::King
            && capture_pair_possible(m.slid(mv).at(mv.to.row as int, mv.to.col as int)->0, t)
            && m.slid(mv).hostile_influence(t, ray_r(mv.to, d, 2), ray_c(mv.to, d, 2)),
    ensures
        m.step(mv).at(ray_r(mv.to, d, 1), ray_c(mv.to, d, 1)) is None,
{
    let s = m.slid(mv);
    let tr = ray_r(mv.to, d, 1);
    let tc = ray_c(mv.to, d, 1);
    lemma_slid_wf(m, mv);
    assert(0 <= tr < s.size && 0 <= tc < s.size);
    assert(ray_r(mv.to, d, 2) == tr + (tr - mv.to.row) && ray_c(mv.to, d, 2) == tc + (tc
        - mv.to.col));
    assert(s.can_capture_at(mv.to.row as int, mv.to.col as int, tr, tc));
    assert(s.capture_in_dir(mv.to, d));
    assert(s.captured_cell(mv.to, tr, tc));
    lemma_cell_after_step(m, mv, tr, tc);
}

/// No sandwich, no capture: when the opposite cell exerts no hostile
/// influence, a non-king piece beside the destination stays on the board.
/// In particular a piece flanked only on adjacent, non-opposite sides is
/// never captured.
pub proof fn lemma_no_sandwich_no_capture(m: Model, mv: Move, d: int)
    requires
        m.wf(),
        m.is_legal_move(mv),
        0 <= d < 4,
        m.slid(mv).at(ray_r(mv.to, d, 1), ray_c(mv.to, d, 1)) matches Some(t) && t != Piece::King
            && !m.slid(mv).hostile_influence(t, ray_r(mv.to, d, 2), ray_c(mv.to, d, 2)),
    ensures
        m.step(mv).at(ray_r(mv.to, d, 1), ray_c(mv.to, d, 1)) == m.slid(mv).at(
            ray_r(mv.to, d, 1),
            ray_c(mv.to, d, 1),
        ),
{
    let s = m.slid(mv);
    let tr = ray_r(mv.to, d, 1);
    let tc = ray_c(mv.to, d, 1);
    lemma_slid_wf(m, mv);
    assert(0 <= tr < s.size && 0 <= tc < s.size);
    assert(ray_r(mv.to, d, 2) == tr + (tr - mv.to.row) && ray_c(mv.to, d, 2) == tc + (tc
        - mv.to.col));
    assert(!s.can_capture_at(mv.to.row as int, mv.to.col as int, tr, tc));
    assert(!s.capture_in_dir(mv.to, d));
    lemma_neighbour_unique(mv.to, d, tr, tc);
    assert(!s.captured_cell(mv.to, tr, tc)) by {
        if s.captured_cell(mv.to, tr, tc) {
            let dd = choose|dd: int|
                0 <= dd < 4 && tr == ray_r(mv.to, dd, 1) && tc == ray_c(mv.to, dd, 1)
                    && s.capture_in_dir(mv.to, dd);
            assert(dd == d);
        }
    }
    lemma_cell_after_step(m, mv, tr, tc);
}

/// Captures are local: a cell that is neither endpoint of the move nor an
/// orthogonal neighbour of its destination is unchanged.  Diagonal
/// adjacency never triggers a capture.
pub proof fn lemma_capture_locality(m: Model, mv: Move, r: int, c: int)
    requires
        m.wf(),
        m.is_legal_move(mv),
        !(r == mv.from.row && c == mv.from.col),
        !(r == mv.to.row && c == mv.to.col),
        forall|d: int|
            0 <= d < 4 ==> !(r == #[trigger] ray_r(mv.to, d, 1) && c == ray_c(mv.to, d, 1)),
    ensures
        m.step(mv).at(r, c) == m.at(r, c),
{
    let s = m.slid(mv);
    lemma_slid_wf(m, mv);
    if 0 <= r < m.size && 0 <= c < m.size {
        lemma_flat_index(r, c);
        lemma_flat_index(mv.from.row as int, mv.from.col as int);
        lemma_flat_index(mv.to.row as int, mv.to.col as int);
        assert(s.at(r, c) == m.at(r, c));
        assert(!s.captured_cell(mv.to, r, c)) by {
            if s.captured_cell(mv.to, r, c) {
                let dd = choose|dd: int|
                    0 <= dd < 4 && r == ray_r(mv.to, dd, 1) && c == ray_c(mv.to, dd, 1)
                        && s.capture_in_dir(mv.to, dd);
                assert(!(r == ray_r(mv.to, dd, 1) && c == ray_c(mv.to, dd, 1)));
            }
        }
        lemma_cell_after_step(m, mv, r, c);
    }
}

/// King capture: when an attacker lands beside the king and every
/// orthogonal neighbour of the king on the board is the throne, a corner or
/// an attacker, the king is removed and the attackers win.
pub proof fn lemma_king_capture_full_surround(m: Model, mv: Move, d: int)
    requires
        m.wf(),
        m.is_legal_move(mv),
        0 <= d < 4,
        m.slid(mv).at(ray_r(mv.to, d, 1), ray_c(mv.to, d, 1)) == Some(Piece::King),
        m.slid(mv).at(mv.to.row as int, mv.to.col as int) == Some(Piece::Attacker),
        m.slid(mv).king_surrounded(ray_r(mv.to, d, 1), ray_c(mv.to, d, 1)),
    ensures
        m.step(mv).at(ray_r(mv.to, d, 1), ray_c(mv.to, d, 1)) is None,
        m.step(mv).king is None,
        m.step(mv).outcome == Some(GameResult::AttackersWin),
{
    let s = m.slid(mv);
    let tr = ray_r(mv.to, d, 1);
    let tc = ray_c(mv.to, d, 1);
    lemma_slid_wf(m, mv);
    assert(0 <= tr < s.size && 0 <= tc < s.size);
    assert(s.can_capture_at(mv.to.row as int, mv.to.col as int, tr, tc));
    assert(s.capture_in_dir(mv.to, d));
    assert(s.captured_cell(mv.to, tr, tc));
    lemma_cell_after_step(m, mv, tr, tc);
    assert(s.king == Some(Position { row: tr as usize, col: tc as usize })) by {
        assert(s.at(tr, tc) == Some(Piece::King));
        let kp = s.king->0;
        assert(s.at(kp.row as int, kp.col as int) == Some(Piece::King));
    }
    assert(s.after_captures(mv.to).king is None);
}

/// Partial surround leaves the king: one on-board neighbour that is neither
/// restricted nor held by an attacker prevents the capture, whatever the
/// three other sides hold.
pub proof fn lemma_king_survives_partial_surround(m: Model, mv: Move, d: int, dd: int)
    requires
        m.wf(),
        m.is_legal_move(mv),
        0 <= d < 4,
        0 <= dd < 4,
        m.slid(mv).at(ray_r(mv.to, d, 1), ray_c(mv.to, d, 1)) == Some(Piece::King),
        !m.slid(mv).king_side_hostile(ray_r(mv.to, d, 1), ray_c(mv.to, d, 1), dd),
    ensures
        m.step(mv).at(ray_r(mv.to, d, 1), ray_c(mv.to, d, 1)) == Some(Piece::King),
{
    let s = m.slid(mv);
    let tr = ray_r(mv.to, d, 1);
    let tc = ray_c(mv.to, d, 1);
    lemma_slid_wf(m, mv);
    assert(0 <= tr < s.size && 0 <= tc < s.size);
    assert(!s.king_surrounded(tr, tc));
    assert(!s.can_capture_at(mv.to.row as int, mv.to.col as int, tr, tc));
    assert(!s.capture_in_dir(mv.to, d));
    lemma_neighbour_unique(mv.to, d, tr, tc);
    assert(!s.captured_cell(mv.to, tr, tc)) by {
        if s.captured_cell(mv.to, tr, tc) {
            let d2 = choose|d2: int|
                0 <= d2 < 4 && tr == ray_r(mv.to, d2, 1) && tc == ray_c(mv.to, d2, 1)
                    && s.capture_in_dir(mv.to, d2);
            assert(d2 == d);
        }
    }
    lemma_cell_after_step(m, mv, tr, tc);
}

} // verus!
