use hnefatafl::game::GameState;
use hnefatafl::rules::{GameError, GameResult, Move, Piece, Player, Position, Variant};

fn count_pieces(g: &GameState) -> (usize, usize, usize) {
    let mut attackers = 0;
    let mut defenders = 0;
    let mut kings = 0;
    for row in 0..g.board_size() {
        for col in 0..g.board_size() {
            match g.get_piece(Position::new(row, col)) {
                Some(Piece::Attacker) => attackers += 1,
                Some(Piece::Defender) => defenders += 1,
                Some(Piece::King) => kings += 1,
                None => {}
            }
        }
    }
    (attackers, defenders, kings)
}

fn mv(fr: usize, fc: usize, tr: usize, tc: usize) -> Move {
    Move::new(Position::new(fr, fc), Position::new(tr, tc))
}

#[test]
fn copenhagen_setup() {
    let g = GameState::new_copenhagen();
    assert_eq!(g.variant(), Variant::Copenhagen);
    assert_eq!(g.board_size(), 11);
    assert_eq!(g.current_player(), Player::Attackers);
    assert_eq!(g.move_count(), 0);
    assert!(g.result().is_none());
    assert!(!g.is_game_over());
    let (attackers, defenders, kings) = count_pieces(&g);
    assert_eq!(attackers, 24);
    assert_eq!(defenders, 8);
    assert_eq!(kings, 1);
    assert_eq!(g.get_piece(Position::new(5, 5)), Some(Piece::King));
}

#[test]
fn brandubh_setup() {
    let g = GameState::new_brandubh();
    assert_eq!(g.variant(), Variant::Brandubh);
    assert_eq!(g.board_size(), 7);
    assert_eq!(g.current_player(), Player::Attackers);
    let (attackers, defenders, kings) = count_pieces(&g);
    assert_eq!(attackers, 8);
    assert_eq!(defenders, 4);
    assert_eq!(kings, 1);
    assert_eq!(g.get_piece(Position::new(3, 3)), Some(Piece::King));
}

#[test]
fn default_is_copenhagen() {
    let g = GameState::default();
    assert_eq!(g.variant(), Variant::Copenhagen);
    assert_eq!(g.board_size(), 11);
}

#[test]
fn variant_names_and_sizes() {
    assert_eq!(Variant::Copenhagen.board_size(), 11);
    assert_eq!(Variant::Brandubh.board_size(), 7);
    assert_eq!(Variant::Copenhagen.name(), "Copenhagen Hnefatafl");
    assert_eq!(Variant::Brandubh.name(), "Brandubh");
}

#[test]
fn opponent_is_involutive() {
    assert_eq!(Player::Attackers.opponent(), Player::Defenders);
    assert_eq!(Player::Defenders.opponent(), Player::Attackers);
    assert_eq!(Player::Attackers.opponent().opponent(), Player::Attackers);
    assert_eq!(Player::Defenders.opponent().opponent(), Player::Defenders);
}

#[test]
fn out_of_bounds_reads_as_empty() {
    let g = GameState::new_brandubh();
    assert_eq!(g.get_piece(Position::new(7, 0)), None);
    assert_eq!(g.get_piece(Position::new(0, 7)), None);
    assert_eq!(g.get_piece(Position::new(100, 100)), None);
}

#[test]
fn legal_moves_deterministic() {
    let g = GameState::new_copenhagen();
    let first = g.legal_moves();
    let second = g.legal_moves();
    assert_eq!(first, second);
    assert!(!first.is_empty());
}

#[test]
fn legal_moves_land_on_empty_aligned_cells() {
    let g = GameState::new_brandubh();
    for m in g.legal_moves() {
        assert!(g.get_piece(m.to).is_none());
        assert!(m.from.row == m.to.row || m.from.col == m.to.col);
        assert!(m.from != m.to);
    }
}

#[test]
fn brandubh_edge_attacker_stops_short_of_corner() {
    // The attacker on (0, 3) may slide along the top edge toward the corner
    // (0, 0) but the move list stops one cell short of it.
    let g = GameState::new_brandubh();
    let moves = g.legal_moves();
    assert_eq!(g.current_player(), Player::Attackers);
    assert!(moves.contains(&mv(0, 3, 0, 2)));
    assert!(moves.contains(&mv(0, 3, 0, 1)));
    assert!(!moves.contains(&mv(0, 3, 0, 0)));
    assert!(moves.contains(&mv(0, 3, 0, 4)));
    assert!(moves.contains(&mv(0, 3, 0, 5)));
    assert!(!moves.contains(&mv(0, 3, 0, 6)));
}

#[test]
fn non_king_cannot_enter_empty_throne() {
    // Clear the column above the throne, vacate it, and check that no
    // attacker or defender move ever ends on it.
    let mut g = GameState::new_brandubh();
    g.make_move(mv(3, 1, 2, 1)).unwrap();
    g.make_move(mv(2, 3, 2, 6)).unwrap();
    g.make_move(mv(2, 1, 1, 1)).unwrap();
    g.make_move(mv(3, 3, 2, 3)).unwrap(); // the king leaves the throne
    assert!(g.get_piece(Position::new(3, 3)).is_none());
    for m in g.legal_moves() {
        if g.get_piece(m.from) != Some(Piece::King) {
            assert!(m.to != Position::new(3, 3));
        }
    }
}

#[test]
fn sandwich_capture_removes_defender() {
    // A defender walks between one attacker and the landing square of a
    // second attacker; the second attacker's move captures it.
    let mut g = GameState::new_brandubh();
    g.make_move(mv(6, 3, 6, 4)).unwrap(); // attackers: harmless
    g.make_move(mv(3, 4, 1, 4)).unwrap(); // defenders: step beside the attacker on (1, 3)
    assert_eq!(g.get_piece(Position::new(1, 4)), Some(Piece::Defender));
    g.make_move(mv(3, 5, 1, 5)).unwrap(); // attackers: close the sandwich
    assert_eq!(g.get_piece(Position::new(1, 4)), None);
    assert_eq!(g.get_piece(Position::new(1, 5)), Some(Piece::Attacker));
    assert_eq!(g.get_piece(Position::new(1, 3)), Some(Piece::Attacker));
    assert!(g.result().is_none());
    assert_eq!(g.move_count(), 3);
    assert_eq!(g.current_player(), Player::Defenders);
}

#[test]
fn adjacent_flanking_does_not_capture() {
    // After the defender steps to (1, 4) it has an attacker on one side
    // only; nothing is captured by that or the next unrelated move.
    let mut g = GameState::new_brandubh();
    g.make_move(mv(6, 3, 6, 4)).unwrap();
    g.make_move(mv(3, 4, 1, 4)).unwrap();
    g.make_move(mv(6, 4, 6, 5)).unwrap(); // attackers: harmless, far away
    assert_eq!(g.get_piece(Position::new(1, 4)), Some(Piece::Defender));
}

#[test]
fn king_captured_when_fully_surrounded() {
    // The king steps off the throne; attackers take two of its free sides,
    // the vacated throne is hostile, and the last attacker move closes the
    // fourth side.
    let mut g = GameState::new_brandubh();
    g.make_move(mv(3, 1, 2, 1)).unwrap(); // attackers
    g.make_move(mv(2, 3, 2, 6)).unwrap(); // defenders vacate the king's path
    g.make_move(mv(2, 1, 2, 2)).unwrap(); // attackers
    g.make_move(mv(3, 3, 2, 3)).unwrap(); // the king leaves the throne
    g.make_move(mv(3, 5, 2, 5)).unwrap(); // attackers approach
    g.make_move(mv(4, 3, 4, 1)).unwrap(); // defenders: harmless
    // Three sides are hostile (two attackers and the empty throne), the
    // fourth is empty: the king is still on the board.
    assert!(g.result().is_none());
    assert_eq!(g.get_piece(Position::new(2, 3)), Some(Piece::King));
    g.make_move(mv(2, 5, 2, 4)).unwrap(); // attackers close the fourth side
    assert_eq!(g.get_piece(Position::new(2, 3)), None);
    assert_eq!(g.result(), Some(&GameResult::AttackersWin));
    assert!(g.is_game_over());
}

#[test]
fn king_on_corner_wins_for_defenders() {
    let mut g = GameState::new_brandubh();
    g.make_move(mv(6, 3, 6, 4)).unwrap(); // attackers: harmless
    g.make_move(mv(2, 3, 2, 6)).unwrap(); // defenders vacate the king's path
    g.make_move(mv(6, 4, 6, 5)).unwrap(); // attackers
    g.make_move(mv(3, 3, 2, 3)).unwrap(); // the king leaves the throne
    g.make_move(mv(6, 5, 5, 5)).unwrap(); // attackers
    g.make_move(mv(2, 3, 2, 0)).unwrap(); // the king reaches the west edge
    assert!(g.result().is_none());
    g.make_move(mv(5, 5, 4, 5)).unwrap(); // attackers
    g.make_move(mv(2, 0, 0, 0)).unwrap(); // the king slides onto the corner
    assert_eq!(g.result(), Some(&GameResult::DefendersWin));
    assert!(g.is_game_over());
    assert_eq!(g.move_count(), 8);
}

#[test]
fn occupied_destination_is_invalid_and_state_unchanged() {
    let mut g = GameState::new_brandubh();
    let before = g.legal_moves();
    let err = g.make_move(mv(0, 3, 1, 3)).unwrap_err();
    assert_eq!(err, GameError::InvalidMove);
    assert_eq!(g.move_count(), 0);
    assert_eq!(g.current_player(), Player::Attackers);
    assert_eq!(g.get_piece(Position::new(0, 3)), Some(Piece::Attacker));
    assert_eq!(g.get_piece(Position::new(1, 3)), Some(Piece::Attacker));
    assert_eq!(g.legal_moves(), before);
}

#[test]
fn more_invalid_moves_are_rejected() {
    let mut g = GameState::new_brandubh();
    // Diagonal.
    assert_eq!(g.make_move(mv(0, 3, 1, 4)).unwrap_err(), GameError::InvalidMove);
    // Empty origin.
    assert_eq!(g.make_move(mv(2, 2, 2, 1)).unwrap_err(), GameError::InvalidMove);
    // Not the side to move.
    assert_eq!(g.make_move(mv(3, 2, 2, 2)).unwrap_err(), GameError::InvalidMove);
    // Destination off the board.
    assert_eq!(g.make_move(mv(0, 3, 0, 9)).unwrap_err(), GameError::InvalidMove);
    // Sliding over an occupied cell.
    assert_eq!(g.make_move(mv(0, 3, 3, 3)).unwrap_err(), GameError::InvalidMove);
    assert_eq!(g.move_count(), 0);
}

#[test]
fn moves_after_game_over_fail_without_mutation() {
    let mut g = GameState::new_brandubh();
    g.make_move(mv(6, 3, 6, 4)).unwrap();
    g.make_move(mv(2, 3, 2, 6)).unwrap();
    g.make_move(mv(6, 4, 6, 5)).unwrap();
    g.make_move(mv(3, 3, 2, 3)).unwrap();
    g.make_move(mv(6, 5, 5, 5)).unwrap();
    g.make_move(mv(2, 3, 2, 0)).unwrap();
    g.make_move(mv(5, 5, 4, 5)).unwrap();
    g.make_move(mv(2, 0, 0, 0)).unwrap();
    assert!(g.is_game_over());
    let count = g.move_count();
    let player = g.current_player();
    let err = g.make_move(mv(4, 5, 4, 4)).unwrap_err();
    assert_eq!(err, GameError::GameOver);
    assert_eq!(g.move_count(), count);
    assert_eq!(g.current_player(), player);
    assert_eq!(g.result(), Some(&GameResult::DefendersWin));
    assert_eq!(g.get_piece(Position::new(0, 0)), Some(Piece::King));
    assert!(g.legal_moves().is_empty());
}

#[test]
fn make_move_alternates_sides_and_counts() {
    let mut g = GameState::new_brandubh();
    assert_eq!(g.current_player(), Player::Attackers);
    g.make_move(mv(6, 3, 6, 4)).unwrap();
    assert_eq!(g.current_player(), Player::Defenders);
    assert_eq!(g.move_count(), 1);
    g.make_move(mv(3, 4, 1, 4)).unwrap();
    assert_eq!(g.current_player(), Player::Attackers);
    assert_eq!(g.move_count(), 2);
    // A rejected move changes neither.
    assert!(g.make_move(mv(0, 3, 1, 3)).is_err());
    assert_eq!(g.current_player(), Player::Attackers);
    assert_eq!(g.move_count(), 2);
}

#[test]
fn cloned_state_is_independent() {
    let g = GameState::new_copenhagen();
    let mut copy = g.clone();
    copy.make_move(mv(0, 3, 0, 2)).unwrap();
    assert_eq!(g.move_count(), 0);
    assert_eq!(copy.move_count(), 1);
    assert_eq!(g.get_piece(Position::new(0, 3)), Some(Piece::Attacker));
    assert_eq!(copy.get_piece(Position::new(0, 3)), None);
}

#[test]
fn display_board_shows_variant_and_pieces() {
    let g = GameState::new_brandubh();
    let text = g.display_board();
    assert!(text.contains("[Brandubh]"));
    assert!(text.contains("K"));
    assert!(text.contains("A"));
    assert!(text.contains("D"));
    assert!(text.contains("X"));
    let c = GameState::new_copenhagen().display_board();
    assert!(c.contains("[Copenhagen Hnefatafl]"));
}
