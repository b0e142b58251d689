use tetris::game::{Game, LOW_TICKRATE, PREVIEW_COL, PREVIEW_ROW, SPAWN_COL, SPAWN_ROW, START_TICKRATE};
use tetris::tetris::piece::{Dir, Piece, Pieces, Pos};
use tetris::tetris::Tetris;

#[test]
fn new_game_has_no_score() {
    let g = Game::new();
    assert_eq!(g.get_score(), 0);
    assert_eq!(g.get_tickrate(), START_TICKRATE);
}

#[test]
fn score_grows_by_the_square_of_the_lines() {
    let mut g = Game::new();
    g.add_lines(2);
    assert_eq!(g.get_score(), 4);
    assert_eq!(g.get_tickrate(), 950);
    g.add_lines(3);
    assert_eq!(g.get_score(), 13);
    assert_eq!(g.get_tickrate(), 875);
    g.add_lines(0);
    assert_eq!(g.get_score(), 13);
    assert_eq!(g.get_tickrate(), 875);
}

#[test]
fn tickrate_has_a_floor() {
    let mut g = Game::new();
    g.set_tickrate(100);
    assert_eq!(g.get_tickrate(), LOW_TICKRATE);
    g.set_tickrate(400);
    assert_eq!(g.get_tickrate(), 400);
    for _ in 0..20 {
        g.add_lines(4);
    }
    assert_eq!(g.get_tickrate(), LOW_TICKRATE);
    g.add_lines(255);
    assert_eq!(g.get_tickrate(), LOW_TICKRATE);
}

#[test]
fn score_saturates() {
    let mut g = Game::new();
    g.set_score(u64::MAX - 1);
    g.add_lines(2);
    assert_eq!(g.get_score(), u64::MAX);
}

#[test]
fn update_leaves_a_falling_piece_alone() {
    let mut g = Game::new();
    let mut t = Tetris::new();
    let mut p = Piece::new(Pieces::Tee, Pos(4, 3));
    let mut n = Piece::new(Pieces::Diag, Pos(PREVIEW_ROW, PREVIEW_COL));
    assert!(g.update(&mut t, &mut p, &mut n));
    assert!(p.is_alive());
    assert_eq!(p.get_pos(), Pos(4, 3));
    assert_eq!(n.get_pos(), Pos(PREVIEW_ROW, PREVIEW_COL));
    assert_eq!(t.return_grid(), Tetris::new().return_grid());
    assert_eq!(g.get_score(), 0);
}

#[test]
fn update_lands_clears_and_scores() {
    let mut g = Game::new();
    let mut t = Tetris::new();
    for r in [18, 19] {
        for c in 0..10 {
            if c != 5 && c != 6 {
                t.set_grid(Pos(r, c), 1);
            }
        }
    }
    let mut p = Piece::new(Pieces::Cube, Pos(SPAWN_ROW, SPAWN_COL));
    while p.is_alive() {
        p.move_dir(Dir::Down, &t);
    }
    let mut n = Piece::new(Pieces::Straight, Pos(PREVIEW_ROW, PREVIEW_COL));
    assert!(g.update(&mut t, &mut p, &mut n));
    assert_eq!(t.return_grid(), Tetris::new().return_grid());
    assert_eq!(g.get_score(), 4);
    assert_eq!(g.get_tickrate(), 950);
    assert!(p.is_alive());
    assert_eq!(p.get_pos(), Pos(SPAWN_ROW, SPAWN_COL));
    let cells: Vec<(i8, i8)> = p.get_bits_pos().iter().map(|q| (q.0, q.1)).collect();
    assert_eq!(cells, vec![(-3, 5), (-2, 5), (-1, 5), (0, 5)]);
    assert!(n.is_alive());
    assert_eq!(n.get_pos(), Pos(PREVIEW_ROW, PREVIEW_COL));
}

#[test]
fn update_reports_a_lost_game() {
    let mut g = Game::new();
    let mut t = Tetris::new();
    t.set_grid(Pos(1, 5), 1);
    let mut p = Piece::new(Pieces::Cube, Pos(SPAWN_ROW, SPAWN_COL));
    while p.is_alive() {
        p.move_dir(Dir::Down, &t);
    }
    assert_eq!(p.get_pos(), Pos(-1, 3));
    let mut n = Piece::new(Pieces::Straight, Pos(PREVIEW_ROW, PREVIEW_COL));
    assert!(!g.update(&mut t, &mut p, &mut n));
    assert!(!p.is_alive());
    assert_eq!(t.get_grid_pos(Pos(0, 5)), 0);
    assert_eq!(t.get_grid_pos(Pos(1, 5)), 1);
    assert_eq!(g.get_score(), 0);
}
