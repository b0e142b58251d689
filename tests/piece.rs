use tetris::tetris::piece::{Dir, Piece, Pieces, Pos, Rotate};
use tetris::tetris::Tetris;

fn cells(p: &Piece) -> Vec<(i8, i8)> {
    p.get_bits_pos().iter().map(|q| (q.0, q.1)).collect()
}

#[test]
fn kinds_by_number() {
    assert_eq!(Pieces::from_index(0), Pieces::NormalL);
    assert_eq!(Pieces::from_index(1), Pieces::ReverseL);
    assert_eq!(Pieces::from_index(2), Pieces::Cube);
    assert_eq!(Pieces::from_index(3), Pieces::Tee);
    assert_eq!(Pieces::from_index(4), Pieces::Diag);
    assert_eq!(Pieces::from_index(5), Pieces::ReverseDiag);
    assert_eq!(Pieces::from_index(6), Pieces::Straight);
    assert_eq!(Pieces::from_index(7), Pieces::NormalL);
    assert_eq!(Pieces::from_index(255), Pieces::NormalL);
}

#[test]
fn random_kinds_vary() {
    let mut seen = Vec::new();
    for _ in 0..300 {
        let k = Pieces::random();
        if !seen.contains(&k) {
            seen.push(k);
        }
    }
    assert!(seen.len() > 1);
}

#[test]
fn random_piece_is_alive_at_its_anchor() {
    let p = Piece::random(Pos(-2, 3));
    assert!(p.is_alive());
    assert_eq!(p.get_pos(), Pos(-2, 3));
    assert_eq!(p.get_bits_pos().len(), 4);
}

#[test]
fn cells_of_each_kind() {
    let at = Pos(0, 0);
    assert_eq!(cells(&Piece::new(Pieces::Cube, at)), vec![(0, 2), (0, 3), (1, 2), (1, 3)]);
    assert_eq!(cells(&Piece::new(Pieces::Straight, at)), vec![(-1, 2), (0, 2), (1, 2), (2, 2)]);
    assert_eq!(cells(&Piece::new(Pieces::NormalL, at)), vec![(0, 2), (1, 2), (2, 1), (2, 2)]);
    assert_eq!(cells(&Piece::new(Pieces::ReverseL, at)), vec![(0, 2), (1, 2), (2, 2), (2, 3)]);
    assert_eq!(cells(&Piece::new(Pieces::Tee, at)), vec![(0, 2), (1, 1), (1, 2), (1, 3)]);
    assert_eq!(cells(&Piece::new(Pieces::Diag, at)), vec![(0, 1), (0, 2), (1, 2), (1, 3)]);
    assert_eq!(cells(&Piece::new(Pieces::ReverseDiag, at)), vec![(0, 2), (0, 3), (1, 1), (1, 2)]);
}

#[test]
fn cells_follow_the_anchor() {
    let p = Piece::new(Pieces::Cube, Pos(-2, 3));
    assert_eq!(cells(&p), vec![(-2, 5), (-2, 6), (-1, 5), (-1, 6)]);
}

#[test]
fn free_moves_shift_the_anchor() {
    let t = Tetris::new();
    let mut p = Piece::new(Pieces::Cube, Pos(0, 3));
    p.move_dir(Dir::Down, &t);
    assert_eq!(p.get_pos(), Pos(1, 3));
    p.move_dir(Dir::Left, &t);
    assert_eq!(p.get_pos(), Pos(1, 2));
    p.move_dir(Dir::Right, &t);
    p.move_dir(Dir::Right, &t);
    assert_eq!(p.get_pos(), Pos(1, 4));
    p.move_dir(Dir::Stay, &t);
    assert_eq!(p.get_pos(), Pos(1, 4));
    assert!(p.is_alive());
}

#[test]
fn moving_down_past_the_floor_kills() {
    let t = Tetris::new();
    let mut p = Piece::new(Pieces::Cube, Pos(17, 3));
    p.move_dir(Dir::Down, &t);
    assert!(p.is_alive());
    assert_eq!(p.get_pos(), Pos(18, 3));
    p.move_dir(Dir::Down, &t);
    assert!(!p.is_alive());
    assert_eq!(p.get_pos(), Pos(18, 3));
}

#[test]
fn moving_down_onto_a_stack_kills() {
    let mut t = Tetris::new();
    t.set_grid(Pos(10, 5), 1);
    let mut p = Piece::new(Pieces::Cube, Pos(8, 3));
    p.move_dir(Dir::Down, &t);
    assert!(!p.is_alive());
    assert_eq!(p.get_pos(), Pos(8, 3));
}

#[test]
fn sideways_into_a_wall_is_refused_but_not_lethal() {
    let t = Tetris::new();
    let mut p = Piece::new(Pieces::Cube, Pos(0, -2));
    assert_eq!(cells(&p), vec![(0, 0), (0, 1), (1, 0), (1, 1)]);
    p.move_dir(Dir::Left, &t);
    assert!(p.is_alive());
    assert_eq!(p.get_pos(), Pos(0, -2));
    let mut q = Piece::new(Pieces::Cube, Pos(0, 6));
    assert_eq!(cells(&q), vec![(0, 8), (0, 9), (1, 8), (1, 9)]);
    q.move_dir(Dir::Right, &t);
    assert!(q.is_alive());
    assert_eq!(q.get_pos(), Pos(0, 6));
}

#[test]
fn sideways_into_a_stack_is_refused_but_not_lethal() {
    let mut t = Tetris::new();
    t.set_grid(Pos(5, 7), 1);
    let mut p = Piece::new(Pieces::Cube, Pos(4, 3));
    p.move_dir(Dir::Right, &t);
    assert!(p.is_alive());
    assert_eq!(p.get_pos(), Pos(4, 3));
    p.move_dir(Dir::Left, &t);
    assert_eq!(p.get_pos(), Pos(4, 2));
}

#[test]
fn a_dead_piece_does_not_move() {
    let t = Tetris::new();
    let mut p = Piece::new(Pieces::Cube, Pos(18, 3));
    p.move_dir(Dir::Down, &t);
    assert!(!p.is_alive());
    p.move_dir(Dir::Left, &t);
    assert_eq!(p.get_pos(), Pos(18, 3));
    assert!(!p.is_alive());
}

#[test]
fn rotation_turns_the_shape() {
    let t = Tetris::new();
    let mut p = Piece::new(Pieces::Straight, Pos(5, 0));
    p.rotate(Rotate::Right, &t);
    assert_eq!(cells(&p), vec![(6, 1), (6, 2), (6, 3), (6, 4)]);
    assert!(p.is_alive());
    p.rotate(Rotate::Left, &t);
    assert_eq!(cells(&p), vec![(4, 2), (5, 2), (6, 2), (7, 2)]);
}

#[test]
fn rotation_left_then_right_restores_the_shape() {
    let t = Tetris::new();
    let mut p = Piece::new(Pieces::NormalL, Pos(5, 3));
    let before = cells(&p);
    p.rotate(Rotate::Left, &t);
    assert_ne!(cells(&p), before);
    p.rotate(Rotate::Right, &t);
    assert_eq!(cells(&p), before);
}

#[test]
fn rotation_into_a_wall_is_refused() {
    let t = Tetris::new();
    let mut p = Piece::new(Pieces::Straight, Pos(5, 6));
    let before = cells(&p);
    p.rotate(Rotate::Right, &t);
    assert_eq!(cells(&p), before);
    assert!(p.is_alive());
}

#[test]
fn rotation_into_a_stack_is_refused() {
    let mut t = Tetris::new();
    t.set_grid(Pos(6, 4), 1);
    let mut p = Piece::new(Pieces::Straight, Pos(5, 0));
    let before = cells(&p);
    p.rotate(Rotate::Right, &t);
    assert_eq!(cells(&p), before);
    assert!(p.is_alive());
}

#[test]
fn rotation_past_the_floor_is_refused_and_kills() {
    let t = Tetris::new();
    let mut p = Piece::new(Pieces::Straight, Pos(17, 3));
    p.rotate(Rotate::Right, &t);
    let flat = vec![(18, 4), (18, 5), (18, 6), (18, 7)];
    assert_eq!(cells(&p), flat);
    assert!(p.is_alive());
    p.rotate(Rotate::Right, &t);
    assert_eq!(cells(&p), flat);
    assert!(!p.is_alive());
}

#[test]
fn cube_turns_about_its_center_cell() {
    let t = Tetris::new();
    let mut p = Piece::new(Pieces::Cube, Pos(5, 3));
    assert_eq!(cells(&p), vec![(5, 5), (5, 6), (6, 5), (6, 6)]);
    p.rotate(Rotate::Right, &t);
    assert_eq!(cells(&p), vec![(6, 5), (6, 6), (7, 5), (7, 6)]);
}

#[test]
fn stamping_writes_every_cell() {
    let mut t = Tetris::new();
    let mut p = Piece::new(Pieces::Cube, Pos(18, 3));
    assert!(p.apply_to_grid(&mut t));
    assert!(p.is_alive());
    for (r, c) in [(18, 5), (18, 6), (19, 5), (19, 6)] {
        assert_eq!(t.get_grid_pos(Pos(r, c)), 1);
    }
    let total: i32 = t.return_grid().iter().flatten().map(|c| *c as i32).sum();
    assert_eq!(total, 4);
}

#[test]
fn stamping_above_the_field_loses_and_writes_nothing() {
    let mut t = Tetris::new();
    let mut p = Piece::new(Pieces::Cube, Pos(-1, 3));
    assert!(!p.apply_to_grid(&mut t));
    assert!(!p.is_alive());
    assert_eq!(t.return_grid(), Tetris::new().return_grid());
}

#[test]
fn set_pos_moves_the_anchor_only() {
    let mut p = Piece::new(Pieces::Tee, Pos(3, 13));
    p.set_pos(Pos(-2, 3));
    assert_eq!(p.get_pos(), Pos(-2, 3));
    assert_eq!(cells(&p), vec![(-2, 5), (-1, 4), (-1, 5), (-1, 6)]);
    assert!(p.is_alive());
}

#[test]
fn square_falls_to_the_floor_and_lands() {
    let mut t = Tetris::new();
    let mut p = Piece::new(Pieces::Cube, Pos(-2, 3));
    let mut steps = 0;
    while p.is_alive() {
        p.move_dir(Dir::Down, &t);
        steps += 1;
        assert!(steps < 100);
    }
    assert_eq!(p.get_pos(), Pos(18, 3));
    assert_eq!(steps, 21);
    let bottom = p.get_bits_pos().iter().map(|q| q.0).max().unwrap();
    assert_eq!(bottom, 19);
    assert!(p.apply_to_grid(&mut t));
    let total: i32 = t.return_grid().iter().flatten().map(|c| *c as i32).sum();
    assert_eq!(total, 4);
    let next = Piece::random(Pos(-2, 3));
    assert!(next.is_alive());
    assert_eq!(next.get_pos(), Pos(-2, 3));
}

#[test]
fn square_lands_on_a_stack() {
    let mut t = Tetris::new();
    t.set_grid(Pos(12, 6), 1);
    let mut p = Piece::new(Pieces::Cube, Pos(-2, 3));
    while p.is_alive() {
        p.move_dir(Dir::Down, &t);
    }
    assert_eq!(p.get_pos(), Pos(10, 3));
    assert!(p.apply_to_grid(&mut t));
    assert_eq!(t.get_grid_pos(Pos(11, 6)), 1);
    assert_eq!(t.get_grid_pos(Pos(10, 5)), 1);
}

#[test]
fn filling_the_gap_clears_the_row() {
    let mut t = Tetris::new();
    for c in 0..10 {
        if c != 5 {
            t.set_grid(Pos(19, c), 1);
        }
    }
    t.set_grid(Pos(18, 0), 1);
    let mut p = Piece::new(Pieces::Straight, Pos(-2, 3));
    while p.is_alive() {
        p.move_dir(Dir::Down, &t);
    }
    assert_eq!(p.get_pos(), Pos(17, 3));
    assert!(p.apply_to_grid(&mut t));
    assert_eq!(t.check_lines(), 1);
    let g = t.return_grid();
    assert_eq!(g[19][0], 1);
    assert_eq!(g[19][5], 1);
    assert_eq!(g[18][5], 1);
    assert_eq!(g[17][5], 1);
    assert_eq!(g[16][5], 0);
    let total: i32 = g.iter().flatten().map(|c| *c as i32).sum();
    assert_eq!(total, 4);
}
