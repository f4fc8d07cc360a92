use tetris::block::{BlockType, MinoDirection, MinoState, MinoType, MoveMessage, RotationType, HEIGHT, WIDTH};
use tetris::mino::Mino;

fn piece_cells(m: &Mino) -> Vec<(usize, usize, BlockType)> {
    let mut v = Vec::new();
    for (i, row) in m.field.iter().enumerate() {
        for (j, b) in row.iter().enumerate() {
            match b {
                BlockType::MinoInMotion(_) | BlockType::MinoBlock(_) | BlockType::GhostBlock(_) => {
                    v.push((i, j, *b))
                }
                _ => {}
            }
        }
    }
    v
}

fn empty() -> Vec<Vec<BlockType>> {
    BlockType::create_empty_field(WIDTH, HEIGHT)
}

#[test]
fn new_piece_appears_at_the_top() {
    let m = Mino::new(MinoType::MinoT, &empty()).unwrap();
    assert_eq!((m.x, m.y), (3, 5));
    assert_eq!(m.mino_direction, MinoDirection::North);
    assert_eq!(m.state, MinoState::InMotion);
    assert!(!m.is_fixed());
    assert_eq!(m.get_mino_type(), MinoType::MinoT);
    assert!(m.does_rotate);
    assert_eq!(m.minimum_y, 5);
    let t = BlockType::MinoInMotion(MinoType::MinoT);
    assert_eq!(piece_cells(&m), vec![(5, 4, t), (6, 3, t), (6, 4, t), (6, 5, t)]);
}

#[test]
fn o_piece_does_not_rotate() {
    let mut m = Mino::new(MinoType::MinoO, &empty()).unwrap();
    assert!(!m.does_rotate);
    let before = piece_cells(&m);
    assert!(m.move_order(MoveMessage::RotateRight).is_ok());
    assert_eq!(m.mino_direction, MinoDirection::North);
    assert_eq!(piece_cells(&m), before);
    assert_eq!(m.get_offsets(RotationType::RotateRight).0, None);
    assert_eq!(m.get_offsets(RotationType::RotateRight).1, MinoDirection::East);
}

#[test]
fn new_piece_blocked() {
    let mut f = empty();
    f[6][4] = BlockType::Obstruction;
    assert!(Mino::new(MinoType::MinoT, &f).is_err());
    let mut g = empty();
    g[7][4] = BlockType::Obstruction;
    assert!(Mino::new(MinoType::MinoT, &g).is_ok());
}

#[test]
fn new_piece_ignores_old_falling_cells() {
    let mut f = empty();
    f[6][4] = BlockType::MinoInMotion(MinoType::MinoZ);
    f[20][0] = BlockType::MinoInMotion(MinoType::MinoZ);
    let m = Mino::new(MinoType::MinoT, &f).unwrap();
    assert_eq!(m.field[20][0], BlockType::Empty);
    assert_eq!(m.field[6][4], BlockType::MinoInMotion(MinoType::MinoT));
}

#[test]
fn sideways_until_the_wall() {
    let mut m = Mino::new(MinoType::MinoT, &empty()).unwrap();
    assert!(m.can_move_order(MoveMessage::Left));
    assert!(m.move_order(MoveMessage::Left).is_ok());
    assert!(m.move_order(MoveMessage::Left).is_ok());
    assert!(m.move_order(MoveMessage::Left).is_ok());
    assert_eq!(m.x, 0);
    assert!(!m.can_move_order(MoveMessage::Left));
    assert!(m.move_order(MoveMessage::Left).is_err());
    assert_eq!(m.x, 0);
    for _ in 0..7 {
        assert!(m.move_order(MoveMessage::Right).is_ok());
    }
    assert_eq!(m.x, 7);
    assert!(m.move_order(MoveMessage::Right).is_err());
    let t = BlockType::MinoInMotion(MinoType::MinoT);
    assert_eq!(piece_cells(&m), vec![(5, 8, t), (6, 7, t), (6, 8, t), (6, 9, t)]);
}

#[test]
fn down_to_the_floor() {
    let mut m = Mino::new(MinoType::MinoT, &empty()).unwrap();
    let mut n = 0;
    while m.move_order(MoveMessage::Down).is_ok() {
        n += 1;
    }
    assert_eq!(n, 19);
    assert_eq!(m.y, 24);
    assert_eq!(m.minimum_y, 24);
    assert!(m.is_hitting_ground());
    assert!(!m.can_move_order(MoveMessage::Down));
}

#[test]
fn rotate_right_in_place() {
    let mut m = Mino::new(MinoType::MinoT, &empty()).unwrap();
    assert!(m.can_move_order(MoveMessage::RotateRight));
    assert!(m.move_order(MoveMessage::RotateRight).is_ok());
    assert_eq!((m.x, m.y, m.mino_direction), (3, 5, MinoDirection::East));
    let t = BlockType::MinoInMotion(MinoType::MinoT);
    assert_eq!(piece_cells(&m), vec![(5, 4, t), (6, 4, t), (6, 5, t), (7, 4, t)]);
}

#[test]
fn half_turn_kicks_first_offset() {
    let mut m = Mino::new(MinoType::MinoT, &empty()).unwrap();
    assert!(m.move_order(MoveMessage::Rotate180).is_ok());
    assert_eq!((m.x, m.y, m.mino_direction), (4, 5, MinoDirection::South));
}

#[test]
fn i_piece_turns() {
    let mut m = Mino::new(MinoType::MinoI, &empty()).unwrap();
    let i = BlockType::MinoInMotion(MinoType::MinoI);
    assert_eq!(piece_cells(&m), vec![(6, 3, i), (6, 4, i), (6, 5, i), (6, 6, i)]);
    assert!(m.move_order(MoveMessage::RotateRight).is_ok());
    assert_eq!(m.mino_direction, MinoDirection::East);
    assert_eq!(piece_cells(&m), vec![(5, 5, i), (6, 5, i), (7, 5, i), (8, 5, i)]);
    assert!(m.move_order(MoveMessage::RotateLeft).is_ok());
    assert_eq!(m.mino_direction, MinoDirection::North);
    assert_eq!(piece_cells(&m), vec![(6, 3, i), (6, 4, i), (6, 5, i), (6, 6, i)]);
}

#[test]
fn kick_off_the_wall() {
    let mut m = Mino::new(MinoType::MinoT, &empty()).unwrap();
    assert!(m.move_order(MoveMessage::RotateLeft).is_ok());
    assert_eq!(m.mino_direction, MinoDirection::West);
    while m.move_order(MoveMessage::Right).is_ok() {}
    assert_eq!(m.x, 8);
    assert!(m.move_order(MoveMessage::RotateLeft).is_ok());
    assert_eq!(m.mino_direction, MinoDirection::South);
    assert_eq!((m.x, m.y), (7, 5));
}

#[test]
fn blocked_rotation_fails_and_changes_nothing() {
    let mut f = empty();
    for i in 0..26 {
        for j in 0..10 {
            f[i][j] = BlockType::Obstruction;
        }
    }
    for (i, j) in [(5, 4), (6, 3), (6, 4), (6, 5)] {
        f[i][j] = BlockType::Empty;
    }
    let mut m = Mino::new(MinoType::MinoT, &f).unwrap();
    let before = m.field.clone();
    assert!(!m.can_move_order(MoveMessage::RotateRight));
    assert!(m.move_order(MoveMessage::RotateRight).is_err());
    assert!(m.move_order(MoveMessage::Rotate180).is_err());
    assert!(m.move_order(MoveMessage::Down).is_err());
    assert_eq!(m.field, before);
    assert_eq!((m.x, m.y, m.mino_direction), (3, 5, MinoDirection::North));
}

#[test]
fn fixing_locks_the_cells() {
    let mut m = Mino::new(MinoType::MinoS, &empty()).unwrap();
    assert!(m.can_move_order(MoveMessage::Fix));
    assert!(m.move_order(MoveMessage::Fix).is_ok());
    assert!(m.is_fixed());
    let s = BlockType::MinoBlock(MinoType::MinoS);
    assert_eq!(piece_cells(&m), vec![(5, 4, s), (5, 5, s), (6, 3, s), (6, 4, s)]);
    assert!(m.move_order(MoveMessage::Down).is_err());
}

#[test]
fn ghost_marks_the_landing() {
    let mut m = Mino::new(MinoType::MinoO, &empty()).unwrap();
    m.draw_ghost();
    let g = BlockType::GhostBlock(MinoType::MinoO);
    let o = BlockType::MinoInMotion(MinoType::MinoO);
    assert_eq!(
        piece_cells(&m),
        vec![(6, 4, o), (6, 5, o), (7, 4, o), (7, 5, o), (24, 4, g), (24, 5, g), (25, 4, g), (25, 5, g)]
    );
    assert!(m.move_order(MoveMessage::Left).is_ok());
    m.draw_ghost();
    assert_eq!(m.field[25][4], BlockType::GhostBlock(MinoType::MinoO));
    assert_eq!(m.field[25][3], BlockType::GhostBlock(MinoType::MinoO));
    assert_eq!(m.field[25][5], BlockType::Empty);
}

#[test]
fn ghost_stops_on_blocks() {
    let mut f = empty();
    f[15][4] = BlockType::Obstruction;
    let mut m = Mino::new(MinoType::MinoO, &f).unwrap();
    m.draw_ghost();
    let g = BlockType::GhostBlock(MinoType::MinoO);
    assert_eq!(m.field[13][4], g);
    assert_eq!(m.field[14][5], g);
    assert_eq!(m.field[25][4], BlockType::Empty);
}

#[test]
fn positions() {
    let mut m = Mino::new(MinoType::MinoJ, &empty()).unwrap();
    m.set_position(1, 2);
    assert_eq!((m.x, m.y), (1, 2));
    m.set_appearance_position();
    assert_eq!((m.x, m.y), (3, 5));
    assert!(m.can_replace(0, 0, MinoDirection::North));
    assert!(!m.can_replace(-1, 0, MinoDirection::North));
    assert!(!m.can_replace(0, 25, MinoDirection::North));
    let placed = m.replace_common(0, 0, MinoDirection::East).unwrap();
    assert_eq!((placed.0, placed.1, placed.2), (0, 0, MinoDirection::East));
    let j = BlockType::MinoInMotion(MinoType::MinoJ);
    assert_eq!(placed.3[0][1], j);
    assert_eq!(placed.3[0][2], j);
    assert_eq!(placed.3[2][1], j);
    assert_eq!(placed.3[6][3], BlockType::Empty);
}

#[test]
fn moving_there_and_back() {
    let mut m = Mino::new(MinoType::MinoZ, &empty()).unwrap();
    m.draw_ghost();
    let before = m.field.clone();
    assert!(m.move_order(MoveMessage::Left).is_ok());
    assert_ne!(m.field, before);
    assert!(m.move_order(MoveMessage::Right).is_ok());
    assert_eq!((m.x, m.y, m.mino_direction), (3, 5, MinoDirection::North));
    assert_eq!(m.field, before);
}

#[test]
fn moving_back_clears_ghost_passed_over() {
    let mut m = Mino::new(MinoType::MinoO, &empty()).unwrap();
    while m.y < 21 {
        assert!(m.move_order(MoveMessage::Down).is_ok());
    }
    m.draw_ghost();
    assert_eq!(m.field[24][4], BlockType::GhostBlock(MinoType::MinoO));
    assert!(m.move_order(MoveMessage::Down).is_ok());
    assert!(m.move_order(MoveMessage::Down).is_ok());
    assert!(m.move_order(MoveMessage::Down).is_err());
    assert_eq!(m.y, 23);
    assert!(m.move_order(MoveMessage::Left).is_ok());
    assert!(m.move_order(MoveMessage::Right).is_ok());
    assert_eq!(m.field[25][4], BlockType::MinoInMotion(MinoType::MinoO));
}

#[test]
fn hard_drop_lands_on_the_ghost() {
    let mut f = empty();
    f[18][5] = BlockType::Obstruction;
    let mut m = Mino::new(MinoType::MinoL, &f).unwrap();
    m.draw_ghost();
    let ghost: Vec<(usize, usize)> = piece_cells(&m)
        .into_iter()
        .filter(|c| matches!(c.2, BlockType::GhostBlock(_)))
        .map(|c| (c.0, c.1))
        .collect();
    while m.move_order(MoveMessage::Down).is_ok() {}
    assert!(m.is_hitting_ground());
    let landed: Vec<(usize, usize)> = piece_cells(&m)
        .into_iter()
        .filter(|c| matches!(c.2, BlockType::MinoInMotion(_)))
        .map(|c| (c.0, c.1))
        .collect();
    assert_eq!(ghost, landed);
    assert_eq!(landed, vec![(16, 5), (17, 3), (17, 4), (17, 5)]);
}

#[test]
fn places_far_outside_the_field_do_not_fit() {
    let m = Mino::new(MinoType::MinoT, &empty()).unwrap();
    assert!(m.replace_common(i64::MAX - 6, 5, MinoDirection::North).is_err());
    assert!(m.replace_common(3, i64::MAX - 4, MinoDirection::North).is_err());
    assert!(m.replace_common(i64::MIN, 5, MinoDirection::North).is_err());
    assert!(!m.can_replace(3, i64::MIN, MinoDirection::East));
    let mut n = m.clone();
    assert!(n.replace(i64::MAX - 4, i64::MAX - 4, MinoDirection::South).is_err());
    assert_eq!((n.x, n.y), (3, 5));
}

#[test]
fn moves_keep_kind_and_lock_only_on_fix() {
    let mut m = Mino::new(MinoType::MinoL, &empty()).unwrap();
    let run = [
        MoveMessage::Left,
        MoveMessage::RotateRight,
        MoveMessage::Down,
        MoveMessage::Rotate180,
        MoveMessage::Right,
        MoveMessage::RotateLeft,
    ];
    for msg in run {
        let _ = m.move_order(msg);
        assert_eq!(m.get_mino_type(), MinoType::MinoL);
        assert!(!m.is_fixed());
    }
    assert!(m.move_order(MoveMessage::Fix).is_ok());
    assert!(m.is_fixed());
    assert_eq!(m.get_mino_type(), MinoType::MinoL);
}

#[test]
fn o_piece_turns_in_place() {
    let mut m = Mino::new(MinoType::MinoO, &empty()).unwrap();
    let before = m.clone();
    for rt in [RotationType::RotateRight, RotationType::RotateLeft, RotationType::Rotate180] {
        assert!(m.can_move_order(MoveMessage::RotateRight));
        assert!(m.rotate(rt).is_ok());
        assert_eq!((m.x, m.y, m.mino_direction), (before.x, before.y, before.mino_direction));
        assert_eq!(m.field, before.field);
    }
}

#[test]
fn drawing_the_ghost_twice_is_drawing_it_once() {
    let mut f = empty();
    f[25][0] = BlockType::Obstruction;
    f[20][7] = BlockType::MinoBlock(MinoType::MinoI);
    let mut m = Mino::new(MinoType::MinoJ, &f).unwrap();
    assert!(m.move_order(MoveMessage::RotateRight).is_ok());
    m.draw_ghost();
    let once = m.field.clone();
    m.draw_ghost();
    assert_eq!(m.field, once);
}

#[test]
fn left_then_right_without_ghost_restores_everything() {
    let mut f = empty();
    f[24][2] = BlockType::Obstruction;
    let mut m = Mino::new(MinoType::MinoS, &f).unwrap();
    let before = m.field.clone();
    assert!(m.move_order(MoveMessage::Left).is_ok());
    assert!(m.move_order(MoveMessage::Right).is_ok());
    assert_eq!((m.x, m.y, m.mino_direction), (3, 5, MinoDirection::North));
    assert_eq!(m.field, before);
    assert!(m.move_order(MoveMessage::Right).is_ok());
    assert!(m.move_order(MoveMessage::Left).is_ok());
    assert_eq!(m.field, before);
}
