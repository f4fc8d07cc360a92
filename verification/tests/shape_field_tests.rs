use tetris::block::{BlockType, MinoDirection, MinoType, RotationType, HEIGHT, WIDTH};
use tetris::field::{clear_lines, copy_grid, erase_ghosts, erase_motion, human_can, is_row_full, same_grid};
use tetris::shapes::{kick_offsets, rotation};

fn cells(t: MinoType, d: MinoDirection) -> Vec<(usize, usize)> {
    let r = rotation(t, d);
    let mut v = Vec::new();
    for i in 0..4 {
        for j in 0..4 {
            if r[i][j] == 1 {
                v.push((i, j));
            }
        }
    }
    v
}

#[test]
fn every_shape_has_four_cells() {
    for t in [
        MinoType::MinoI,
        MinoType::MinoO,
        MinoType::MinoS,
        MinoType::MinoZ,
        MinoType::MinoJ,
        MinoType::MinoL,
        MinoType::MinoT,
    ] {
        for d in [MinoDirection::North, MinoDirection::East, MinoDirection::South, MinoDirection::West] {
            assert_eq!(cells(t, d).len(), 4);
        }
    }
}

#[test]
fn some_shapes() {
    assert_eq!(cells(MinoType::MinoT, MinoDirection::North), vec![(0, 1), (1, 0), (1, 1), (1, 2)]);
    assert_eq!(cells(MinoType::MinoI, MinoDirection::East), vec![(0, 2), (1, 2), (2, 2), (3, 2)]);
    assert_eq!(cells(MinoType::MinoO, MinoDirection::West), vec![(1, 1), (1, 2), (2, 1), (2, 2)]);
    assert_eq!(cells(MinoType::MinoS, MinoDirection::South), vec![(1, 1), (1, 2), (2, 0), (2, 1)]);
}

#[test]
fn kick_tables() {
    assert_eq!(
        kick_offsets(false, RotationType::RotateRight, MinoDirection::North),
        vec![(0, 0), (-1, 0), (-1, 1), (0, -2), (-1, -2)]
    );
    assert_eq!(
        kick_offsets(false, RotationType::RotateLeft, MinoDirection::South),
        vec![(0, 0), (-1, 0), (-1, 1), (0, -2), (-1, -2)]
    );
    assert_eq!(
        kick_offsets(true, RotationType::RotateRight, MinoDirection::West),
        vec![(0, 0), (1, 0), (-2, 0), (1, -2), (-2, 1)]
    );
    assert_eq!(kick_offsets(false, RotationType::Rotate180, MinoDirection::East).len(), 11);
    assert_eq!(
        kick_offsets(true, RotationType::Rotate180, MinoDirection::North),
        vec![(-1, 0), (-2, 0), (1, 0), (2, 0), (0, 1)]
    );
}

#[test]
fn hold_fields() {
    let e = BlockType::Empty;
    let o = BlockType::MinoBlock(MinoType::MinoO);
    assert_eq!(MinoType::MinoO.hold_field(), [[e, o, o, e], [e, o, o, e]]);
    let t = BlockType::MinoBlock(MinoType::MinoT);
    assert_eq!(MinoType::MinoT.hold_field(), [[e, t, e, e], [t, t, t, e]]);
    let i = BlockType::MinoBlock(MinoType::MinoI);
    assert_eq!(MinoType::MinoI.hold_field(), [[e, e, e, e], [i, i, i, i]]);
    let l = BlockType::MinoBlock(MinoType::MinoL);
    assert_eq!(MinoType::MinoL.hold_field(), [[e, e, l, e], [l, l, l, e]]);
}

#[test]
fn empty_field_size() {
    let f = BlockType::create_empty_field(WIDTH, HEIGHT);
    assert_eq!(f.len(), HEIGHT);
    assert_eq!(HEIGHT, 26);
    assert_eq!(WIDTH, 10);
    for row in &f {
        assert_eq!(row.len(), WIDTH);
        assert!(row.iter().all(|b| *b == BlockType::Empty));
    }
}

#[test]
fn empty_field_of_any_size() {
    let f = BlockType::create_empty_field(4, 3);
    assert_eq!(f, vec![vec![BlockType::Empty; 4]; 3]);
    assert!(BlockType::create_empty_field(7, 0).is_empty());
    assert_eq!(BlockType::create_empty_field(0, 2), vec![Vec::<BlockType>::new(); 2]);
}

#[test]
fn translation_marks_ones() {
    let v = vec![vec![0, 1, 0], vec![1, 1, 1], vec![2, 0, 1]];
    let f = BlockType::translation(v);
    let e = BlockType::Empty;
    let x = BlockType::Obstruction;
    assert_eq!(f, vec![vec![e, x, e], vec![x, x, x], vec![e, e, x]]);
}

#[test]
fn translation_uses_first_row_width() {
    let v = vec![vec![1, 1], vec![1], vec![1, 1, 1]];
    let f = BlockType::translation(v);
    let e = BlockType::Empty;
    let x = BlockType::Obstruction;
    assert_eq!(f, vec![vec![x, x], vec![x, e], vec![x, x]]);
}

#[test]
fn line_clearing() {
    let mut f = BlockType::create_empty_field(WIDTH, HEIGHT);
    for j in 0..WIDTH {
        f[25][j] = BlockType::Obstruction;
        f[23][j] = BlockType::MinoBlock(MinoType::MinoI);
    }
    f[24][0] = BlockType::Wall;
    f[22][3] = BlockType::Obstruction;
    f[23][5] = BlockType::Wall;
    assert!(is_row_full(&f[25]));
    assert!(!is_row_full(&f[24]));
    clear_lines(&mut f);
    assert_eq!(f.len(), HEIGHT);
    assert_eq!(f[25][0], BlockType::Wall);
    assert_eq!(f[24][3], BlockType::Obstruction);
    for i in 0..24 {
        assert_eq!(f[i].len(), WIDTH);
        assert!(f[i].iter().all(|b| *b == BlockType::Empty));
    }
    for row in &f {
        assert!(!is_row_full(row));
    }
}

#[test]
fn line_clearing_keeps_non_full_rows() {
    let mut f = BlockType::create_empty_field(WIDTH, HEIGHT);
    f[25][9] = BlockType::Obstruction;
    let before = copy_grid(&f);
    clear_lines(&mut f);
    assert!(same_grid(&f, &before));
}

#[test]
fn erasing() {
    let f = vec![vec![
        BlockType::MinoInMotion(MinoType::MinoT),
        BlockType::GhostBlock(MinoType::MinoT),
        BlockType::MinoBlock(MinoType::MinoT),
    ]];
    let m = erase_motion(&f);
    assert_eq!(m[0], vec![BlockType::Empty, BlockType::GhostBlock(MinoType::MinoT), BlockType::MinoBlock(MinoType::MinoT)]);
    let g = erase_ghosts(&f);
    assert_eq!(g[0], vec![BlockType::MinoInMotion(MinoType::MinoT), BlockType::Empty, BlockType::MinoBlock(MinoType::MinoT)]);
}

#[test]
fn text_drawing() {
    let f = vec![
        vec![BlockType::Empty, BlockType::MinoInMotion(MinoType::MinoT)],
        vec![BlockType::Wall, BlockType::GhostBlock(MinoType::MinoT)],
        vec![BlockType::Obstruction, BlockType::MinoBlock(MinoType::MinoI)],
    ];
    assert_eq!(human_can(&f), "\u{25a1}\u{25c6}\n\u{25a0}\u{25c7}\n\u{25a0}\u{25a0}\n");
    let empty: Vec<Vec<BlockType>> = Vec::new();
    assert_eq!(human_can(&empty), "");
}

#[test]
fn comparing_fields() {
    let a = BlockType::create_empty_field(WIDTH, HEIGHT);
    let mut b = copy_grid(&a);
    assert!(same_grid(&a, &b));
    b[3][3] = BlockType::Wall;
    assert!(!same_grid(&a, &b));
    b.pop();
    assert!(!same_grid(&a, &b));
}
