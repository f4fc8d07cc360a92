use tetris::block::{BlockType, KeyStatePlus, KeyType, MinoDirection, MinoState, MinoType, Settings, HEIGHT, WIDTH};
use tetris::field::human_can;
use tetris::manager::TetrisManager;
use tetris::mino::Mino;

const BAG: [MinoType; 7] = [
    MinoType::MinoI,
    MinoType::MinoO,
    MinoType::MinoS,
    MinoType::MinoZ,
    MinoType::MinoJ,
    MinoType::MinoL,
    MinoType::MinoT,
];

fn stock() -> Vec<MinoType> {
    let mut v = BAG.to_vec();
    v.extend(BAG.iter().cloned());
    v.extend(BAG.iter().cloned());
    v
}

fn game_with(t: MinoType, field: Vec<Vec<BlockType>>) -> TetrisManager {
    let mut g = TetrisManager::default();
    g.tetris_variable_container.mino = Mino::new(t, &field).unwrap();
    g.random_generator.stock = stock();
    g
}

fn count(g: &TetrisManager, f: fn(&BlockType) -> bool) -> usize {
    g.tetris_variable_container.mino.field.iter().map(|r| r.iter().filter(|b| f(b)).count()).sum()
}

fn falling(b: &BlockType) -> bool {
    matches!(b, BlockType::MinoInMotion(_))
}

fn locked(b: &BlockType) -> bool {
    matches!(b, BlockType::MinoBlock(_))
}

#[test]
fn a_new_game() {
    let mut g = TetrisManager::default();
    assert!(!g.get_is_finished());
    assert_eq!(g.key_states, vec![KeyStatePlus::Up; 8]);
    assert_eq!(g.random_generator.get_size_generated(), 20);
    let m = &g.tetris_variable_container.mino;
    assert_eq!((m.x, m.y, m.mino_direction, m.state), (3, 5, MinoDirection::North, MinoState::InMotion));
    assert_eq!(count(&g, falling), 4);
    let (field, preview, hold) = g.get_data_to_draw(7);
    assert_eq!(field.len(), HEIGHT);
    assert_eq!(field[0].len(), WIDTH);
    assert_eq!(preview.len(), 7);
    assert_eq!(hold, None);
}

#[test]
fn keys_are_recorded() {
    let mut g = TetrisManager::default();
    g.send_key(KeyType::Hold, true);
    assert_eq!(g.key_states[7], KeyStatePlus::DownUnprocessed);
    g.send_key(KeyType::Hold, false);
    assert_eq!(g.key_states[7], KeyStatePlus::Up);
    g.send_key(KeyType::Left, true);
    assert_eq!(g.key_states[0], KeyStatePlus::DownUnprocessed);
}

#[test]
fn gravity_moves_once_a_second() {
    let mut g = game_with(MinoType::MinoT, BlockType::create_empty_field(WIDTH, HEIGHT));
    g.update(0);
    assert_eq!(g.tetris_variable_container.mino.y, 6);
    assert_eq!(g.tetris_variable_container.last_down_executed, Some(0));
    g.update(500);
    assert_eq!(g.tetris_variable_container.mino.y, 6);
    g.update(1000);
    assert_eq!(g.tetris_variable_container.mino.y, 6);
    g.update(1001);
    assert_eq!(g.tetris_variable_container.mino.y, 7);
}

#[test]
fn default_settings() {
    let s = Settings::default();
    assert_eq!((s.arr_ms, s.das_ms, s.soft_drop_ms, s.gravity_ms), (15, 200, 0, 1000));
    assert_eq!((s.lockdown_ms, s.move_count_limit, s.sleep_ms), (500, 15, 8));
    assert_eq!(TetrisManager::default().settings, s);
}

#[test]
fn changed_gravity_is_used() {
    let mut g = game_with(MinoType::MinoT, BlockType::create_empty_field(WIDTH, HEIGHT));
    g.settings.gravity_ms = 100;
    g.update(0);
    assert_eq!(g.tetris_variable_container.mino.y, 6);
    g.update(100);
    assert_eq!(g.tetris_variable_container.mino.y, 6);
    g.update(101);
    assert_eq!(g.tetris_variable_container.mino.y, 7);
    assert_eq!(g.settings.gravity_ms, 100);
}

#[test]
fn timed_soft_drop() {
    let mut g = game_with(MinoType::MinoT, BlockType::create_empty_field(WIDTH, HEIGHT));
    g.settings.soft_drop_ms = 50;
    g.send_key(KeyType::SoftDrop, true);
    g.update(0);
    assert_eq!(g.tetris_variable_container.mino.y, 7);
    assert_eq!(g.tetris_variable_container.last_soft_drop_execute, Some(0));
    g.update(30);
    assert_eq!(g.tetris_variable_container.mino.y, 7);
    assert_eq!(g.tetris_variable_container.last_soft_drop_execute, Some(30));
    g.update(81);
    assert_eq!(g.tetris_variable_container.mino.y, 8);
}

#[test]
fn a_key_moves_once_then_repeats() {
    let mut g = game_with(MinoType::MinoT, BlockType::create_empty_field(WIDTH, HEIGHT));
    g.send_key(KeyType::Left, true);
    g.update(0);
    assert_eq!(g.tetris_variable_container.mino.x, 2);
    assert_eq!(g.key_states[0], KeyStatePlus::DownProcessed);
    assert_eq!(g.tetris_variable_container.start_left_pressing, Some(0));
    assert_eq!(g.tetris_variable_container.start_waiting_das, Some(0));
    assert_eq!(g.tetris_variable_container.arr_direction_is_right, Some(false));
    g.update(100);
    assert_eq!(g.tetris_variable_container.mino.x, 2);
    g.update(201);
    assert_eq!(g.tetris_variable_container.mino.x, 1);
    g.update(210);
    assert_eq!(g.tetris_variable_container.mino.x, 1);
    g.update(217);
    assert_eq!(g.tetris_variable_container.mino.x, 0);
    g.update(233);
    assert_eq!(g.tetris_variable_container.mino.x, 0);
    g.send_key(KeyType::Left, false);
    g.update(240);
    assert_eq!(g.tetris_variable_container.start_left_pressing, None);
    assert_eq!(g.tetris_variable_container.start_waiting_das, None);
}

#[test]
fn hard_drop_locks_and_deals() {
    let mut g = game_with(MinoType::MinoT, BlockType::create_empty_field(WIDTH, HEIGHT));
    g.send_key(KeyType::HardDrop, true);
    g.update(0);
    let f = &g.tetris_variable_container.mino.field;
    let t = BlockType::MinoBlock(MinoType::MinoT);
    assert_eq!((f[24][4], f[25][3], f[25][4], f[25][5]), (t, t, t, t));
    let m = &g.tetris_variable_container.mino;
    assert_eq!(m.mino_type, MinoType::MinoI);
    assert_eq!((m.x, m.y, m.state), (3, 5, MinoState::InMotion));
    assert_eq!(g.random_generator.get_size_generated(), 20);
    assert_eq!(g.tetris_variable_container.next, None);
    assert_eq!(count(&g, falling), 4);
    assert_eq!(count(&g, locked), 4);
    assert!(!g.get_is_finished());
}

#[test]
fn bags_are_added_only_by_a_deal_that_finds_the_stock_short() {
    let mut g = game_with(MinoType::MinoT, BlockType::create_empty_field(WIDTH, HEIGHT));
    g.random_generator.stock = vec![MinoType::MinoS, MinoType::MinoZ, MinoType::MinoJ];
    g.update(0);
    assert_eq!(g.random_generator.stock, vec![MinoType::MinoS, MinoType::MinoZ, MinoType::MinoJ]);
    g.send_key(KeyType::HardDrop, true);
    g.update(10);
    assert_eq!(g.tetris_variable_container.mino.mino_type, MinoType::MinoS);
    assert_eq!(g.random_generator.get_size_generated(), 23);
    assert_eq!(g.random_generator.stock[0..2].to_vec(), vec![MinoType::MinoZ, MinoType::MinoJ]);
}

#[test]
fn hold_once_per_piece() {
    let mut g = game_with(MinoType::MinoT, BlockType::create_empty_field(WIDTH, HEIGHT));
    g.send_key(KeyType::Hold, true);
    g.update(0);
    assert_eq!(g.tetris_variable_container.hold, Some(MinoType::MinoT));
    assert_eq!(g.tetris_variable_container.mino.mino_type, MinoType::MinoI);
    assert!(g.tetris_variable_container.is_hold_executed);
    assert_eq!(count(&g, falling), 4);
    g.send_key(KeyType::Hold, true);
    g.update(10);
    assert_eq!(g.tetris_variable_container.hold, Some(MinoType::MinoT));
    assert_eq!(g.tetris_variable_container.mino.mino_type, MinoType::MinoI);
    assert_eq!(g.key_states[7], KeyStatePlus::DownProcessed);
    let (_, _, hold) = g.get_data_to_draw(7);
    assert_eq!(hold, Some(MinoType::MinoT));
    g.send_key(KeyType::HardDrop, true);
    g.update(20);
    assert!(!g.tetris_variable_container.is_hold_executed);
    assert_eq!(g.tetris_variable_container.mino.mino_type, MinoType::MinoO);
    g.send_key(KeyType::Hold, true);
    g.update(30);
    assert_eq!(g.tetris_variable_container.hold, Some(MinoType::MinoO));
    assert_eq!(g.tetris_variable_container.mino.mino_type, MinoType::MinoT);
}

#[test]
fn no_lock_while_the_piece_can_fall() {
    let mut g = game_with(MinoType::MinoT, BlockType::create_empty_field(WIDTH, HEIGHT));
    g.tetris_variable_container.first_hitting_ground = Some(0);
    let mut now = 0;
    while g.tetris_variable_container.mino.y < 24 {
        g.update(now);
        assert_eq!(g.tetris_variable_container.mino.mino_type, MinoType::MinoT);
        assert_eq!(count(&g, locked), 0);
        now += 1001;
    }
    assert_eq!(g.tetris_variable_container.first_hitting_ground, Some(now - 1001));
}

#[test]
fn every_frame_leaves_four_falling_cells() {
    let mut g = TetrisManager::default();
    let keys = [
        KeyType::Left,
        KeyType::RotateRight,
        KeyType::HardDrop,
        KeyType::Right,
        KeyType::Hold,
        KeyType::SoftDrop,
        KeyType::RotateLeft,
        KeyType::HardDrop,
        KeyType::Rotate180,
        KeyType::Hold,
    ];
    let mut now = 0;
    for round in 0..120 {
        let k = keys[round % keys.len()];
        g.send_key(k, true);
        g.update(now);
        g.send_key(k, false);
        g.update(now + 300);
        now += 700;
        if g.get_is_finished() {
            break;
        }
        let t = g.tetris_variable_container.mino.mino_type;
        assert_eq!(count(&g, falling), 4);
        assert!(g
            .tetris_variable_container
            .mino
            .field
            .iter()
            .flatten()
            .all(|b| !matches!(b, BlockType::MinoInMotion(u) if *u != t)));
    }
}

#[test]
fn full_row_is_cleared() {
    let mut f = BlockType::create_empty_field(WIDTH, HEIGHT);
    for j in 0..WIDTH {
        if !(3..7).contains(&j) {
            f[25][j] = BlockType::Obstruction;
        }
    }
    f[24][0] = BlockType::Wall;
    let mut g = game_with(MinoType::MinoI, f);
    g.send_key(KeyType::HardDrop, true);
    g.update(0);
    let f = &g.tetris_variable_container.mino.field;
    assert_eq!(f.len(), HEIGHT);
    assert_eq!(f[25][0], BlockType::Wall);
    for j in 1..WIDTH {
        assert_eq!(f[25][j], BlockType::Empty);
    }
    assert_eq!(count(&g, locked), 0);
    assert_eq!(count(&g, falling), 4);
    assert_eq!(g.tetris_variable_container.mino.mino_type, MinoType::MinoI);
}

#[test]
fn no_room_ends_the_game() {
    let mut g = game_with(MinoType::MinoT, BlockType::create_empty_field(WIDTH, HEIGHT));
    g.send_key(KeyType::HardDrop, true);
    g.update(0);
    assert!(!g.get_is_finished());
    assert_eq!(g.tetris_variable_container.mino.mino_type, MinoType::MinoI);
    g.tetris_variable_container.mino.field[6][4] = BlockType::Obstruction;
    g.send_key(KeyType::HardDrop, true);
    g.update(10);
    assert!(g.get_is_finished());
    assert_eq!(g.tetris_variable_container.mino.mino_type, MinoType::MinoI);
    let before = human_can(&g.tetris_variable_container.mino.field);
    g.send_key(KeyType::Left, true);
    g.update(20);
    assert!(g.get_is_finished());
    assert_eq!(human_can(&g.tetris_variable_container.mino.field), before);
    assert_eq!(g.key_states[0], KeyStatePlus::DownUnprocessed);
}

#[test]
fn piece_locks_after_resting() {
    let mut g = game_with(MinoType::MinoO, BlockType::create_empty_field(WIDTH, HEIGHT));
    g.send_key(KeyType::SoftDrop, true);
    g.update(0);
    assert_eq!(g.tetris_variable_container.mino.y, 23);
    assert!(g.tetris_variable_container.is_in_soft_drop);
    assert_eq!(g.tetris_variable_container.first_hitting_ground, Some(0));
    g.send_key(KeyType::SoftDrop, false);
    g.update(400);
    assert_eq!(g.tetris_variable_container.mino.mino_type, MinoType::MinoO);
    g.update(501);
    assert_eq!(g.tetris_variable_container.mino.mino_type, MinoType::MinoI);
    assert_eq!(count(&g, locked), 4);
}

#[test]
fn ghost_follows_the_piece() {
    let mut g = game_with(MinoType::MinoO, BlockType::create_empty_field(WIDTH, HEIGHT));
    g.send_key(KeyType::Right, true);
    g.update(0);
    let f = &g.tetris_variable_container.mino.field;
    assert_eq!(f[25][5], BlockType::GhostBlock(MinoType::MinoO));
    assert_eq!(f[25][6], BlockType::GhostBlock(MinoType::MinoO));
    assert_eq!(f[25][4], BlockType::Empty);
}
