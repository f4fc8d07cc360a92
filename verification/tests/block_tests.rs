use tetris::block::{BlockType, KeyType, MinoDirection, MinoType, key_slot, key_type_of_name};

const ALL: [MinoType; 7] = [
    MinoType::MinoI,
    MinoType::MinoO,
    MinoType::MinoS,
    MinoType::MinoZ,
    MinoType::MinoJ,
    MinoType::MinoL,
    MinoType::MinoT,
];

#[test]
fn mino_names() {
    let names: Vec<String> = ALL.iter().map(|t| t.to_string()).collect();
    assert_eq!(names, vec!["MinoI", "MinoO", "MinoS", "MinoZ", "MinoJ", "MinoL", "MinoT"]);
}

#[test]
fn class_names() {
    assert_eq!(BlockType::Empty.get_class_name(), "Empty");
    assert_eq!(BlockType::Wall.get_class_name(), "Wall");
    assert_eq!(BlockType::Obstruction.get_class_name(), "Obstruction");
    assert_eq!(BlockType::MinoBlock(MinoType::MinoT).get_class_name(), "MinoBlock MinoT");
    assert_eq!(BlockType::MinoInMotion(MinoType::MinoI).get_class_name(), "MinoInMotion MinoI");
    assert_eq!(BlockType::GhostBlock(MinoType::MinoZ).get_class_name(), "Ghost MinoZ");
}

#[test]
fn collision_kinds() {
    assert!(!BlockType::Empty.has_collision_detection());
    assert!(BlockType::Wall.has_collision_detection());
    assert!(BlockType::Obstruction.has_collision_detection());
    assert!(BlockType::MinoBlock(MinoType::MinoO).has_collision_detection());
    assert!(!BlockType::MinoInMotion(MinoType::MinoO).has_collision_detection());
    assert!(!BlockType::GhostBlock(MinoType::MinoO).has_collision_detection());
}

#[test]
fn directions_turn_and_undo() {
    assert_eq!(MinoDirection::North.next(), MinoDirection::East);
    assert_eq!(MinoDirection::East.next(), MinoDirection::South);
    assert_eq!(MinoDirection::South.next(), MinoDirection::West);
    assert_eq!(MinoDirection::West.next(), MinoDirection::North);
    assert_eq!(MinoDirection::North.previous(), MinoDirection::West);
    assert_eq!(MinoDirection::West.previous(), MinoDirection::South);
    for d in [MinoDirection::North, MinoDirection::East, MinoDirection::South, MinoDirection::West] {
        assert_eq!(d.next().previous(), d);
        assert_eq!(d.previous().next(), d);
        assert_eq!(d.next().next().next().next(), d);
    }
}

#[test]
fn key_order_slots() {
    let keys = [
        KeyType::Left,
        KeyType::Right,
        KeyType::RotateRight,
        KeyType::RotateLeft,
        KeyType::Rotate180,
        KeyType::HardDrop,
        KeyType::SoftDrop,
        KeyType::Hold,
    ];
    for (i, k) in keys.iter().enumerate() {
        assert_eq!(key_slot(*k), i);
    }
}

#[test]
fn key_bindings() {
    assert_eq!(key_type_of_name("z", true), Some(KeyType::RotateLeft));
    assert_eq!(key_type_of_name("x", true), Some(KeyType::RotateRight));
    assert_eq!(key_type_of_name("c", true), Some(KeyType::Hold));
    assert_eq!(key_type_of_name(" ", true), Some(KeyType::HardDrop));
    assert_eq!(key_type_of_name("ArrowLeft", false), Some(KeyType::Left));
    assert_eq!(key_type_of_name("ArrowRight", false), Some(KeyType::Right));
    assert_eq!(key_type_of_name("ArrowDown", false), Some(KeyType::SoftDrop));
    assert_eq!(key_type_of_name("ArrowUp", false), None);
    assert_eq!(key_type_of_name("Z", true), None);
    assert_eq!(key_type_of_name("zz", true), None);
    assert_eq!(key_type_of_name("z", false), None);
    assert_eq!(key_type_of_name("ArrowLeft", true), None);
    assert_eq!(key_type_of_name("", true), None);
}
