//! The game's vocabulary: piece kinds, directions, the contents of a field
//! cell, the player's keys, and the game's settings.

use vstd::prelude::*;
use vstd::string::StrSliceExecFns;

verus! {

/// Number of columns of a fresh field.
pub const WIDTH: usize = 10;

/// Number of rows of a fresh field.
pub const HEIGHT: usize = 26;

/// Column of the upper-left corner of a piece's 4x4 box when it appears.
pub const APPEARANCE_X: i64 = 3;

/// Row of the upper-left corner of a piece's 4x4 box when it appears.
pub const APPEARANCE_Y: i64 = 5;

/// Moves on the ground after which a piece locks at once, by default.
pub const MOVE_COUNT_LIMIT: usize = 15;

/// Auto-repeat rate of a held sideways key, in milliseconds, by default.
pub const ARR_MS: u64 = 15;

/// Delay before a held sideways key starts to repeat, in milliseconds, by default.
pub const DAS_MS: u64 = 200;

/// Interval between soft-drop steps, in milliseconds, by default; zero drops at once.
pub const SOFT_DROP_MS: u64 = 0;

/// Interval between gravity steps, in milliseconds, by default.
pub const GRAVITY_MS: u64 = 1000;

/// Time a piece may rest on the ground before it locks, in milliseconds, by default.
pub const LOCKDOWN_MS: u64 = 500;

/// Pause between two frames of the game loop, in milliseconds, by default.
pub const SLEEP_MS: u64 = 8;

/// The timing settings of a game, which its owner may change at any time:
/// each is read afresh by every frame.
#[derive(Clone, Copy, PartialEq, Eq, Structural, Hash, Debug)]
pub struct Settings {
    /// Auto-repeat rate of a held sideways key, in milliseconds.
    pub arr_ms: u64,
    /// Delay before a held sideways key starts to repeat, in milliseconds.
    pub das_ms: u64,
    /// Interval between soft-drop steps, in milliseconds; zero drops at once.
    pub soft_drop_ms: u64,
    /// Interval between gravity steps, in milliseconds.
    pub gravity_ms: u64,
    /// Time a piece may rest on the ground before it locks, in milliseconds.
    pub lockdown_ms: u64,
    /// Moves on the ground after which a resting piece locks at once.
    pub move_count_limit: usize,
    /// Pause between two frames of the game loop, in milliseconds.
    pub sleep_ms: u64,
}

/// The settings a new game starts with.
pub open spec fn default_settings() -> Settings {
    Settings {
        arr_ms: ARR_MS,
        das_ms: DAS_MS,
        soft_drop_ms: SOFT_DROP_MS,
        gravity_ms: GRAVITY_MS,
        lockdown_ms: LOCKDOWN_MS,
        move_count_limit: MOVE_COUNT_LIMIT,
        sleep_ms: SLEEP_MS,
    }
}

impl Default for Settings {
    fn default() -> (s: Self)
        ensures
            s == default_settings(),
    {
        Settings {
            arr_ms: ARR_MS,
            das_ms: DAS_MS,
            soft_drop_ms: SOFT_DROP_MS,
            gravity_ms: GRAVITY_MS,
            lockdown_ms: LOCKDOWN_MS,
            move_count_limit: MOVE_COUNT_LIMIT,
            sleep_ms: SLEEP_MS,
        }
    }
}

/// A request to move the falling piece.
#[derive(Clone, Copy, PartialEq, Eq, Structural, Hash, Debug)]
pub enum MoveMessage {
    Left,
    Right,
    Down,
    RotateRight,
    RotateLeft,
    Rotate180,
    Fix,
}

/// A key of the game.
#[derive(Clone, Copy, PartialEq, Eq, Structural, Hash, Debug)]
pub enum KeyType {
    Left,
    Right,
    RotateRight,
    RotateLeft,
    Rotate180,
    HardDrop,
    SoftDrop,
    Hold,
}

/// The state of a key: pressed and not yet handled, pressed and handled, or released.
#[derive(Clone, Copy, PartialEq, Eq, Structural, Hash, Debug)]
pub enum KeyStatePlus {
    DownUnprocessed,
    DownProcessed,
    Up,
}

/// The seven tetrominoes.
#[derive(Clone, Copy, PartialEq, Eq, Structural, Hash, Debug)]
pub enum MinoType {
    MinoI,
    MinoO,
    MinoS,
    MinoZ,
    MinoJ,
    MinoL,
    MinoT,
}

/// The four orientations of a piece.
#[derive(Clone, Copy, PartialEq, Eq, Structural, Hash, Debug)]
pub enum MinoDirection {
    North,
    East,
    South,
    West,
}

/// Whether a piece still falls or has been locked into the field.
#[derive(Clone, Copy, PartialEq, Eq, Structural, Hash, Debug)]
pub enum MinoState {
    InMotion,
    Fixed,
}

/// The content of one cell of the field.
#[derive(Clone, Copy, PartialEq, Eq, Structural, Hash, Debug)]
pub enum BlockType {
    Empty,
    Wall,
    Obstruction,
    MinoBlock(MinoType),
    MinoInMotion(MinoType),
    GhostBlock(MinoType),
}

/// The three ways to turn a piece.
#[derive(Clone, Copy, PartialEq, Eq, Structural, Hash, Debug)]
pub enum RotationType {
    RotateLeft,
    RotateRight,
    Rotate180,
}

/// The order in which the game loop handles the keys.
pub open spec fn key_order() -> Seq<KeyType> {
    seq![
        KeyType::Left,
        KeyType::Right,
        KeyType::RotateRight,
        KeyType::RotateLeft,
        KeyType::Rotate180,
        KeyType::HardDrop,
        KeyType::SoftDrop,
        KeyType::Hold,
    ]
}

/// The position of a key in `key_order`.
pub open spec fn key_index(k: KeyType) -> int {
    match k {
        KeyType::Left => 0,
        KeyType::Right => 1,
        KeyType::RotateRight => 2,
        KeyType::RotateLeft => 3,
        KeyType::Rotate180 => 4,
        KeyType::HardDrop => 5,
        KeyType::SoftDrop => 6,
        KeyType::Hold => 7,
    }
}

/// The game key bound to a keyboard key: the character keys "z", "x", "c" and
/// space turn left, turn right, hold and hard-drop; the named keys
/// "ArrowLeft", "ArrowRight" and "ArrowDown" move left, move right and
/// soft-drop; every other key is unbound.
pub open spec fn key_bound(name: Seq<char>, is_character: bool) -> Option<KeyType> {
    if is_character {
        if name == "z"@ {
            Some(KeyType::RotateLeft)
        } else if name == "x"@ {
            Some(KeyType::RotateRight)
        } else if name == "c"@ {
            Some(KeyType::Hold)
        } else if name == " "@ {
            Some(KeyType::HardDrop)
        } else {
            None
        }
    } else if name == "ArrowLeft"@ {
        Some(KeyType::Left)
    } else if name == "ArrowRight"@ {
        Some(KeyType::Right)
    } else if name == "ArrowDown"@ {
        Some(KeyType::SoftDrop)
    } else {
        None
    }
}

/// Whether two strings hold the same characters.
fn same_text(a: &str, b: &str) -> (r: bool)
    ensures
        r == (a@ == b@),
{
    let n = a.unicode_len();
    if n != b.unicode_len() {
        return false;
    }
    for i in 0..n
        invariant
            n == a@.len(),
            n == b@.len(),
            forall|k: int| 0 <= k < i ==> a@[k] == b@[k],
    {
        if a.get_char(i) != b.get_char(i) {
            return false;
        }
    }
    assert(a@ =~= b@);
    true
}

/// The game key bound to a keyboard key, given its name: the character it
/// types for a character key, or the key's name for a named key.
pub fn key_type_of_name(name: &str, is_character: bool) -> (k: Option<KeyType>)
    ensures
        k == key_bound(name@, is_character),
{
    if is_character {
        if same_text(name, "z") {
            Some(KeyType::RotateLeft)
        } else if same_text(name, "x") {
            Some(KeyType::RotateRight)
        } else if same_text(name, "c") {
            Some(KeyType::Hold)
        } else if same_text(name, " ") {
            Some(KeyType::HardDrop)
        } else {
            None
        }
    } else if same_text(name, "ArrowLeft") {
        Some(KeyType::Left)
    } else if same_text(name, "ArrowRight") {
        Some(KeyType::Right)
    } else if same_text(name, "ArrowDown") {
        Some(KeyType::SoftDrop)
    } else {
        None
    }
}

/// The position of a key in the game loop's order, as an index.
pub fn key_slot(k: KeyType) -> (i: usize)
    ensures
        i == key_index(k),
        key_order()[i as int] == k,
{
    match k {
        KeyType::Left => 0,
        KeyType::Right => 1,
        KeyType::RotateRight => 2,
        KeyType::RotateLeft => 3,
        KeyType::Rotate180 => 4,
        KeyType::HardDrop => 5,
        KeyType::SoftDrop => 6,
        KeyType::Hold => 7,
    }
}

/// The name of a piece kind.
pub open spec fn mino_name(t: MinoType) -> Seq<char> {
    match t {
        MinoType::MinoI => "MinoI"@,
        MinoType::MinoO => "MinoO"@,
        MinoType::MinoS => "MinoS"@,
        MinoType::MinoZ => "MinoZ"@,
        MinoType::MinoJ => "MinoJ"@,
        MinoType::MinoL => "MinoL"@,
        MinoType::MinoT => "MinoT"@,
    }
}

impl MinoType {
    /// The kind's name, such as `MinoT`.
    pub fn to_string(&self) -> (s: String)
        ensures
            s@ == mino_name(*self),
    {
        match self {
            MinoType::MinoI => "MinoI".to_string(),
            MinoType::MinoO => "MinoO".to_string(),
            MinoType::MinoS => "MinoS".to_string(),
            MinoType::MinoZ => "MinoZ".to_string(),
            MinoType::MinoJ => "MinoJ".to_string(),
            MinoType::MinoL => "MinoL".to_string(),
            MinoType::MinoT => "MinoT".to_string(),
        }
    }
}

/// The direction after a quarter turn clockwise.
pub open spec fn clockwise(d: MinoDirection) -> MinoDirection {
    match d {
        MinoDirection::North => MinoDirection::East,
        MinoDirection::East => MinoDirection::South,
        MinoDirection::South => MinoDirection::West,
        MinoDirection::West => MinoDirection::North,
    }
}

/// The direction after a quarter turn counter-clockwise.
pub open spec fn counter_clockwise(d: MinoDirection) -> MinoDirection {
    match d {
        MinoDirection::North => MinoDirection::West,
        MinoDirection::East => MinoDirection::North,
        MinoDirection::South => MinoDirection::East,
        MinoDirection::West => MinoDirection::South,
    }
}

impl MinoDirection {
    /// The direction a quarter turn counter-clockwise from this one.
    pub fn previous(self) -> (d: Self)
        ensures
            d == counter_clockwise(self),
    {
        match &self {
            MinoDirection::North => MinoDirection::West,
            MinoDirection::East => MinoDirection::North,
            MinoDirection::South => MinoDirection::East,
            MinoDirection::West => MinoDirection::South,
        }
    }

    /// The direction a quarter turn clockwise from this one.
    pub fn next(&self) -> (d: Self)
        ensures
            d == clockwise(*self),
    {
        match self {
            MinoDirection::North => MinoDirection::East,
            MinoDirection::East => MinoDirection::South,
            MinoDirection::South => MinoDirection::West,
            MinoDirection::West => MinoDirection::North,
        }
    }
}

/// Turning a quarter clockwise and a quarter back gives the direction one started from.
pub proof fn lemma_turns_undo(d: MinoDirection)
    ensures
        counter_clockwise(clockwise(d)) == d,
        clockwise(counter_clockwise(d)) == d,
        clockwise(clockwise(clockwise(clockwise(d)))) == d,
{
}

impl BlockType {
    /// Whether a cell of this kind stops a moving piece.
    pub open spec fn collides(self) -> bool {
        self is Wall || self is Obstruction || self is MinoBlock
    }

    /// Whether a cell of this kind stops a moving piece.
    pub fn has_collision_detection(&self) -> (r: bool)
        ensures
            r == self.collides(),
    {
        match self {
            BlockType::Wall | BlockType::Obstruction | BlockType::MinoBlock(_) => true,
            _ => false,
        }
    }

    /// The name under which the cell is drawn, such as `Ghost MinoT`.
    pub fn get_class_name(&self) -> (s: String)
        ensures
            s@ == class_name(*self),
    {
        match self {
            BlockType::Empty => "Empty".to_string(),
            BlockType::Obstruction => "Obstruction".to_string(),
            BlockType::Wall => "Wall".to_string(),
            BlockType::MinoBlock(t) => {
                let name = t.to_string();
                let mut s = "MinoBlock ".to_string();
                s.append(name.as_str());
                s
            },
            BlockType::MinoInMotion(t) => {
                let name = t.to_string();
                let mut s = "MinoInMotion ".to_string();
                s.append(name.as_str());
                s
            },
            BlockType::GhostBlock(t) => {
                let name = t.to_string();
                let mut s = "Ghost ".to_string();
                s.append(name.as_str());
                s
            },
        }
    }
}

/// The name under which a cell is drawn.
pub open spec fn class_name(b: BlockType) -> Seq<char> {
    match b {
        BlockType::Empty => "Empty"@,
        BlockType::Obstruction => "Obstruction"@,
        BlockType::Wall => "Wall"@,
        BlockType::MinoBlock(t) => "MinoBlock "@ + mino_name(t),
        BlockType::MinoInMotion(t) => "MinoInMotion "@ + mino_name(t),
        BlockType::GhostBlock(t) => "Ghost "@ + mino_name(t),
    }
}

} // verus!
