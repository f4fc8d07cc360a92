//! The shapes of the seven pieces in their four orientations, and the
//! wall-kick offsets that a rotation tries in turn (the Super Rotation System).

use vstd::prelude::*;
use crate::block::{BlockType, MinoType, MinoDirection, RotationType, clockwise, counter_clockwise};

verus! {

/// The 4x4 box of a piece in one orientation: row by row, 1 where the piece has a cell.
pub open spec fn rotation_spec(t: MinoType, d: MinoDirection) -> [[i64; 4]; 4] {
    match t {
        MinoType::MinoT => match d {
            MinoDirection::North => [[0, 1, 0, 0], [1, 1, 1, 0], [0, 0, 0, 0], [0, 0, 0, 0]],
            MinoDirection::East => [[0, 1, 0, 0], [0, 1, 1, 0], [0, 1, 0, 0], [0, 0, 0, 0]],
            MinoDirection::South => [[0, 0, 0, 0], [1, 1, 1, 0], [0, 1, 0, 0], [0, 0, 0, 0]],
            MinoDirection::West => [[0, 1, 0, 0], [1, 1, 0, 0], [0, 1, 0, 0], [0, 0, 0, 0]],
        },
        MinoType::MinoS => match d {
            MinoDirection::North => [[0, 1, 1, 0], [1, 1, 0, 0], [0, 0, 0, 0], [0, 0, 0, 0]],
            MinoDirection::East => [[0, 1, 0, 0], [0, 1, 1, 0], [0, 0, 1, 0], [0, 0, 0, 0]],
            MinoDirection::South => [[0, 0, 0, 0], [0, 1, 1, 0], [1, 1, 0, 0], [0, 0, 0, 0]],
            MinoDirection::West => [[1, 0, 0, 0], [1, 1, 0, 0], [0, 1, 0, 0], [0, 0, 0, 0]],
        },
        MinoType::MinoZ => match d {
            MinoDirection::North => [[1, 1, 0, 0], [0, 1, 1, 0], [0, 0, 0, 0], [0, 0, 0, 0]],
            MinoDirection::East => [[0, 0, 1, 0], [0, 1, 1, 0], [0, 1, 0, 0], [0, 0, 0, 0]],
            MinoDirection::South => [[0, 0, 0, 0], [1, 1, 0, 0], [0, 1, 1, 0], [0, 0, 0, 0]],
            MinoDirection::West => [[0, 1, 0, 0], [1, 1, 0, 0], [1, 0, 0, 0], [0, 0, 0, 0]],
        },
        MinoType::MinoL => match d {
            MinoDirection::North => [[0, 0, 1, 0], [1, 1, 1, 0], [0, 0, 0, 0], [0, 0, 0, 0]],
            MinoDirection::East => [[0, 1, 0, 0], [0, 1, 0, 0], [0, 1, 1, 0], [0, 0, 0, 0]],
            MinoDirection::South => [[0, 0, 0, 0], [1, 1, 1, 0], [1, 0, 0, 0], [0, 0, 0, 0]],
            MinoDirection::West => [[1, 1, 0, 0], [0, 1, 0, 0], [0, 1, 0, 0], [0, 0, 0, 0]],
        },
        MinoType::MinoJ => match d {
            MinoDirection::North => [[1, 0, 0, 0], [1, 1, 1, 0], [0, 0, 0, 0], [0, 0, 0, 0]],
            MinoDirection::East => [[0, 1, 1, 0], [0, 1, 0, 0], [0, 1, 0, 0], [0, 0, 0, 0]],
            MinoDirection::South => [[0, 0, 0, 0], [1, 1, 1, 0], [0, 0, 1, 0], [0, 0, 0, 0]],
            MinoDirection::West => [[0, 1, 0, 0], [0, 1, 0, 0], [1, 1, 0, 0], [0, 0, 0, 0]],
        },
        MinoType::MinoO => [[0, 0, 0, 0], [0, 1, 1, 0], [0, 1, 1, 0], [0, 0, 0, 0]],
        MinoType::MinoI => match d {
            MinoDirection::North => [[0, 0, 0, 0], [1, 1, 1, 1], [0, 0, 0, 0], [0, 0, 0, 0]],
            MinoDirection::East => [[0, 0, 1, 0], [0, 0, 1, 0], [0, 0, 1, 0], [0, 0, 1, 0]],
            MinoDirection::South => [[0, 0, 0, 0], [0, 0, 0, 0], [1, 1, 1, 1], [0, 0, 0, 0]],
            MinoDirection::West => [[0, 1, 0, 0], [0, 1, 0, 0], [0, 1, 0, 0], [0, 1, 0, 0]],
        },
    }
}

/// The 4x4 box of a piece in one orientation.
pub fn rotation(t: MinoType, d: MinoDirection) -> (r: [[i64; 4]; 4])
    ensures
        r == rotation_spec(t, d),
{
    match t {
        MinoType::MinoT => match d {
            MinoDirection::North => [[0, 1, 0, 0], [1, 1, 1, 0], [0, 0, 0, 0], [0, 0, 0, 0]],
            MinoDirection::East => [[0, 1, 0, 0], [0, 1, 1, 0], [0, 1, 0, 0], [0, 0, 0, 0]],
            MinoDirection::South => [[0, 0, 0, 0], [1, 1, 1, 0], [0, 1, 0, 0], [0, 0, 0, 0]],
            MinoDirection::West => [[0, 1, 0, 0], [1, 1, 0, 0], [0, 1, 0, 0], [0, 0, 0, 0]],
        },
        MinoType::MinoS => match d {
            MinoDirection::North => [[0, 1, 1, 0], [1, 1, 0, 0], [0, 0, 0, 0], [0, 0, 0, 0]],
            MinoDirection::East => [[0, 1, 0, 0], [0, 1, 1, 0], [0, 0, 1, 0], [0, 0, 0, 0]],
            MinoDirection::South => [[0, 0, 0, 0], [0, 1, 1, 0], [1, 1, 0, 0], [0, 0, 0, 0]],
            MinoDirection::West => [[1, 0, 0, 0], [1, 1, 0, 0], [0, 1, 0, 0], [0, 0, 0, 0]],
        },
        MinoType::MinoZ => match d {
            MinoDirection::North => [[1, 1, 0, 0], [0, 1, 1, 0], [0, 0, 0, 0], [0, 0, 0, 0]],
            MinoDirection::East => [[0, 0, 1, 0], [0, 1, 1, 0], [0, 1, 0, 0], [0, 0, 0, 0]],
            MinoDirection::South => [[0, 0, 0, 0], [1, 1, 0, 0], [0, 1, 1, 0], [0, 0, 0, 0]],
            MinoDirection::West => [[0, 1, 0, 0], [1, 1, 0, 0], [1, 0, 0, 0], [0, 0, 0, 0]],
        },
        MinoType::MinoL => match d {
            MinoDirection::North => [[0, 0, 1, 0], [1, 1, 1, 0], [0, 0, 0, 0], [0, 0, 0, 0]],
            MinoDirection::East => [[0, 1, 0, 0], [0, 1, 0, 0], [0, 1, 1, 0], [0, 0, 0, 0]],
            MinoDirection::South => [[0, 0, 0, 0], [1, 1, 1, 0], [1, 0, 0, 0], [0, 0, 0, 0]],
            MinoDirection::West => [[1, 1, 0, 0], [0, 1, 0, 0], [0, 1, 0, 0], [0, 0, 0, 0]],
        },
        MinoType::MinoJ => match d {
            MinoDirection::North => [[1, 0, 0, 0], [1, 1, 1, 0], [0, 0, 0, 0], [0, 0, 0, 0]],
            MinoDirection::East => [[0, 1, 1, 0], [0, 1, 0, 0], [0, 1, 0, 0], [0, 0, 0, 0]],
            MinoDirection::South => [[0, 0, 0, 0], [1, 1, 1, 0], [0, 0, 1, 0], [0, 0, 0, 0]],
            MinoDirection::West => [[0, 1, 0, 0], [0, 1, 0, 0], [1, 1, 0, 0], [0, 0, 0, 0]],
        },
        MinoType::MinoO => [[0, 0, 0, 0], [0, 1, 1, 0], [0, 1, 1, 0], [0, 0, 0, 0]],
        MinoType::MinoI => match d {
            MinoDirection::North => [[0, 0, 0, 0], [1, 1, 1, 1], [0, 0, 0, 0], [0, 0, 0, 0]],
            MinoDirection::East => [[0, 0, 1, 0], [0, 0, 1, 0], [0, 0, 1, 0], [0, 0, 1, 0]],
            MinoDirection::South => [[0, 0, 0, 0], [0, 0, 0, 0], [1, 1, 1, 1], [0, 0, 0, 0]],
            MinoDirection::West => [[0, 1, 0, 0], [0, 1, 0, 0], [0, 1, 0, 0], [0, 1, 0, 0]],
        },
    }
}

/// Whether cell (`r`, `c`) of the 4x4 box belongs to the piece.
pub open spec fn shape_cell(t: MinoType, d: MinoDirection, r: int, c: int) -> bool {
    0 <= r < 4 && 0 <= c < 4 && rotation_spec(t, d)[r][c] == 1
}

/// The direction a rotation of the given kind turns a piece to.
pub open spec fn target_direction(d: MinoDirection, rt: RotationType) -> MinoDirection {
    match rt {
        RotationType::RotateRight => clockwise(d),
        RotationType::RotateLeft => counter_clockwise(d),
        RotationType::Rotate180 => clockwise(clockwise(d)),
    }
}

/// The offsets, in the order they are tried, of a rotation of the given kind
/// starting from `from`; `is_i` selects the table of the I piece. An offset
/// `(dx, dy)` moves the piece `dx` columns right and `dy` rows up.
pub open spec fn kick_table(is_i: bool, rt: RotationType, from: MinoDirection) -> Seq<(int, int)> {
    match rt {
        RotationType::Rotate180 => if is_i {
            match from {
                MinoDirection::North => seq![(-1, 0), (-2, 0), (1, 0), (2, 0), (0, 1)],
                MinoDirection::East => seq![(0, 1), (0, 2), (0, -1), (0, -2), (-1, 0)],
                MinoDirection::South => seq![(1, 0), (2, 0), (-1, 0), (-2, 0), (0, -1)],
                MinoDirection::West => seq![(0, 1), (0, 2), (0, -1), (0, -2), (1, 0)],
            }
        } else {
            match from {
                MinoDirection::North => seq![(1, 0), (2, 0), (1, 1), (2, 1), (-1, 0), (-2, 0), (-1, 1), (-2, 1), (0, -1), (3, 0), (-3, 0)],
                MinoDirection::East => seq![(0, 1), (0, 2), (-1, 1), (-1, 2), (0, -1), (0, -2), (-1, -1), (-1, -2), (1, 0), (0, 3), (0, -3)],
                MinoDirection::South => seq![(-1, 0), (-2, 0), (-1, -1), (-2, -1), (1, 0), (2, 0), (1, -1), (2, -1), (0, 1), (-3, 0), (3, 0)],
                MinoDirection::West => seq![(0, 1), (0, 2), (1, 1), (1, 2), (0, -1), (0, -2), (1, -1), (1, -2), (-1, 0), (0, 3), (0, -3)],
            }
        },
        RotationType::RotateRight => if is_i {
            match from {
                MinoDirection::North => seq![(0, 0), (-2, 0), (1, 0), (-2, -1), (1, 2)],
                MinoDirection::East => seq![(0, 0), (-1, 0), (2, 0), (-1, 2), (2, -1)],
                MinoDirection::South => seq![(0, 0), (2, 0), (-1, 0), (2, 1), (-1, -2)],
                MinoDirection::West => seq![(0, 0), (1, 0), (-2, 0), (1, -2), (-2, 1)],
            }
        } else {
            match from {
                MinoDirection::North => seq![(0, 0), (-1, 0), (-1, 1), (0, -2), (-1, -2)],
                MinoDirection::East => seq![(0, 0), (1, 0), (1, -1), (0, 2), (1, 2)],
                MinoDirection::South => seq![(0, 0), (1, 0), (1, 1), (0, -2), (1, -2)],
                MinoDirection::West => seq![(0, 0), (-1, 0), (-1, -1), (0, 2), (-1, 2)],
            }
        },
        RotationType::RotateLeft => if is_i {
            match from {
                MinoDirection::North => seq![(0, 0), (-1, 0), (2, 0), (-1, 2), (2, -1)],
                MinoDirection::East => seq![(0, 0), (2, 0), (-1, 0), (2, 1), (-1, -2)],
                MinoDirection::South => seq![(0, 0), (1, 0), (-2, 0), (1, -2), (-2, 1)],
                MinoDirection::West => seq![(0, 0), (-2, 0), (1, 0), (-2, -1), (1, 2)],
            }
        } else {
            match from {
                MinoDirection::North => seq![(0, 0), (1, 0), (1, 1), (0, -2), (1, -2)],
                MinoDirection::East => seq![(0, 0), (1, 0), (1, -1), (0, 2), (1, 2)],
                MinoDirection::South => seq![(0, 0), (-1, 0), (-1, 1), (0, -2), (-1, -2)],
                MinoDirection::West => seq![(0, 0), (-1, 0), (-1, -1), (0, 2), (-1, 2)],
            }
        },
    }
}

/// A list of offsets read as pairs of integers.
pub open spec fn offsets_view(v: Seq<(i64, i64)>) -> Seq<(int, int)> {
    v.map_values(|p: (i64, i64)| (p.0 as int, p.1 as int))
}

/// The offsets, in the order they are tried, of a rotation of the given kind
/// starting from `from`; `is_i` selects the table of the I piece.
pub fn kick_offsets(is_i: bool, rt: RotationType, from: MinoDirection) -> (v: Vec<(i64, i64)>)
    ensures
        offsets_view(v@) == kick_table(is_i, rt, from),
{
    match rt {
        RotationType::Rotate180 => if is_i {
            match from {
                MinoDirection::North => vec![(-1, 0), (-2, 0), (1, 0), (2, 0), (0, 1)],
                MinoDirection::East => vec![(0, 1), (0, 2), (0, -1), (0, -2), (-1, 0)],
                MinoDirection::South => vec![(1, 0), (2, 0), (-1, 0), (-2, 0), (0, -1)],
                MinoDirection::West => vec![(0, 1), (0, 2), (0, -1), (0, -2), (1, 0)],
            }
        } else {
            match from {
                MinoDirection::North => vec![(1, 0), (2, 0), (1, 1), (2, 1), (-1, 0), (-2, 0), (-1, 1), (-2, 1), (0, -1), (3, 0), (-3, 0)],
                MinoDirection::East => vec![(0, 1), (0, 2), (-1, 1), (-1, 2), (0, -1), (0, -2), (-1, -1), (-1, -2), (1, 0), (0, 3), (0, -3)],
                MinoDirection::South => vec![(-1, 0), (-2, 0), (-1, -1), (-2, -1), (1, 0), (2, 0), (1, -1), (2, -1), (0, 1), (-3, 0), (3, 0)],
                MinoDirection::West => vec![(0, 1), (0, 2), (1, 1), (1, 2), (0, -1), (0, -2), (1, -1), (1, -2), (-1, 0), (0, 3), (0, -3)],
            }
        },
        RotationType::RotateRight => if is_i {
            match from {
                MinoDirection::North => vec![(0, 0), (-2, 0), (1, 0), (-2, -1), (1, 2)],
                MinoDirection::East => vec![(0, 0), (-1, 0), (2, 0), (-1, 2), (2, -1)],
                MinoDirection::South => vec![(0, 0), (2, 0), (-1, 0), (2, 1), (-1, -2)],
                MinoDirection::West => vec![(0, 0), (1, 0), (-2, 0), (1, -2), (-2, 1)],
            }
        } else {
            match from {
                MinoDirection::North => vec![(0, 0), (-1, 0), (-1, 1), (0, -2), (-1, -2)],
                MinoDirection::East => vec![(0, 0), (1, 0), (1, -1), (0, 2), (1, 2)],
                MinoDirection::South => vec![(0, 0), (1, 0), (1, 1), (0, -2), (1, -2)],
                MinoDirection::West => vec![(0, 0), (-1, 0), (-1, -1), (0, 2), (-1, 2)],
            }
        },
        RotationType::RotateLeft => if is_i {
            match from {
                MinoDirection::North => vec![(0, 0), (-1, 0), (2, 0), (-1, 2), (2, -1)],
                MinoDirection::East => vec![(0, 0), (2, 0), (-1, 0), (2, 1), (-1, -2)],
                MinoDirection::South => vec![(0, 0), (1, 0), (-2, 0), (1, -2), (-2, 1)],
                MinoDirection::West => vec![(0, 0), (-2, 0), (1, 0), (-2, -1), (1, 2)],
            }
        } else {
            match from {
                MinoDirection::North => vec![(0, 0), (1, 0), (1, 1), (0, -2), (1, -2)],
                MinoDirection::East => vec![(0, 0), (1, 0), (1, -1), (0, 2), (1, 2)],
                MinoDirection::South => vec![(0, 0), (-1, 0), (-1, 1), (0, -2), (-1, -2)],
                MinoDirection::West => vec![(0, 0), (-1, 0), (-1, -1), (0, 2), (-1, 2)],
            }
        },
    }
}

/// What the hold box shows at row `r`, column `c` for a held piece: the top two
/// rows of its upright box, with the O piece centred.
pub open spec fn hold_cell(t: MinoType, r: int, c: int) -> BlockType {
    if t == MinoType::MinoO {
        if c == 1 || c == 2 {
            BlockType::MinoBlock(MinoType::MinoO)
        } else {
            BlockType::Empty
        }
    } else if rotation_spec(t, MinoDirection::North)[r][c] == 0 {
        BlockType::Empty
    } else {
        BlockType::MinoBlock(t)
    }
}

fn hold_block(v: i64, t: MinoType) -> (b: BlockType)
    ensures
        b == (if v == 0 { BlockType::Empty } else { BlockType::MinoBlock(t) }),
{
    if v == 0 {
        BlockType::Empty
    } else {
        BlockType::MinoBlock(t)
    }
}

fn hold_row(row: [i64; 4], t: MinoType) -> (r: [BlockType; 4])
    ensures
        forall|c: int|
            0 <= c < 4 ==> #[trigger] r[c] == (if row[c] == 0 {
                BlockType::Empty
            } else {
                BlockType::MinoBlock(t)
            }),
{
    let r = [hold_block(row[0], t), hold_block(row[1], t), hold_block(row[2], t), hold_block(row[3], t)];
    assert forall|c: int| 0 <= c < 4 implies #[trigger] r[c] == (if row[c] == 0 {
        BlockType::Empty
    } else {
        BlockType::MinoBlock(t)
    }) by {
        if c == 0 {
        } else if c == 1 {
        } else if c == 2 {
        } else {
        }
    }
    r
}

impl MinoType {
    /// The two rows that the hold box shows for this kind.
    pub fn hold_field(&self) -> (f: [[BlockType; 4]; 2])
        ensures
            forall|r: int, c: int| 0 <= r < 2 && 0 <= c < 4 ==> #[trigger] f[r][c] == hold_cell(*self, r, c),
    {
        if *self == MinoType::MinoO {
            let row = [
                BlockType::Empty,
                BlockType::MinoBlock(MinoType::MinoO),
                BlockType::MinoBlock(MinoType::MinoO),
                BlockType::Empty,
            ];
            let f = [row, row];
            assert forall|r: int, c: int| 0 <= r < 2 && 0 <= c < 4 implies #[trigger] f[r][c] == hold_cell(*self, r, c) by {
                if c == 0 {
                } else if c == 1 {
                } else if c == 2 {
                } else {
                }
            }
            f
        } else {
            let rows = rotation(*self, MinoDirection::North);
            let f = [hold_row(rows[0], *self), hold_row(rows[1], *self)];
            assert forall|r: int, c: int| 0 <= r < 2 && 0 <= c < 4 implies #[trigger] f[r][c] == hold_cell(*self, r, c) by {
                if r == 0 {
                } else {
                }
            }
            f
        }
    }
}

} // verus!
