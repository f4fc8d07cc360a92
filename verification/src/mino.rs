//! The falling piece: where it stands, how it moves and turns, and how it is
//! drawn into the field.

use vstd::prelude::*;
use crate::block::{
    APPEARANCE_X, APPEARANCE_Y, WIDTH, BlockType, MinoDirection, MinoState, MinoType, MoveMessage,
    RotationType,
};
use crate::shapes::{
    kick_offsets, kick_table, offsets_view, rotation, rotation_spec, shape_cell, target_direction,
};
use crate::field::{Grid, copy_grid, erase_ghosts, erase_motion, grid, standard_shape, without_ghosts, without_motion};

verus! {

/// Every piece has a cell at (1, 1), (1, 2) or (2, 1) of its box.
pub proof fn lemma_shape_has_inner_cell(t: MinoType, d: MinoDirection)
    ensures
        shape_cell(t, d, 1, 1) || shape_cell(t, d, 1, 2) || shape_cell(t, d, 2, 1),
{
}

/// The largest coordinate and field dimension that a piece moving in a field
/// is kept within: a few short of the largest `i64`, so that a move, a
/// wall-kick offset or the piece's box added to a coordinate in range cannot
/// overflow. A field cannot hold that many rows or columns in memory, so a
/// piece inside a field is always in range; the bound leaves out only pieces
/// placed by hand, outside any field, within a few cells of the ends of `i64`.
pub open spec fn coord_limit() -> int {
    0x7FFF_FFFF_FFFF_FFF0
}

/// A coordinate within the handled range.
pub open spec fn coord_ok(v: int) -> bool {
    -coord_limit() <= v <= coord_limit()
}

/// A coordinate of the corner of a piece's 4x4 box whose far side, four cells
/// on, is still an `i64`: the largest at which the box can be laid out.
pub open spec fn box_ok(v: int) -> bool {
    v <= i64::MAX - 4
}

/// A field whose dimensions are within the handled range.
pub open spec fn dims_ok(g: Grid) -> bool {
    &&& g.len() <= coord_limit()
    &&& forall|i: int| 0 <= i < g.len() ==> #[trigger] g[i].len() <= coord_limit()
}

/// Whether (`i`, `j`) is a cell of the grid: row `i`, column `j`.
pub open spec fn in_field(g: Grid, i: int, j: int) -> bool {
    0 <= i < g.len() && 0 <= j < g[i].len()
}

/// Whether the piece `t` turned to `d`, with its box's corner at column `x`
/// and row `y`, has every cell inside the field and on a cell that does not
/// stop it. (The falling piece's own cells and ghost cells do not stop it.)
pub open spec fn fits(g: Grid, t: MinoType, d: MinoDirection, x: int, y: int) -> bool {
    forall|r: int, c: int|
        #[trigger] shape_cell(t, d, r, c) ==> in_field(g, y + r, x + c) && !g[y + r][x + c].collides()
}

/// Whether every cell of the piece at that place lies inside the field.
pub open spec fn within(g: Grid, t: MinoType, d: MinoDirection, x: int, y: int) -> bool {
    forall|r: int, c: int| #[trigger] shape_cell(t, d, r, c) ==> in_field(g, y + r, x + c)
}

/// Whether a piece cell may be drawn over a cell when only free cells are drawn over.
pub open spec fn free_cell(b: BlockType) -> bool {
    b is Empty || b is GhostBlock
}

/// The grid with `blk` written into every cell of the piece at that place
/// (when `only_free`, only into empty and ghost cells).
pub open spec fn stamped(
    g: Grid,
    t: MinoType,
    d: MinoDirection,
    x: int,
    y: int,
    blk: BlockType,
    only_free: bool,
) -> Grid {
    Seq::new(
        g.len(),
        |i: int|
            Seq::new(
                g[i].len(),
                |j: int|
                    if shape_cell(t, d, i - y, j - x) && (!only_free || free_cell(g[i][j])) {
                        blk
                    } else {
                        g[i][j]
                    },
            ),
    )
}

/// The cell that a piece in the given state leaves in the field.
pub open spec fn piece_block(s: MinoState, t: MinoType) -> BlockType {
    match s {
        MinoState::InMotion => BlockType::MinoInMotion(t),
        MinoState::Fixed => BlockType::MinoBlock(t),
    }
}

/// The field after the falling piece is drawn at a new place: its old cells
/// are emptied and its cells at the new place are written.
pub open spec fn placed(g: Grid, t: MinoType, d: MinoDirection, x: int, y: int, s: MinoState) -> Grid {
    stamped(without_motion(g), t, d, x, y, piece_block(s, t), false)
}

/// The lowest row to which a piece can fall straight down from row `y`.
pub open spec fn landing_y(g: Grid, t: MinoType, d: MinoDirection, x: int, y: int) -> int
    decreases g.len() - y,
{
    if fits(g, t, d, x, y + 1) {
        proof {
            lemma_shape_has_inner_cell(t, d);
        }
        landing_y(g, t, d, x, y + 1)
    } else {
        y
    }
}

/// A piece as mathematical values.
pub struct MinoView {
    pub x: int,
    pub y: int,
    pub field: Grid,
    pub state: MinoState,
    pub direction: MinoDirection,
    pub mino_type: MinoType,
    pub does_rotate: bool,
    pub minimum_y: int,
}

impl MinoView {
    /// Whether the piece turns exactly when it is not an O piece, as every
    /// piece that `Mino::new` makes does.
    pub open spec fn turns_by_kind(self) -> bool {
        self.does_rotate == (self.mino_type != MinoType::MinoO)
    }

    /// Coordinates and field within the handled range.
    pub open spec fn sane(self) -> bool {
        coord_ok(self.x) && coord_ok(self.y) && dims_ok(self.field)
    }

    /// Every cell of the piece, where it stands, lies inside the field.
    pub open spec fn placed_within(self) -> bool {
        within(self.field, self.mino_type, self.direction, self.x, self.y)
    }

    /// Whether the piece, turned to `d`, fits with its box's corner at (`x`, `y`).
    pub open spec fn can_place(self, x: int, y: int, d: MinoDirection) -> bool {
        fits(self.field, self.mino_type, d, x, y)
    }

    /// The piece moved to (`x`, `y`) and turned to `d`, with the field redrawn
    /// and the lowest row reached so far updated.
    pub open spec fn moved_to(self, x: int, y: int, d: MinoDirection) -> MinoView {
        MinoView {
            x: x,
            y: y,
            direction: d,
            field: placed(self.field, self.mino_type, d, x, y, self.state),
            minimum_y: if self.minimum_y < y {
                y
            } else {
                self.minimum_y
            },
            ..self
        }
    }

    /// The piece after an attempt to move to (`x`, `y`) turned to `d`, and whether it moved.
    pub open spec fn try_move(self, x: int, y: int, d: MinoDirection) -> (MinoView, bool) {
        if self.can_place(x, y, d) {
            (self.moved_to(x, y, d), true)
        } else {
            (self, false)
        }
    }

    /// The offsets that a rotation of the given kind tries, in order.
    pub open spec fn kicks(self, rt: RotationType) -> Seq<(int, int)> {
        kick_table(self.mino_type == MinoType::MinoI, rt, self.direction)
    }

    /// The place of the piece after offset `k` of a rotation.
    pub open spec fn kick_x(self, rt: RotationType, k: int) -> int {
        self.x + self.kicks(rt)[k].0
    }

    /// The row of the piece after offset `k` of a rotation (offsets count upwards).
    pub open spec fn kick_y(self, rt: RotationType, k: int) -> int {
        self.y - self.kicks(rt)[k].1
    }

    /// The first offset, from the `i`-th on, at which the turned piece fits.
    pub open spec fn first_kick(self, rt: RotationType, i: int) -> Option<int>
        decreases self.kicks(rt).len() - i,
    {
        if i < 0 || i >= self.kicks(rt).len() {
            None
        } else if self.can_place(
            self.kick_x(rt, i),
            self.kick_y(rt, i),
            target_direction(self.direction, rt),
        ) {
            Some(i)
        } else {
            self.first_kick(rt, i + 1)
        }
    }

    /// The piece after a rotation, and whether the rotation succeeded: a piece
    /// that does not turn (the O piece) succeeds and stays as it is; another
    /// turns at the first offset at which it fits, or stays if there is none.
    pub open spec fn rotated(self, rt: RotationType) -> (MinoView, bool) {
        if !self.does_rotate {
            (self, true)
        } else {
            match self.first_kick(rt, 0) {
                Some(k) => (
                    self.moved_to(
                        self.kick_x(rt, k),
                        self.kick_y(rt, k),
                        target_direction(self.direction, rt),
                    ),
                    true,
                ),
                None => (self, false),
            }
        }
    }

    /// The piece after it is locked: marked fixed, and redrawn as locked cells
    /// where it stands if it still fits there.
    pub open spec fn fixed(self) -> (MinoView, bool) {
        MinoView { state: MinoState::Fixed, ..self }.try_move(self.x, self.y, self.direction)
    }

    /// The piece after a move request, and whether the request succeeded.
    pub open spec fn moved(self, msg: MoveMessage) -> (MinoView, bool) {
        match msg {
            MoveMessage::Left => self.try_move(self.x - 1, self.y, self.direction),
            MoveMessage::Right => self.try_move(self.x + 1, self.y, self.direction),
            MoveMessage::Down => self.try_move(self.x, self.y + 1, self.direction),
            MoveMessage::RotateRight => self.rotated(RotationType::RotateRight),
            MoveMessage::RotateLeft => self.rotated(RotationType::RotateLeft),
            MoveMessage::Rotate180 => self.rotated(RotationType::Rotate180),
            MoveMessage::Fix => self.fixed(),
        }
    }

    /// The piece after it is moved down one row at a time for as long as it fits.
    pub open spec fn hard_dropped(self) -> MinoView
        decreases self.field.len() - self.y,
    {
        if self.can_place(self.x, self.y + 1, self.direction) {
            proof {
                lemma_shape_has_inner_cell(self.mino_type, self.direction);
            }
            self.moved_to(self.x, self.y + 1, self.direction).hard_dropped()
        } else {
            self
        }
    }

    /// The piece with its ghost redrawn: every ghost cell emptied, then ghost
    /// cells written into the free cells that the piece would cover where it
    /// would land if dropped straight down.
    pub open spec fn with_ghost(self) -> MinoView {
        MinoView {
            field: stamped(
                without_ghosts(self.field),
                self.mino_type,
                self.direction,
                self.x,
                landing_y(self.field, self.mino_type, self.direction, self.x, self.y),
                BlockType::GhostBlock(self.mino_type),
                true,
            ),
            ..self
        }
    }
}

/// A piece of kind `t` at the appearance place in field `g`, before it is drawn there.
pub open spec fn default_mino_in(g: Grid, t: MinoType) -> MinoView {
    MinoView {
        x: APPEARANCE_X as int,
        y: APPEARANCE_Y as int,
        field: g,
        state: MinoState::InMotion,
        direction: MinoDirection::North,
        mino_type: t,
        does_rotate: t != MinoType::MinoO,
        minimum_y: APPEARANCE_Y as int,
    }
}

/// The piece that appears when a piece of kind `t` enters the field `g`.
pub open spec fn spawned(g: Grid, t: MinoType) -> MinoView {
    MinoView {
        x: APPEARANCE_X as int,
        y: APPEARANCE_Y as int,
        field: placed(g, t, MinoDirection::North, APPEARANCE_X as int, APPEARANCE_Y as int, MinoState::InMotion),
        state: MinoState::InMotion,
        direction: MinoDirection::North,
        mino_type: t,
        does_rotate: t != MinoType::MinoO,
        minimum_y: APPEARANCE_Y as int,
    }
}

/// The falling piece, with the field it moves in.
#[derive(Clone, Debug)]
pub struct Mino {
    /// Column of the upper-left corner of the piece's 4x4 box.
    pub x: i64,
    /// Row of the upper-left corner of the piece's 4x4 box.
    pub y: i64,
    /// The field, with the piece drawn in it.
    pub field: Vec<Vec<BlockType>>,
    pub state: MinoState,
    pub mino_direction: MinoDirection,
    pub mino_type: MinoType,
    /// Whether rotations turn the piece (false for the O piece).
    pub does_rotate: bool,
    /// The largest row the piece's box has reached.
    pub minimum_y: i64,
}

impl View for Mino {
    type V = MinoView;

    open spec fn view(&self) -> MinoView {
        MinoView {
            x: self.x as int,
            y: self.y as int,
            field: grid(&self.field),
            state: self.state,
            direction: self.mino_direction,
            mino_type: self.mino_type,
            does_rotate: self.does_rotate,
            minimum_y: self.minimum_y as int,
        }
    }
}

/// Two grids with the same number of rows and the same row lengths.
pub open spec fn same_dims(a: Grid, b: Grid) -> bool {
    a.len() == b.len() && forall|i: int| 0 <= i < a.len() ==> #[trigger] a[i].len() == b[i].len()
}

/// Stamping a piece keeps the dimensions of the grid.
pub proof fn lemma_stamped_dims(
    g: Grid,
    t: MinoType,
    d: MinoDirection,
    x: int,
    y: int,
    blk: BlockType,
    only_free: bool,
)
    ensures
        same_dims(stamped(g, t, d, x, y, blk, only_free), g),
        same_dims(without_motion(g), g),
        same_dims(without_ghosts(g), g),
{
}

/// Whether a piece lies inside a field depends only on the field's dimensions.
pub proof fn lemma_within_same_dims(a: Grid, b: Grid, t: MinoType, d: MinoDirection, x: int, y: int)
    requires
        same_dims(a, b),
        within(a, t, d, x, y),
    ensures
        within(b, t, d, x, y),
{
    assert forall|r: int, c: int| #[trigger] shape_cell(t, d, r, c) implies in_field(b, y + r, x + c) by {
        assert(in_field(a, y + r, x + c));
    }
}

/// Dimensions within the handled range stay so in a grid of the same dimensions.
pub proof fn lemma_dims_ok_same_dims(a: Grid, b: Grid)
    requires
        same_dims(a, b),
        dims_ok(a),
    ensures
        dims_ok(b),
{
    assert forall|i: int| 0 <= i < b.len() implies #[trigger] b[i].len() <= coord_limit() by {
        assert(a[i].len() == b[i].len());
    }
}

/// A piece that fits at a place lies inside the field there.
pub proof fn lemma_fits_bounds(g: Grid, t: MinoType, d: MinoDirection, x: int, y: int)
    requires
        fits(g, t, d, x, y),
        dims_ok(g),
    ensures
        within(g, t, d, x, y),
        coord_ok(x),
        coord_ok(y),
        y + 1 < g.len(),
{
    lemma_within_bounds(g, t, d, x, y);
}

/// A place where a piece lies inside a field of handled dimensions is within
/// the handled range, and the piece has a row below its box's top row.
pub proof fn lemma_within_bounds(g: Grid, t: MinoType, d: MinoDirection, x: int, y: int)
    requires
        within(g, t, d, x, y),
        dims_ok(g),
    ensures
        coord_ok(x),
        coord_ok(y),
        y + 1 < g.len(),
{
    lemma_shape_has_inner_cell(t, d);
    if shape_cell(t, d, 1, 1) {
        assert(in_field(g, y + 1, x + 1));
    } else if shape_cell(t, d, 1, 2) {
        assert(in_field(g, y + 1, x + 2));
    } else {
        assert(in_field(g, y + 2, x + 1));
    }
}

/// Moving a piece to a place where it fits keeps its coordinates and field in
/// range, keeps the field's dimensions, and leaves the piece inside the field.
pub proof fn lemma_moved_to_sane(m: MinoView, x: int, y: int, d: MinoDirection)
    requires
        m.sane(),
        m.can_place(x, y, d),
    ensures
        m.moved_to(x, y, d).sane(),
        m.moved_to(x, y, d).placed_within(),
        same_dims(m.moved_to(x, y, d).field, m.field),
{
    lemma_fits_bounds(m.field, m.mino_type, d, x, y);
    let g = m.field;
    lemma_stamped_dims(without_motion(g), m.mino_type, d, x, y, piece_block(m.state, m.mino_type), false);
    lemma_stamped_dims(g, m.mino_type, d, x, y, piece_block(m.state, m.mino_type), false);
    let h = m.moved_to(x, y, d).field;
    assert(same_dims(h, g)) by {
        assert forall|i: int| 0 <= i < h.len() implies #[trigger] h[i].len() == g[i].len() by {
            assert(without_motion(g)[i].len() == g[i].len());
        }
    }
    lemma_dims_ok_same_dims(g, h);
    lemma_within_same_dims(g, h, m.mino_type, d, x, y);
}

/// Grids of the same dimensions as a field of the standard size have the standard size.
pub proof fn lemma_standard_same_dims(a: Grid, b: Grid)
    requires
        same_dims(a, b),
        standard_shape(b),
    ensures
        standard_shape(a),
        dims_ok(a),
{
    assert forall|i: int| 0 <= i < a.len() implies #[trigger] a[i].len() == WIDTH by {
        assert(b[i].len() == WIDTH);
    }
}

/// The grid with `blk` written into the cells of the piece whose position in
/// the box, counted row by row, is below `k`.
spec fn stamped_upto(
    g: Grid,
    t: MinoType,
    d: MinoDirection,
    x: int,
    y: int,
    blk: BlockType,
    only_free: bool,
    k: int,
) -> Grid {
    Seq::new(
        g.len(),
        |i: int|
            Seq::new(
                g[i].len(),
                |j: int|
                    if shape_cell(t, d, i - y, j - x) && (i - y) * 4 + (j - x) < k && (!only_free
                        || free_cell(g[i][j])) {
                        blk
                    } else {
                        g[i][j]
                    },
            ),
    )
}

/// Whether the piece fits at that place in the field.
fn fits_at(field: &Vec<Vec<BlockType>>, t: MinoType, d: MinoDirection, x: i64, y: i64) -> (ok: bool)
    requires
        box_ok(x as int),
        box_ok(y as int),
    ensures
        ok == fits(grid(field), t, d, x as int, y as int),
{
    let shape = rotation(t, d);
    let ghost g = grid(field);
    for r in 0..4usize
        invariant
            shape == rotation_spec(t, d),
            g == grid(field),
            box_ok(x as int),
            box_ok(y as int),
            forall|r2: int, c2: int|
                0 <= r2 < r && #[trigger] shape_cell(t, d, r2, c2) ==> in_field(g, y + r2, x + c2)
                    && !g[y + r2][x + c2].collides(),
    {
        for c in 0..4usize
            invariant
                shape == rotation_spec(t, d),
                g == grid(field),
                box_ok(x as int),
                box_ok(y as int),
                r < 4,
                forall|r2: int, c2: int|
                    (0 <= r2 < r || (r2 == r && c2 < c)) && #[trigger] shape_cell(t, d, r2, c2)
                        ==> in_field(g, y + r2, x + c2) && !g[y + r2][x + c2].collides(),
        {
            if shape[r][c] == 1 {
                assert(shape_cell(t, d, r as int, c as int));
                let yi = y + r as i64;
                let xi = x + c as i64;
                if yi < 0 || xi < 0 {
                    return false;
                }
                if (yi as u64) >= (field.len() as u64) {
                    return false;
                }
                let row = &field[yi as usize];
                if (xi as u64) >= (row.len() as u64) {
                    return false;
                }
                if row[xi as usize].has_collision_detection() {
                    return false;
                }
            }
        }
    }
    true
}

/// Writes `blk` into every cell of the piece at that place (when `only_free`,
/// only into empty and ghost cells).
fn stamp(
    field: &mut Vec<Vec<BlockType>>,
    t: MinoType,
    d: MinoDirection,
    x: i64,
    y: i64,
    blk: BlockType,
    only_free: bool,
)
    requires
        box_ok(x as int),
        box_ok(y as int),
        within(grid(old(field)), t, d, x as int, y as int),
    ensures
        grid(final(field)) == stamped(grid(old(field)), t, d, x as int, y as int, blk, only_free),
{
    let shape = rotation(t, d);
    let ghost g = grid(field);
    assert(grid(field) =~~= stamped_upto(g, t, d, x as int, y as int, blk, only_free, 0));
    for r in 0..4usize
        invariant
            shape == rotation_spec(t, d),
            box_ok(x as int),
            box_ok(y as int),
            within(g, t, d, x as int, y as int),
            grid(field) == stamped_upto(g, t, d, x as int, y as int, blk, only_free, r * 4),
    {
        for c in 0..4usize
            invariant
                shape == rotation_spec(t, d),
                box_ok(x as int),
                box_ok(y as int),
                within(g, t, d, x as int, y as int),
                r < 4,
                grid(field) == stamped_upto(g, t, d, x as int, y as int, blk, only_free, r * 4 + c),
        {
            let ghost k = r * 4 + c;
            if shape[r][c] == 1 {
                assert(shape_cell(t, d, r as int, c as int));
                assert(in_field(g, y + r, x + c));
                assert(grid(field).len() == g.len());
                assert(grid(field)[y + r].len() == g[y + r].len());
                assert(field@.len() == grid(field).len());
                assert(field.len() == field@.len());
                assert(field@[y + r]@.len() == grid(field)[y + r].len());
                assert(field@[y + r].len() == field@[y + r]@.len());
                assert(x + c < field@[y + r].len());
                let yi = (y + r as i64) as usize;
                let xi = (x + c as i64) as usize;
                assert(yi as int == y + r);
                assert(xi as int == x + c);
                assert(xi < field@[yi as int].len());
                let cur = field[yi][xi];
                assert(cur == g[yi as int][xi as int]);
                let writable = match cur {
                    BlockType::Empty | BlockType::GhostBlock(_) => true,
                    _ => !only_free,
                };
                let ghost before = grid(field);
                if writable {
                    field[yi][xi] = blk;
                    assert(grid(field) =~~= before.update(
                        yi as int,
                        before[yi as int].update(xi as int, blk),
                    ));
                }
                proof {
                    let target = stamped_upto(g, t, d, x as int, y as int, blk, only_free, k + 1);
                    assert forall|i: int| 0 <= i < target.len() implies #[trigger] grid(field)[i]
                        =~= target[i] by {
                        assert forall|j: int| 0 <= j < target[i].len() implies grid(field)[i][j]
                            == target[i][j] by {
                            if shape_cell(t, d, i - y, j - x) && (i - y) * 4 + (j - x) == k {
                                assert(i == y + r && j == x + c);
                            }
                        }
                    }
                    assert(grid(field) =~= target);
                }
            } else {
                assert(grid(field) =~~= stamped_upto(g, t, d, x as int, y as int, blk, only_free, k + 1));
            }
        }
    }
    assert(grid(field) =~~= stamped(g, t, d, x as int, y as int, blk, only_free));
}

/// The piece that `Mino::default` gives: an O piece at the appearance place,
/// with an empty field.
pub open spec fn default_mino() -> MinoView {
    MinoView {
        x: APPEARANCE_X as int,
        y: APPEARANCE_Y as int,
        field: Seq::empty(),
        state: MinoState::InMotion,
        direction: MinoDirection::North,
        mino_type: MinoType::MinoO,
        does_rotate: false,
        minimum_y: APPEARANCE_Y as int,
    }
}

impl Default for Mino {
    fn default() -> (m: Self)
        ensures
            m@ == default_mino(),
    {
        let m = Mino {
            x: APPEARANCE_X,
            y: APPEARANCE_Y,
            state: MinoState::InMotion,
            mino_direction: MinoDirection::North,
            mino_type: MinoType::MinoO,
            does_rotate: false,
            field: Vec::new(),
            minimum_y: APPEARANCE_Y,
        };
        assert(grid(&m.field) =~= Seq::empty());
        m
    }
}

impl Mino {
    /// A new piece of kind `mino_type` at the appearance place, drawn into a
    /// copy of `field_arg`; an error if it does not fit there.
    pub fn new(mino_type: MinoType, field_arg: &Vec<Vec<BlockType>>) -> (r: Result<Self, ()>)
        ensures
            r is Ok <==> fits(
                grid(field_arg),
                mino_type,
                MinoDirection::North,
                APPEARANCE_X as int,
                APPEARANCE_Y as int,
            ),
            r matches Ok(m) ==> m@ == spawned(grid(field_arg), mino_type),
            r matches Ok(m) ==> m@.turns_by_kind(),
    {
        let default_mino = Mino::default();
        let field = copy_grid(field_arg);
        let mut result = if mino_type == MinoType::MinoO {
            Mino { field, ..default_mino }
        } else {
            Mino { field, mino_type, does_rotate: true, ..default_mino }
        };
        result.set_appearance_position();
        let x = result.x;
        let y = result.y;
        let d = result.mino_direction;
        if result.replace(x, y, d).is_ok() {
            Ok(result)
        } else {
            Err(())
        }
    }

    /// Whether the piece has been locked into the field.
    pub fn is_fixed(&self) -> (r: bool)
        ensures
            r == (self.state == MinoState::Fixed),
    {
        self.state == MinoState::Fixed
    }

    /// The kind of the piece.
    pub fn get_mino_type(&self) -> (t: MinoType)
        ensures
            t == self.mino_type,
    {
        self.mino_type
    }

    /// Puts the piece's box corner at (`x`, `y`) without redrawing the field.
    pub fn set_position(&mut self, x: i64, y: i64)
        ensures
            final(self)@ == (MinoView { x: x as int, y: y as int, ..old(self)@ }),
    {
        self.x = x;
        self.y = y;
    }

    /// Puts the piece's box corner at the appearance place without redrawing the field.
    pub fn set_appearance_position(&mut self)
        ensures
            final(self)@ == (MinoView { x: APPEARANCE_X as int, y: APPEARANCE_Y as int, ..old(self)@ }),
    {
        self.x = APPEARANCE_X;
        self.y = APPEARANCE_Y;
    }

    /// The field with the piece drawn at (`x`, `y`) turned to `d`, or an error
    /// if it does not fit there; the piece itself is left as it is.
    pub fn replace_common(&self, x: i64, y: i64, mino_direction: MinoDirection) -> (r: Result<
        (i64, i64, MinoDirection, Vec<Vec<BlockType>>),
        (),
    >)
        requires
            box_ok(x as int),
            box_ok(y as int),
        ensures
            r is Ok <==> self@.can_place(x as int, y as int, mino_direction),
            r matches Ok(p) ==> p.0 == x && p.1 == y && p.2 == mino_direction && grid(&p.3) == placed(
                self@.field,
                self.mino_type,
                mino_direction,
                x as int,
                y as int,
                self.state,
            ),
    {
        if !fits_at(&self.field, self.mino_type, mino_direction, x, y) {
            return Err(());
        }
        let blk = match self.state {
            MinoState::InMotion => BlockType::MinoInMotion(self.mino_type),
            MinoState::Fixed => BlockType::MinoBlock(self.mino_type),
        };
        let mut field2 = erase_motion(&self.field);
        proof {
            let g = self@.field;
            lemma_stamped_dims(g, self.mino_type, mino_direction, x as int, y as int, blk, false);
            assert forall|r: int, c: int| #[trigger] shape_cell(self.mino_type, mino_direction, r, c)
                implies in_field(grid(&field2), y + r, x + c) by {
                assert(in_field(g, y + r, x + c));
                assert(grid(&field2)[y + r].len() == g[y + r].len());
            }
        }
        stamp(&mut field2, self.mino_type, mino_direction, x, y, blk, false);
        Ok((x, y, mino_direction, field2))
    }

    /// Moves the piece to (`x`, `y`) turned to `mino_direction` and redraws the
    /// field, if it fits there; an error, with nothing changed, if not.
    pub fn replace(&mut self, x: i64, y: i64, mino_direction: MinoDirection) -> (r: Result<(), ()>)
        requires
            box_ok(x as int),
            box_ok(y as int),
        ensures
            (final(self)@, r is Ok) == old(self)@.try_move(x as int, y as int, mino_direction),
    {
        let result = self.replace_common(x, y, mino_direction);
        match result {
            Ok(p) => {
                self.x = p.0;
                self.y = p.1;
                self.mino_direction = p.2;
                self.field = p.3;
                if self.minimum_y < self.y {
                    self.minimum_y = self.y;
                }
                Ok(())
            },
            Err(e) => Err(e),
        }
    }

    /// Whether the piece fits at (`x`, `y`) turned to `mino_direction`.
    pub fn can_replace(&self, x: i64, y: i64, mino_direction: MinoDirection) -> (r: bool)
        requires
            box_ok(x as int),
            box_ok(y as int),
        ensures
            r == self@.can_place(x as int, y as int, mino_direction),
    {
        self.replace_common(x, y, mino_direction).is_ok()
    }

    /// Locks the piece: marks it fixed and redraws it as locked cells where it stands.
    pub fn fix(&mut self) -> (r: Result<(), ()>)
        requires
            box_ok(old(self).x as int),
            box_ok(old(self).y as int),
        ensures
            (final(self)@, r is Ok) == old(self)@.fixed(),
            old(self)@.sane() ==> final(self)@.sane(),
            old(self)@.sane() ==> same_dims(final(self)@.field, old(self)@.field),
            old(self)@.sane() && old(self)@.placed_within() ==> final(self)@.placed_within(),
    {
        proof {
            if self@.sane() {
                lemma_moved_keeps(self@, MoveMessage::Fix);
            }
        }
        self.state = MinoState::Fixed;
        let x = self.x;
        let y = self.y;
        let d = self.mino_direction;
        self.replace(x, y, d)
    }

    /// Whether the piece fits where it stands.
    pub fn can_fix(&self) -> (r: bool)
        requires
            box_ok(self.x as int),
            box_ok(self.y as int),
        ensures
            r == self@.fixed().1,
    {
        self.can_replace(self.x, self.y, self.mino_direction)
    }
}

/// Every wall-kick offset moves a piece by at most three cells each way.
pub proof fn lemma_kicks_small(is_i: bool, rt: RotationType, from: MinoDirection)
    ensures
        forall|k: int|
            0 <= k < kick_table(is_i, rt, from).len() ==> -3 <= #[trigger] kick_table(
                is_i,
                rt,
                from,
            )[k].0 <= 3 && -3 <= kick_table(is_i, rt, from)[k].1 <= 3,
{
}

/// The first fitting offset from the `i`-th on is a fitting offset from the `i`-th on.
pub proof fn lemma_first_kick(m: MinoView, rt: RotationType, i: int)
    ensures
        m.first_kick(rt, i) matches Some(k) ==> i <= k < m.kicks(rt).len() && m.can_place(
            m.kick_x(rt, k),
            m.kick_y(rt, k),
            target_direction(m.direction, rt),
        ),
    decreases m.kicks(rt).len() - i,
{
    if 0 <= i < m.kicks(rt).len() && !m.can_place(
        m.kick_x(rt, i),
        m.kick_y(rt, i),
        target_direction(m.direction, rt),
    ) {
        lemma_first_kick(m, rt, i + 1);
    }
}

/// A move request keeps the piece's coordinates and field in range, keeps the
/// field's dimensions, and keeps a piece that lies inside the field inside it.
pub proof fn lemma_moved_keeps(m: MinoView, msg: MoveMessage)
    requires
        m.sane(),
    ensures
        m.moved(msg).0.sane(),
        same_dims(m.moved(msg).0.field, m.field),
        m.placed_within() ==> m.moved(msg).0.placed_within(),
{
    let n = m.moved(msg).0;
    match msg {
        MoveMessage::Left => {
            if m.can_place(m.x - 1, m.y, m.direction) {
                lemma_moved_to_sane(m, m.x - 1, m.y, m.direction);
            }
        },
        MoveMessage::Right => {
            if m.can_place(m.x + 1, m.y, m.direction) {
                lemma_moved_to_sane(m, m.x + 1, m.y, m.direction);
            }
        },
        MoveMessage::Down => {
            if m.can_place(m.x, m.y + 1, m.direction) {
                lemma_moved_to_sane(m, m.x, m.y + 1, m.direction);
            }
        },
        MoveMessage::Fix => {
            let f = MinoView { state: MinoState::Fixed, ..m };
            if f.can_place(m.x, m.y, m.direction) {
                lemma_moved_to_sane(f, m.x, m.y, m.direction);
            }
        },
        _ => {
            let rt = match msg {
                MoveMessage::RotateRight => RotationType::RotateRight,
                MoveMessage::RotateLeft => RotationType::RotateLeft,
                _ => RotationType::Rotate180,
            };
            if m.does_rotate {
                lemma_first_kick(m, rt, 0);
                if let Some(k) = m.first_kick(rt, 0) {
                    lemma_moved_to_sane(
                        m,
                        m.kick_x(rt, k),
                        m.kick_y(rt, k),
                        target_direction(m.direction, rt),
                    );
                }
            }
        },
    }
}

impl Mino {
    /// The direction a rotation of the given kind turns the piece to, and the
    /// offsets it tries in order (none for a piece that does not turn).
    pub fn get_offsets(&self, rotation_type: RotationType) -> (r: (Option<Vec<(i64, i64)>>, MinoDirection))
        ensures
            r.1 == target_direction(self.mino_direction, rotation_type),
            r.0 is Some == self.does_rotate,
            r.0 matches Some(v) ==> offsets_view(v@) == self@.kicks(rotation_type),
    {
        let expect_direction = match rotation_type {
            RotationType::RotateRight => self.mino_direction.next(),
            RotationType::RotateLeft => self.mino_direction.previous(),
            RotationType::Rotate180 => self.mino_direction.next().next(),
        };
        if !self.does_rotate {
            return (None, expect_direction);
        }
        let offsets = kick_offsets(self.mino_type == MinoType::MinoI, rotation_type, self.mino_direction);
        (Some(offsets), expect_direction)
    }

    /// Whether a rotation of the given kind would succeed.
    pub fn can_rotate(&self, rotation_type: RotationType) -> (r: bool)
        requires
            self@.sane(),
        ensures
            r == self@.rotated(rotation_type).1,
            self@.turns_by_kind() && self.mino_type == MinoType::MinoO ==> r,
    {
        let result = self.get_offsets(rotation_type);
        match result.0 {
            Some(offsets) => {
                let ghost m0 = self@;
                proof {
                    lemma_kicks_small(self.mino_type == MinoType::MinoI, rotation_type, self.mino_direction);
                }
                for i in 0..offsets.len()
                    invariant
                        m0 == self@,
                        m0.sane(),
                        m0.does_rotate,
                        offsets_view(offsets@) == m0.kicks(rotation_type),
                        result.1 == target_direction(m0.direction, rotation_type),
                        m0.first_kick(rotation_type, 0) == m0.first_kick(rotation_type, i as int),
                        forall|k: int|
                            0 <= k < m0.kicks(rotation_type).len() ==> -3 <= #[trigger] m0.kicks(
                                rotation_type,
                            )[k].0 <= 3 && -3 <= m0.kicks(rotation_type)[k].1 <= 3,
                {
                    let offset = offsets[i];
                    assert(m0.kicks(rotation_type)[i as int] == (offset.0 as int, offset.1 as int));
                    if self.can_replace(self.x + offset.0, self.y - offset.1, result.1) {
                        return true;
                    }
                }
                false
            },
            None => true,
        }
    }

    /// Turns the piece by a rotation of the given kind, trying the wall-kick
    /// offsets in order; a piece that does not turn stays as it is and succeeds.
    pub fn rotate(&mut self, rotation_type: RotationType) -> (r: Result<(), ()>)
        requires
            old(self)@.sane(),
        ensures
            (final(self)@, r is Ok) == old(self)@.rotated(rotation_type),
            old(self)@.turns_by_kind() && old(self).mino_type == MinoType::MinoO ==> r is Ok
                && final(self)@ == old(self)@,
    {
        let result = self.get_offsets(rotation_type);
        match result.0 {
            Some(offsets) => {
                let ghost m0 = self@;
                proof {
                    lemma_kicks_small(self.mino_type == MinoType::MinoI, rotation_type, self.mino_direction);
                }
                for i in 0..offsets.len()
                    invariant
                        m0 == self@,
                        m0 == old(self)@,
                        m0.sane(),
                        m0.does_rotate,
                        offsets_view(offsets@) == m0.kicks(rotation_type),
                        result.1 == target_direction(m0.direction, rotation_type),
                        m0.first_kick(rotation_type, 0) == m0.first_kick(rotation_type, i as int),
                        forall|k: int|
                            0 <= k < m0.kicks(rotation_type).len() ==> -3 <= #[trigger] m0.kicks(
                                rotation_type,
                            )[k].0 <= 3 && -3 <= m0.kicks(rotation_type)[k].1 <= 3,
                {
                    let offset = offsets[i];
                    assert(m0.kicks(rotation_type)[i as int] == (offset.0 as int, offset.1 as int));
                    let x = self.x + offset.0;
                    let y = self.y - offset.1;
                    if self.replace(x, y, result.1).is_ok() {
                        assert(m0.first_kick(rotation_type, i as int) == Some(i as int));
                        return Ok(());
                    }
                }
                Err(())
            },
            None => Ok(()),
        }
    }

    /// Whether a move request would succeed.
    pub fn can_move_order(&self, move_message: MoveMessage) -> (r: bool)
        requires
            self@.sane(),
        ensures
            r == self@.moved(move_message).1,
    {
        match move_message {
            MoveMessage::RotateRight => self.can_rotate(RotationType::RotateRight),
            MoveMessage::RotateLeft => self.can_rotate(RotationType::RotateLeft),
            MoveMessage::Rotate180 => self.can_rotate(RotationType::Rotate180),
            MoveMessage::Left => self.can_replace(self.x - 1, self.y, self.mino_direction),
            MoveMessage::Right => self.can_replace(self.x + 1, self.y, self.mino_direction),
            MoveMessage::Down => self.can_replace(self.x, self.y + 1, self.mino_direction),
            MoveMessage::Fix => self.can_fix(),
        }
    }

    /// Carries out a move request; an error, with the piece where it was, if it fails.
    pub fn move_order(&mut self, move_message: MoveMessage) -> (r: Result<(), ()>)
        requires
            old(self)@.sane(),
        ensures
            (final(self)@, r is Ok) == old(self)@.moved(move_message),
            final(self)@.mino_type == old(self)@.mino_type,
            old(self)@.turns_by_kind() ==> final(self)@.turns_by_kind(),
            final(self)@.sane(),
            same_dims(final(self)@.field, old(self)@.field),
            old(self)@.placed_within() ==> final(self)@.placed_within(),
    {
        proof {
            lemma_moved_keeps(self@, move_message);
        }
        match move_message {
            MoveMessage::RotateRight => self.rotate(RotationType::RotateRight),
            MoveMessage::RotateLeft => self.rotate(RotationType::RotateLeft),
            MoveMessage::Rotate180 => self.rotate(RotationType::Rotate180),
            MoveMessage::Left => {
                let x = self.x - 1;
                let y = self.y;
                let d = self.mino_direction;
                self.replace(x, y, d)
            },
            MoveMessage::Right => {
                let x = self.x + 1;
                let y = self.y;
                let d = self.mino_direction;
                self.replace(x, y, d)
            },
            MoveMessage::Down => {
                let x = self.x;
                let y = self.y + 1;
                let d = self.mino_direction;
                self.replace(x, y, d)
            },
            MoveMessage::Fix => self.fix(),
        }
    }

    /// Whether the piece rests on something: it cannot move down one row.
    pub fn is_hitting_ground(&self) -> (r: bool)
        requires
            box_ok(self.x as int),
            box_ok(self.y + 1),
        ensures
            r == !self@.can_place(self.x as int, self.y + 1, self.mino_direction),
    {
        !self.can_replace(self.x, self.y + 1, self.mino_direction)
    }

    /// Redraws the ghost: where the piece would land if dropped straight down.
    pub fn draw_ghost(&mut self)
        requires
            old(self)@.sane(),
            old(self)@.placed_within(),
        ensures
            final(self)@ == old(self)@.with_ghost(),
    {
        let ghost m0 = self@;
        let ghost g = m0.field;
        let mut y = self.y;
        proof {
            lemma_within_bounds(g, m0.mino_type, m0.direction, m0.x, m0.y);
        }
        let mut lower_fits = self.can_replace(self.x, y + 1, self.mino_direction);
        while lower_fits
            invariant
                m0 == self@,
                g == m0.field,
                m0.sane(),
                within(g, m0.mino_type, m0.direction, m0.x, y as int),
                coord_ok(y as int),
                y + 1 < g.len(),
                lower_fits == fits(g, m0.mino_type, m0.direction, m0.x, y + 1),
                landing_y(g, m0.mino_type, m0.direction, m0.x, y as int) == landing_y(
                    g,
                    m0.mino_type,
                    m0.direction,
                    m0.x,
                    m0.y,
                ),
            decreases g.len() - y,
        {
            proof {
                lemma_fits_bounds(g, m0.mino_type, m0.direction, m0.x, y + 1);
            }
            y = y + 1;
            lower_fits = self.can_replace(self.x, y + 1, self.mino_direction);
        }
        let mut field2 = erase_ghosts(&self.field);
        proof {
            lemma_stamped_dims(g, m0.mino_type, m0.direction, m0.x, y as int, BlockType::Empty, false);
            lemma_within_same_dims(g, grid(&field2), m0.mino_type, m0.direction, m0.x, y as int);
        }
        stamp(&mut field2, self.mino_type, self.mino_direction, self.x, y, BlockType::GhostBlock(self.mino_type), true);
        self.field = field2;
    }
}

} // verus!
